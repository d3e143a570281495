//! Whole builds, round by round.
//!
//! A round settles the chain, advances it under the costs it was given and,
//! where that joined two clusters, gives the new slot its centre and radius.
//! What a build arrives at is fixed by the leaves it starts from and by what
//! the rounds were given, and when it is done the slots are a tree over
//! those leaves.
use crate::chain::{
    advances, lemma_advances_deterministic, lemma_advances_wf, lemma_done_is_tree,
    lemma_initial_wf, lemma_places_wf, lemma_settles_deterministic, lemma_settles_wf, places,
    settles, ChainState, Step,
};
use crate::spheretree::{well_formed_tree, Sphere, MAX_LEAVES};
use vstd::prelude::*;

verus! {

/// What one round is given: the cost keys of all slots relative to the
/// settled top of the chain, and the centre and radius for the slot that
/// the round allocates if it joins.
pub struct RoundInput {
    pub costs: Seq<i64>,
    pub pos: [u32; 3],
    pub radius: u32,
}

/// One round leads from `pre` to `post` under `input`, taking `step`.
pub open spec fn runs_round(pre: ChainState, input: RoundInput, post: ChainState, step: Step) -> bool {
    &&& !pre.done()
    &&& input.costs.len() == pre.nodes.len()
    &&& exists|settled: ChainState, advanced: ChainState|
        {
            &&& #[trigger] settles(pre, settled)
            &&& #[trigger] advances(settled, input.costs, advanced, step)
            &&& if step is Merged {
                places(advanced, input.pos, input.radius, post)
            } else {
                post == advanced
            }
        }
}

/// The states `states` and the steps `steps` are those of a build that
/// was given `inputs`: every round leads from one state to the next.
pub open spec fn is_build(states: Seq<ChainState>, steps: Seq<Step>, inputs: Seq<RoundInput>) -> bool {
    &&& states.len() == inputs.len() + 1
    &&& steps.len() == inputs.len()
    &&& forall|r: int|
        #![trigger steps[r]]
        0 <= r < inputs.len() ==> runs_round(states[r], inputs[r], states[r + 1], steps[r])
}

/// A round is determined by the state it starts from and by what it is
/// given.
pub proof fn lemma_round_deterministic(
    pre: ChainState,
    input: RoundInput,
    post1: ChainState,
    step1: Step,
    post2: ChainState,
    step2: Step,
)
    requires
        runs_round(pre, input, post1, step1),
        runs_round(pre, input, post2, step2),
    ensures
        step1 == step2,
        post1 == post2,
{
    let (settled1, advanced1) = choose|settled: ChainState, advanced: ChainState|
        {
            &&& #[trigger] settles(pre, settled)
            &&& #[trigger] advances(settled, input.costs, advanced, step1)
            &&& if step1 is Merged {
                places(advanced, input.pos, input.radius, post1)
            } else {
                post1 == advanced
            }
        };
    let (settled2, advanced2) = choose|settled: ChainState, advanced: ChainState|
        {
            &&& #[trigger] settles(pre, settled)
            &&& #[trigger] advances(settled, input.costs, advanced, step2)
            &&& if step2 is Merged {
                places(advanced, input.pos, input.radius, post2)
            } else {
                post2 == advanced
            }
        };
    lemma_settles_deterministic(pre, settled1, settled2);
    lemma_advances_deterministic(settled1, input.costs, advanced1, step1, advanced2, step2);
}

/// A round keeps a state well formed and leaves the leaves as they are.
pub proof fn lemma_round_wf(pre: ChainState, input: RoundInput, post: ChainState, step: Step)
    requires
        pre.wf(),
        pre.leaves <= MAX_LEAVES,
        runs_round(pre, input, post, step),
    ensures
        post.wf(),
        post.leaves == pre.leaves,
        forall|i: int| 0 <= i < pre.leaves ==> post.nodes[i] == pre.nodes[i],
{
    let (settled, advanced) = choose|settled: ChainState, advanced: ChainState|
        {
            &&& #[trigger] settles(pre, settled)
            &&& #[trigger] advances(settled, input.costs, advanced, step)
            &&& if step is Merged {
                places(advanced, input.pos, input.radius, post)
            } else {
                post == advanced
            }
        };
    lemma_settles_wf(pre, settled);
    lemma_advances_wf(settled, input.costs, advanced, step);
    if step is Merged {
        lemma_places_wf(advanced, input.pos, input.radius, post);
    }
}

/// Up to round `upto`, two builds from the same state under the same
/// inputs pass through the same states and take the same steps.
proof fn lemma_prefix_deterministic(
    inputs: Seq<RoundInput>,
    states1: Seq<ChainState>,
    steps1: Seq<Step>,
    states2: Seq<ChainState>,
    steps2: Seq<Step>,
    upto: int,
)
    requires
        is_build(states1, steps1, inputs),
        is_build(states2, steps2, inputs),
        states1[0] == states2[0],
        0 <= upto <= inputs.len(),
    ensures
        forall|r: int| 0 <= r <= upto ==> states1[r] == states2[r],
        forall|r: int| 0 <= r < upto ==> steps1[r] == steps2[r],
    decreases upto,
{
    if upto > 0 {
        let r = upto - 1;
        lemma_prefix_deterministic(inputs, states1, steps1, states2, steps2, r);
        assert(runs_round(states1[r], inputs[r], states1[r + 1], steps1[r]));
        assert(runs_round(states2[r], inputs[r], states2[r + 1], steps2[r]));
        lemma_round_deterministic(
            states1[r],
            inputs[r],
            states1[r + 1],
            steps1[r],
            states2[r + 1],
            steps2[r],
        );
    }
}

/// Builds are deterministic: two builds that start from the same leaves
/// and are given the same inputs pass through the same states, slot for
/// slot, and take the same steps.
pub proof fn lemma_build_deterministic(
    inputs: Seq<RoundInput>,
    states1: Seq<ChainState>,
    steps1: Seq<Step>,
    states2: Seq<ChainState>,
    steps2: Seq<Step>,
)
    requires
        is_build(states1, steps1, inputs),
        is_build(states2, steps2, inputs),
        states1[0] == states2[0],
    ensures
        states1 == states2,
        steps1 == steps2,
{
    lemma_prefix_deterministic(inputs, states1, steps1, states2, steps2, inputs.len() as int);
    assert(states1 =~= states2);
    assert(steps1 =~= steps2);
}

/// Up to round `upto`, every state of a build is well formed and still
/// holds the leaves it started from.
proof fn lemma_prefix_wf(
    inputs: Seq<RoundInput>,
    states: Seq<ChainState>,
    steps: Seq<Step>,
    upto: int,
)
    requires
        is_build(states, steps, inputs),
        states[0].wf(),
        states[0].leaves <= MAX_LEAVES,
        0 <= upto <= inputs.len(),
    ensures
        states[upto].wf(),
        states[upto].leaves == states[0].leaves,
        forall|i: int| 0 <= i < states[0].leaves ==> states[upto].nodes[i] == states[0].nodes[i],
    decreases upto,
{
    if upto > 0 {
        let r = upto - 1;
        lemma_prefix_wf(inputs, states, steps, r);
        assert(runs_round(states[r], inputs[r], states[r + 1], steps[r]));
        lemma_round_wf(states[r], inputs[r], states[r + 1], steps[r]);
    }
}

/// A build over `leaves` that is done holds a well-formed tree of
/// `2 * leaves.len() - 1` slots whose first slots are the leaves as given.
pub proof fn lemma_build_is_tree(
    leaves: Seq<Sphere>,
    inputs: Seq<RoundInput>,
    states: Seq<ChainState>,
    steps: Seq<Step>,
)
    requires
        1 <= leaves.len() <= MAX_LEAVES,
        forall|i: int| 0 <= i < leaves.len() ==> (#[trigger] leaves[i]).spec_is_leaf(),
        is_build(states, steps, inputs),
        states[0] == ChainState::initial(leaves),
        states.last().done(),
    ensures
        states.last().nodes.len() == 2 * leaves.len() - 1,
        well_formed_tree(states.last().nodes, leaves.len() as int),
        forall|i: int| 0 <= i < leaves.len() ==> states.last().nodes[i] == leaves[i],
{
    lemma_initial_wf(leaves);
    lemma_prefix_wf(inputs, states, steps, inputs.len() as int);
    lemma_done_is_tree(states.last());
}

} // verus!
