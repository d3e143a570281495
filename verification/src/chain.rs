//! The nearest-neighbour chain that agglomerates clusters into a sphere tree.
//!
//! Building starts with every leaf as an active cluster and an empty chain.
//! A round first settles the chain, so that its top is an active cluster,
//! seeding it when it has run empty. The caller then supplies the join cost
//! of every other active cluster relative to that top, and the builder either
//! extends the chain by the nearest neighbour or, when the nearest neighbour
//! is the entry just below the top, joins the two into a new cluster. When a
//! single active cluster is left, the slots form the finished tree.
use crate::neighbor::{is_candidate, is_nearest, lemma_nearest_unique};
use crate::spheretree::{
    has_parent, is_child_of, joins_lower, well_formed_tree, Sphere, MAX_LEAVES,
};
use vstd::prelude::*;

verus! {

/// How many of the slots are active.
pub open spec fn count_active(active: Seq<bool>) -> nat
    decreases active.len(),
{
    if active.len() == 0 {
        0
    } else {
        count_active(active.drop_last()) + if active.last() {
            1nat
        } else {
            0nat
        }
    }
}

/// Slot `i` is active and no higher slot is.
pub open spec fn is_highest_active(active: Seq<bool>, i: int) -> bool {
    &&& 0 <= i < active.len()
    &&& active[i]
    &&& forall|j: int| i < j < active.len() ==> !active[j]
}

/// The chain after the entries at its top that are no active clusters have
/// been popped.
pub open spec fn settled_chain(chain: Seq<usize>, active: Seq<bool>) -> Seq<usize>
    decreases chain.len(),
{
    if chain.len() == 0 {
        chain
    } else if chain.last() < active.len() && active[chain.last() as int] {
        chain
    } else {
        settled_chain(chain.drop_last(), active)
    }
}

/// What one round of the chain did.
#[derive(Clone, Copy, Debug, PartialEq, Eq, Structural)]
pub enum Step {
    /// The nearest neighbour was put on top of the chain.
    Extended { neighbor: usize },
    /// The top of the chain (`left`) and the entry below it (`right`) were
    /// joined into the new slot `node`.
    Merged { left: usize, right: usize, node: usize },
}

/// The state of a build as contracts see it.
pub struct ChainState {
    /// Number of leaves the build started from.
    pub leaves: nat,
    /// Every slot allocated so far: the leaves, then the joins in the
    /// order they were made.
    pub nodes: Seq<Sphere>,
    /// For every slot, whether it is an active cluster.
    pub active: Seq<bool>,
    /// The chain, its top last.
    pub chain: Seq<usize>,
}

impl ChainState {
    /// The state a build over the given leaves starts in.
    pub open spec fn initial(leaves: Seq<Sphere>) -> ChainState {
        ChainState {
            leaves: leaves.len(),
            nodes: leaves,
            active: Seq::new(leaves.len(), |i: int| true),
            chain: Seq::empty(),
        }
    }

    /// A single active cluster is left.
    pub open spec fn done(self) -> bool {
        self.nodes.len() + 1 == 2 * self.leaves
    }

    /// The chain is not empty and its top is an active cluster.
    pub open spec fn ready(self) -> bool {
        &&& self.chain.len() > 0
        &&& self.chain.last() < self.active.len()
        &&& self.active[self.chain.last() as int]
    }

    /// What holds of every state that a build passes through.
    ///
    /// Each join so far took two active clusters out and put one in, so the
    /// active clusters number `2 * leaves - nodes.len()`. Joins name two
    /// different lower slots, both no longer active and named by no other
    /// join; a slot that is no longer active is named by some join; the
    /// newest slot is active.
    pub open spec fn wf(self) -> bool {
        &&& 1 <= self.leaves
        &&& self.leaves <= self.nodes.len() <= 2 * self.leaves - 1
        &&& self.active.len() == self.nodes.len()
        &&& count_active(self.active) == 2 * self.leaves - self.nodes.len()
        &&& self.active.last()
        &&& forall|i: int| 0 <= i < self.leaves ==> (#[trigger] self.nodes[i]).spec_is_leaf()
        &&& forall|k: int|
            self.leaves <= k < self.nodes.len() ==> {
                &&& #[trigger] joins_lower(self.nodes, k)
                &&& !self.active[self.nodes[k].left as int]
                &&& !self.active[self.nodes[k].right as int]
            }
        &&& forall|i: int|
            0 <= i < self.nodes.len() && !self.active[i] ==> #[trigger] has_parent(
                self.nodes,
                self.leaves as int,
                i,
            )
        &&& forall|i: int, k1: int, k2: int|
            self.leaves <= k1 < self.nodes.len() && self.leaves <= k2 < self.nodes.len()
                && #[trigger] is_child_of(self.nodes, i, k1) && #[trigger] is_child_of(
                self.nodes,
                i,
                k2,
            ) ==> k1 == k2
        &&& forall|c: int| 0 <= c < self.chain.len() ==> #[trigger] self.chain[c] < self.nodes.len()
    }
}

/// Settling leads from `pre` to `post`: slots stay as they are, entries that
/// are no active clusters leave the top of the chain, and a chain that ran
/// empty is seeded with the highest active slot.
pub open spec fn settles(pre: ChainState, post: ChainState) -> bool {
    &&& post.leaves == pre.leaves
    &&& post.nodes == pre.nodes
    &&& post.active == pre.active
    &&& if settled_chain(pre.chain, pre.active).len() > 0 {
        post.chain == settled_chain(pre.chain, pre.active)
    } else {
        post.chain.len() == 1 && is_highest_active(pre.active, post.chain[0] as int)
    }
}

/// One round leads from the ready state `pre` to `post` under the costs
/// `costs`, and `step` reports it.
///
/// The nearest neighbour of the chain's top is found. If it is the entry
/// just below the top, the two are joined: a new active slot is appended
/// whose left child is the top and whose right child is the neighbour, both
/// children stop being active, and both leave the chain. Otherwise the
/// neighbour is put on top of the chain.
pub open spec fn advances(pre: ChainState, costs: Seq<i64>, post: ChainState, step: Step) -> bool {
    let n = pre.chain.len() as int;
    let current = pre.chain.last();
    match step {
        Step::Extended { neighbor } => {
            &&& is_nearest(pre.active, costs, current as int, neighbor as int)
            &&& !(n >= 2 && pre.chain[n - 2] == neighbor)
            &&& post.leaves == pre.leaves
            &&& post.nodes == pre.nodes
            &&& post.active == pre.active
            &&& post.chain == pre.chain.push(neighbor)
        },
        Step::Merged { left, right, node } => {
            &&& is_nearest(pre.active, costs, current as int, right as int)
            &&& n >= 2
            &&& pre.chain[n - 2] == right
            &&& left == current
            &&& node == pre.nodes.len()
            &&& post.leaves == pre.leaves
            &&& post.nodes == pre.nodes.push(Sphere::spec_fresh_branch(left as int, right as int))
            &&& post.active == pre.active.update(left as int, false).update(
                right as int,
                false,
            ).push(true)
            &&& post.chain == pre.chain.subrange(0, n - 2)
        },
    }
}

/// Giving the newest slot, a join, its centre and radius leads from `pre`
/// to `post`: nothing else changes.
pub open spec fn places(pre: ChainState, pos: [u32; 3], radius: u32, post: ChainState) -> bool {
    let newest = pre.nodes.len() - 1;
    &&& pre.nodes.len() > pre.leaves
    &&& post.leaves == pre.leaves
    &&& post.nodes == pre.nodes.update(newest, pre.nodes[newest].with_geometry(pos, radius))
    &&& post.active == pre.active
    &&& post.chain == pre.chain
}

/// Appending a slot adds it to the count when it is active.
pub proof fn lemma_count_push(active: Seq<bool>, b: bool)
    ensures
        count_active(active.push(b)) == count_active(active) + if b {
            1nat
        } else {
            0nat
        },
{
    assert(active.push(b).drop_last() =~= active);
}

/// Deactivating an active slot takes one off the count.
pub proof fn lemma_count_deactivate(active: Seq<bool>, i: int)
    requires
        0 <= i < active.len(),
        active[i],
    ensures
        count_active(active.update(i, false)) == count_active(active) - 1,
    decreases active.len(),
{
    let after = active.update(i, false);
    if i == active.len() - 1 {
        assert(after.drop_last() =~= active.drop_last());
    } else {
        lemma_count_deactivate(active.drop_last(), i);
        assert(after.drop_last() =~= active.drop_last().update(i, false));
    }
}

/// Where the count is positive, some slot is active.
pub proof fn lemma_count_positive(active: Seq<bool>) -> (j: int)
    requires
        count_active(active) > 0,
    ensures
        0 <= j < active.len(),
        active[j],
    decreases active.len(),
{
    if active.last() {
        active.len() - 1
    } else {
        lemma_count_positive(active.drop_last())
    }
}

/// With two or more active slots, every slot has an active slot other than
/// itself.
pub proof fn lemma_other_active(active: Seq<bool>, current: int) -> (j: int)
    requires
        count_active(active) >= 2,
    ensures
        is_candidate(active, current, j),
{
    if 0 <= current < active.len() && active[current] {
        lemma_count_deactivate(active, current);
        lemma_count_positive(active.update(current, false))
    } else {
        lemma_count_positive(active)
    }
}

/// With a single active slot, any two active slots are the same.
pub proof fn lemma_single_active(active: Seq<bool>, a: int, b: int)
    requires
        count_active(active) == 1,
        0 <= a < active.len(),
        0 <= b < active.len(),
        active[a],
        active[b],
    ensures
        a == b,
{
    if a != b {
        lemma_count_deactivate(active, a);
        lemma_count_deactivate(active.update(a, false), b);
    }
}


/// Where every slot is active, the count is the number of slots.
pub proof fn lemma_count_all_active(n: nat)
    ensures
        count_active(Seq::new(n, |i: int| true)) == n,
    decreases n,
{
    if n > 0 {
        lemma_count_all_active((n - 1) as nat);
        assert(Seq::new(n, |i: int| true).drop_last() =~= Seq::new((n - 1) as nat, |i: int| true));
    }
}

/// A build starts in a state that is well formed.
pub proof fn lemma_initial_wf(leaves: Seq<Sphere>)
    requires
        leaves.len() >= 1,
        forall|i: int| 0 <= i < leaves.len() ==> (#[trigger] leaves[i]).spec_is_leaf(),
    ensures
        ChainState::initial(leaves).wf(),
        ChainState::initial(leaves).done() <==> leaves.len() == 1,
{
    lemma_count_all_active(leaves.len());
}

/// Popping stops at an active top or at the empty chain, and what is left
/// is a prefix of the chain.
pub proof fn lemma_settled_chain(chain: Seq<usize>, active: Seq<bool>)
    ensures
        settled_chain(chain, active).len() <= chain.len(),
        settled_chain(chain, active) == chain.subrange(
            0,
            settled_chain(chain, active).len() as int,
        ),
        settled_chain(chain, active).len() > 0 ==> {
            &&& settled_chain(chain, active).last() < active.len()
            &&& active[settled_chain(chain, active).last() as int]
        },
    decreases chain.len(),
{
    if chain.len() == 0 {
        assert(chain.subrange(0, 0) =~= chain);
    } else if chain.last() < active.len() && active[chain.last() as int] {
        assert(chain.subrange(0, chain.len() as int) =~= chain);
    } else {
        let rest = chain.drop_last();
        lemma_settled_chain(rest, active);
        let kept = settled_chain(rest, active);
        assert(rest.subrange(0, kept.len() as int) =~= chain.subrange(0, kept.len() as int));
    }
}

/// Settling keeps a state well formed and leaves it ready for a round.
pub proof fn lemma_settles_wf(pre: ChainState, post: ChainState)
    requires
        pre.wf(),
        settles(pre, post),
    ensures
        post.wf(),
        post.ready(),
        post.done() == pre.done(),
{
    lemma_settled_chain(pre.chain, pre.active);
}

/// Settling is determined by the state it starts from.
pub proof fn lemma_settles_deterministic(pre: ChainState, post1: ChainState, post2: ChainState)
    requires
        settles(pre, post1),
        settles(pre, post2),
    ensures
        post1 == post2,
{
    if settled_chain(pre.chain, pre.active).len() == 0 {
        let a = post1.chain[0] as int;
        let b = post2.chain[0] as int;
        if a < b {
            assert(!pre.active[b]);
        }
        if b < a {
            assert(!pre.active[a]);
        }
        assert(post1.chain =~= post2.chain);
    }
}

/// A round is determined by the state it starts from and the costs: two
/// runs on the same state and costs take the same step and reach the same
/// state.
pub proof fn lemma_advances_deterministic(
    pre: ChainState,
    costs: Seq<i64>,
    post1: ChainState,
    step1: Step,
    post2: ChainState,
    step2: Step,
)
    requires
        advances(pre, costs, post1, step1),
        advances(pre, costs, post2, step2),
    ensures
        step1 == step2,
        post1 == post2,
{
    let current = pre.chain.last() as int;
    let j1 = match step1 {
        Step::Extended { neighbor } => neighbor as int,
        Step::Merged { right, .. } => right as int,
    };
    let j2 = match step2 {
        Step::Extended { neighbor } => neighbor as int,
        Step::Merged { right, .. } => right as int,
    };
    lemma_nearest_unique(pre.active, costs, current, j1, j2);
}

/// A round keeps a state well formed, and a join allocates one slot.
pub proof fn lemma_advances_wf(pre: ChainState, costs: Seq<i64>, post: ChainState, step: Step)
    requires
        pre.wf(),
        pre.ready(),
        !pre.done(),
        pre.leaves <= MAX_LEAVES,
        advances(pre, costs, post, step),
    ensures
        post.wf(),
        step is Extended ==> post.nodes.len() == pre.nodes.len(),
        step is Merged ==> post.nodes.len() == pre.nodes.len() + 1,
{
    match step {
        Step::Extended { neighbor } => {
            assert(is_candidate(pre.active, pre.chain.last() as int, neighbor as int));
            assert forall|c: int| 0 <= c < post.chain.len() implies #[trigger] post.chain[c]
                < post.nodes.len() by {
                if c < pre.chain.len() {
                    assert(post.chain[c] == pre.chain[c]);
                }
            }
            assert forall|k: int| pre.leaves <= k < post.nodes.len() implies {
                &&& #[trigger] joins_lower(post.nodes, k)
                &&& !post.active[post.nodes[k].left as int]
                &&& !post.active[post.nodes[k].right as int]
            } by {
                assert(joins_lower(pre.nodes, k));
            }
            assert forall|i: int| 0 <= i < post.nodes.len() && !post.active[i] implies #[trigger] has_parent(
                post.nodes,
                post.leaves as int,
                i,
            ) by {
                assert(has_parent(pre.nodes, pre.leaves as int, i));
            }
        },
        Step::Merged { left, right, node } => {
            let l = left as int;
            let r = right as int;
            let k = node as int;
            let once = pre.active.update(l, false);
            let twice = once.update(r, false);
            lemma_count_deactivate(pre.active, l);
            lemma_count_deactivate(once, r);
            lemma_count_push(twice, true);
            assert(post.nodes[k] == Sphere::spec_fresh_branch(l, r));
            assert(forall|i: int| 0 <= i < pre.leaves ==> post.nodes[i] == pre.nodes[i]);
            assert(post.nodes[k].left == l && post.nodes[k].right == r);
            assert(forall|i: int| 0 <= i < k ==> post.nodes[i] == pre.nodes[i]);
            assert forall|j: int| pre.leaves <= j < post.nodes.len() implies {
                &&& #[trigger] joins_lower(post.nodes, j)
                &&& !post.active[post.nodes[j].left as int]
                &&& !post.active[post.nodes[j].right as int]
            } by {
                if j < k {
                    assert(joins_lower(pre.nodes, j));
                }
            }
            assert forall|i: int| 0 <= i < post.nodes.len() && !post.active[i] implies #[trigger] has_parent(
                post.nodes,
                post.leaves as int,
                i,
            ) by {
                if i == l || i == r {
                    assert(is_child_of(post.nodes, i, k));
                } else {
                    assert(has_parent(pre.nodes, pre.leaves as int, i));
                    let p = choose|p: int|
                        pre.leaves <= p < pre.nodes.len() && is_child_of(pre.nodes, i, p);
                    assert(is_child_of(post.nodes, i, p));
                }
            }
            assert forall|i: int, k1: int, k2: int|
                post.leaves <= k1 < post.nodes.len() && post.leaves <= k2 < post.nodes.len()
                    && #[trigger] is_child_of(post.nodes, i, k1) && #[trigger] is_child_of(
                    post.nodes,
                    i,
                    k2,
                ) implies k1 == k2 by {
                if k1 < k {
                    assert(joins_lower(pre.nodes, k1));
                    assert(is_child_of(pre.nodes, i, k1));
                }
                if k2 < k {
                    assert(joins_lower(pre.nodes, k2));
                    assert(is_child_of(pre.nodes, i, k2));
                }
            }
            assert forall|c: int| 0 <= c < post.chain.len() implies #[trigger] post.chain[c]
                < post.nodes.len() by {
                assert(post.chain[c] == pre.chain[c]);
            }
        },
    }
}

/// Giving a join its centre and radius keeps a state well formed, and
/// touches neither the leaves nor any child reference.
pub proof fn lemma_places_wf(pre: ChainState, pos: [u32; 3], radius: u32, post: ChainState)
    requires
        pre.wf(),
        places(pre, pos, radius, post),
    ensures
        post.wf(),
        post.done() == pre.done(),
        post.ready() == pre.ready(),
        forall|i: int| 0 <= i < pre.leaves ==> post.nodes[i] == pre.nodes[i],
        forall|k: int|
            0 <= k < pre.nodes.len() ==> (#[trigger] post.nodes[k]).left == pre.nodes[k].left
                && post.nodes[k].right == pre.nodes[k].right && post.nodes[k].color
                == pre.nodes[k].color,
{
    assert forall|k: int| pre.leaves <= k < post.nodes.len() implies {
        &&& #[trigger] joins_lower(post.nodes, k)
        &&& !post.active[post.nodes[k].left as int]
        &&& !post.active[post.nodes[k].right as int]
    } by {
        assert(joins_lower(pre.nodes, k));
    }
    assert forall|i: int| 0 <= i < post.nodes.len() && !post.active[i] implies #[trigger] has_parent(
        post.nodes,
        post.leaves as int,
        i,
    ) by {
        assert(has_parent(pre.nodes, pre.leaves as int, i));
        let p = choose|p: int| pre.leaves <= p < pre.nodes.len() && is_child_of(pre.nodes, i, p);
        assert(is_child_of(post.nodes, i, p));
    }
    assert forall|i: int, k1: int, k2: int|
        post.leaves <= k1 < post.nodes.len() && post.leaves <= k2 < post.nodes.len()
            && #[trigger] is_child_of(post.nodes, i, k1) && #[trigger] is_child_of(
            post.nodes,
            i,
            k2,
        ) implies k1 == k2 by {
        assert(is_child_of(pre.nodes, i, k1));
        assert(is_child_of(pre.nodes, i, k2));
    }
}

/// When a single active cluster is left, the slots are a well-formed tree
/// whose root is the last slot.
pub proof fn lemma_done_is_tree(state: ChainState)
    requires
        state.wf(),
        state.done(),
    ensures
        well_formed_tree(state.nodes, state.leaves as int),
        state.active.last(),
        forall|i: int| 0 <= i < state.nodes.len() - 1 ==> !state.active[i],
{
    let last = state.nodes.len() - 1;
    assert forall|i: int| 0 <= i < state.nodes.len() - 1 implies !state.active[i] by {
        if state.active[i] {
            lemma_single_active(state.active, i, last);
        }
    }
    assert forall|k: int| state.leaves <= k < state.nodes.len() implies !#[trigger] is_child_of(
        state.nodes,
        last,
        k,
    ) by {
        assert(joins_lower(state.nodes, k));
    }
}

} // verus!
