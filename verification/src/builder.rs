//! The executable hierarchy builder.
//!
//! The builder owns the slots, the activity flags and the chain. In each
//! round [`HierarchyBuilder::current`] settles the chain and names the
//! cluster whose neighbours are to be measured, and
//! [`HierarchyBuilder::advance`] takes the measured costs and extends the
//! chain or joins its top two entries. After a join,
//! [`HierarchyBuilder::place`] gives the new slot its centre and radius.
//! Once [`HierarchyBuilder::is_done`] holds, [`HierarchyBuilder::finish`]
//! hands out the tree.
//!
//! Measuring costs and computing the sphere of a join is arithmetic on
//! single-precision numbers and is the caller's part; the builder decides
//! which clusters are compared and joined, and keeps the slots.
use crate::chain::{
    advances, is_highest_active, lemma_advances_wf, lemma_done_is_tree, lemma_initial_wf,
    lemma_other_active, lemma_places_wf, places, settled_chain, settles, ChainState, Step,
};
use crate::neighbor::nearest_neighbor;
use crate::spheretree::{well_formed_tree, Sphere, MAX_LEAVES};
use vstd::prelude::*;

verus! {

/// Builds the flat sphere tree over a fixed number of leaves.
pub struct HierarchyBuilder {
    leaves: usize,
    nodes: Vec<Sphere>,
    active: Vec<bool>,
    chain: Vec<usize>,
}

impl View for HierarchyBuilder {
    type V = ChainState;

    closed spec fn view(&self) -> ChainState {
        ChainState {
            leaves: self.leaves as nat,
            nodes: self.nodes@,
            active: self.active@,
            chain: self.chain@,
        }
    }
}

/// The highest active slot.
fn highest_active(active: &Vec<bool>) -> (top: usize)
    requires
        exists|i: int| 0 <= i < active.len() && active[i],
    ensures
        is_highest_active(active@, top as int),
{
    let mut i: usize = active.len();
    while i > 0
        invariant
            i <= active.len(),
            forall|j: int| i <= j < active.len() ==> !active[j],
            exists|k: int| 0 <= k < active.len() && active[k],
        decreases i,
    {
        i -= 1;
        if active[i] {
            return i;
        }
    }
    proof {
        let k = choose|k: int| 0 <= k < active.len() && active[k];
        assert(!active[k]);
    }
    0
}

impl HierarchyBuilder {
    /// The state is one that a build passes through, and its slot indices
    /// fit the child fields.
    pub open spec fn wf(&self) -> bool {
        &&& self@.wf()
        &&& self@.leaves <= MAX_LEAVES
    }

    /// Starts a build over the given leaves: every leaf is an active
    /// cluster of its own and the chain is empty.
    pub fn new(leaves: Vec<Sphere>) -> (builder: Self)
        requires
            1 <= leaves.len() <= MAX_LEAVES,
            forall|i: int| 0 <= i < leaves.len() ==> (#[trigger] leaves[i]).spec_is_leaf(),
        ensures
            builder.wf(),
            builder@ == ChainState::initial(leaves@),
    {
        let count: usize = leaves.len();
        let mut active: Vec<bool> = Vec::new();
        let mut i: usize = 0;
        while i < count
            invariant
                i <= count,
                active@ =~= Seq::new(i as nat, |k: int| true),
            decreases count - i,
        {
            active.push(true);
            i += 1;
        }
        proof {
            lemma_initial_wf(leaves@);
        }
        HierarchyBuilder { leaves: count, nodes: leaves, active, chain: Vec::new() }
    }

    /// Number of leaves the build started from.
    pub fn leaves(&self) -> (n: usize)
        ensures
            n == self@.leaves,
    {
        self.leaves
    }

    /// Number of slots allocated so far: the leaves and the joins made.
    pub fn len(&self) -> (n: usize)
        ensures
            n == self@.nodes.len(),
    {
        self.nodes.len()
    }

    /// What slot `index` stores.
    pub fn sphere(&self, index: usize) -> (sphere: Sphere)
        requires
            index < self@.nodes.len(),
        ensures
            sphere == self@.nodes[index as int],
    {
        self.nodes[index]
    }

    /// Whether slot `index` exists and is an active cluster.
    pub fn is_active(&self, index: usize) -> (active: bool)
        ensures
            active == (index < self@.active.len() && self@.active[index as int]),
    {
        index < self.active.len() && self.active[index]
    }

    /// Whether a single active cluster is left, so that the tree is
    /// complete.
    pub fn is_done(&self) -> (done: bool)
        requires
            self.wf(),
        ensures
            done == self@.done(),
    {
        self.nodes.len() + 1 == 2 * self.leaves
    }

    /// Settles the chain and returns its top, the cluster whose neighbours
    /// the next round compares.
    pub fn current(&mut self) -> (top: usize)
        requires
            old(self).wf(),
        ensures
            final(self).wf(),
            settles(old(self)@, final(self)@),
            final(self)@.ready(),
            top == final(self)@.chain.last(),
    {
        loop
            invariant
                self.wf(),
                self@.leaves == old(self)@.leaves,
                self@.nodes == old(self)@.nodes,
                self@.active == old(self)@.active,
                settled_chain(self@.chain, self@.active) == settled_chain(
                    old(self)@.chain,
                    old(self)@.active,
                ),
            ensures
                self.wf(),
                self@.leaves == old(self)@.leaves,
                self@.nodes == old(self)@.nodes,
                self@.active == old(self)@.active,
                self@.chain.len() == 0,
                settled_chain(old(self)@.chain, old(self)@.active).len() == 0,
            decreases self.chain.len(),
        {
            let n = self.chain.len();
            if n == 0 {
                break ;
            }
            let top = self.chain[n - 1];
            if self.active[top] {
                return top;
            }
            self.chain.pop();
        }
        let seed = highest_active(&self.active);
        self.chain.push(seed);
        seed
    }

    /// Runs one round on the settled chain.
    ///
    /// `costs` holds, for every slot, the ordering key of the cost of
    /// joining it with the chain's top; entries at slots that are not active
    /// or are the top itself are not read.
    pub fn advance(&mut self, costs: &Vec<i64>) -> (step: Step)
        requires
            old(self).wf(),
            old(self)@.ready(),
            !old(self)@.done(),
            costs.len() == old(self)@.nodes.len(),
        ensures
            final(self).wf(),
            advances(old(self)@, costs@, final(self)@, step),
    {
        let n = self.chain.len();
        let current = self.chain[n - 1];
        proof {
            let other = lemma_other_active(self.active@, current as int);
        }
        let neighbor = nearest_neighbor(&self.active, costs, current);
        let step = if n >= 2 && neighbor == self.chain[n - 2] {
            let node = self.nodes.len();
            let blank = Sphere::placeholder();
            self.nodes.push(Sphere::branch(current, neighbor, blank.pos, blank.radius));
            self.active[current] = false;
            self.active[neighbor] = false;
            self.active.push(true);
            self.chain.pop();
            self.chain.pop();
            assert(self.chain@ =~= old(self)@.chain.subrange(0, n - 2));
            Step::Merged { left: current, right: neighbor, node }
        } else {
            self.chain.push(neighbor);
            Step::Extended { neighbor }
        };
        proof {
            lemma_advances_wf(old(self)@, costs@, self@, step);
        }
        step
    }

    /// Gives the newest slot, which a join has just allocated, its centre
    /// and radius.
    pub fn place(&mut self, pos: [u32; 3], radius: u32)
        requires
            old(self).wf(),
            old(self)@.nodes.len() > old(self)@.leaves,
        ensures
            final(self).wf(),
            places(old(self)@, pos, radius, final(self)@),
    {
        let newest = self.nodes.len() - 1;
        let joined = self.nodes[newest];
        self.nodes[newest] = Sphere {
            pos,
            radius,
            left: joined.left,
            right: joined.right,
            color: joined.color,
        };
        proof {
            lemma_places_wf(old(self)@, pos, radius, self@);
        }
    }

    /// Hands out the finished tree: every slot, leaves first, joins in the
    /// order they were made, the root last.
    pub fn finish(self) -> (tree: Vec<Sphere>)
        requires
            self.wf(),
            self@.done(),
        ensures
            tree@ == self@.nodes,
            well_formed_tree(tree@, self@.leaves as int),
    {
        proof {
            lemma_done_is_tree(self@);
        }
        self.nodes
    }
}

} // verus!
