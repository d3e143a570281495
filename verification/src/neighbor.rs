//! Choice of the nearest neighbour among the active clusters.
//!
//! Costs are ordering keys, one per slot. The nearest neighbour of a cluster
//! is the other active cluster of least cost; among several of least cost it
//! is the one of lowest index.
use vstd::prelude::*;

verus! {

/// Slot `j` is an active cluster other than `current`.
pub open spec fn is_candidate(active: Seq<bool>, current: int, j: int) -> bool {
    0 <= j < active.len() && j != current && active[j]
}

/// The pair (cost of `j`, `j`) is not above the pair (cost of `k`, `k`).
pub open spec fn not_above(costs: Seq<i64>, j: int, k: int) -> bool {
    costs[j] < costs[k] || (costs[j] == costs[k] && j <= k)
}

/// Slot `j` is the nearest neighbour of `current`: a candidate that no other
/// candidate undercuts, ties going to the lower index.
pub open spec fn is_nearest(active: Seq<bool>, costs: Seq<i64>, current: int, j: int) -> bool {
    &&& is_candidate(active, current, j)
    &&& forall|k: int| #[trigger] is_candidate(active, current, k) ==> not_above(costs, j, k)
}

/// Finds the nearest neighbour of `current` in one pass over the slots.
/// Entries of `costs` at slots that are no candidates are not read.
pub fn nearest_neighbor(active: &Vec<bool>, costs: &Vec<i64>, current: usize) -> (nearest: usize)
    requires
        costs.len() == active.len(),
        exists|k: int| is_candidate(active@, current as int, k),
    ensures
        is_nearest(active@, costs@, current as int, nearest as int),
{
    let n: usize = active.len();
    let mut best: usize = 0;
    let mut found: bool = false;
    let mut i: usize = 0;
    while i < n
        invariant
            n == active.len(),
            n == costs.len(),
            i <= n,
            found ==> is_candidate(active@, current as int, best as int) && best < i,
            found ==> forall|k: int|
                0 <= k < i && #[trigger] is_candidate(active@, current as int, k) ==> not_above(
                    costs@,
                    best as int,
                    k,
                ),
            !found ==> forall|k: int|
                0 <= k < i ==> !#[trigger] is_candidate(active@, current as int, k),
        decreases n - i,
    {
        if i != current && active[i] {
            if !found || costs[i] < costs[best] {
                best = i;
                found = true;
            }
        }
        i += 1;
    }
    best
}

/// The nearest neighbour is unique: the costs and the set of active
/// clusters determine it.
pub proof fn lemma_nearest_unique(
    active: Seq<bool>,
    costs: Seq<i64>,
    current: int,
    j1: int,
    j2: int,
)
    requires
        is_nearest(active, costs, current, j1),
        is_nearest(active, costs, current, j2),
    ensures
        j1 == j2,
{
    assert(not_above(costs, j1, j2));
    assert(not_above(costs, j2, j1));
}

} // verus!
