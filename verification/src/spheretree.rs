//! The flat binary sphere tree: what a slot stores and what makes an array
//! of slots a tree.
//!
//! A tree over `leaves` spheres is an array of `2 * leaves - 1` slots. The
//! first `leaves` slots are the leaves, the remaining slots are joins, each
//! of which names two lower slots as its children; the last slot is the
//! root. Centres and radii are carried as IEEE-754 single-precision bit
//! patterns and are never interpreted here.
use vstd::prelude::*;

verus! {

/// Child index stored in both child fields of a leaf.
pub const NO_CHILD: i32 = -1;

/// Colour of a join.
pub const JOIN_COLOR: u32 = 0;

/// Largest number of leaves for which every slot index of the tree still
/// fits the signed 32-bit child fields.
pub const MAX_LEAVES: usize = 0x4000_0000;

/// One slot of the tree: a bounding sphere with its child references.
#[derive(Clone, Copy, Debug, PartialEq, Eq)]
pub struct Sphere {
    /// Centre, as three bit patterns.
    pub pos: [u32; 3],
    /// Radius, as a bit pattern.
    pub radius: u32,
    /// Slot of the left child, or the leaf sentinel.
    pub left: i32,
    /// Slot of the right child, or the leaf sentinel.
    pub right: i32,
    /// Colour of a leaf; joins carry the placeholder colour.
    pub color: u32,
}

impl Sphere {
    /// What a leaf stores.
    pub open spec fn spec_leaf(pos: [u32; 3], radius: u32, color: u32) -> Sphere {
        Sphere { pos, radius, left: NO_CHILD, right: NO_CHILD, color }
    }

    /// What the join of slots `a_index` and `b_index` stores.
    pub open spec fn spec_branch(a_index: int, b_index: int, pos: [u32; 3], radius: u32) -> Sphere {
        Sphere { pos, radius, left: a_index as i32, right: b_index as i32, color: JOIN_COLOR }
    }

    /// Whether both child fields hold the leaf sentinel.
    pub open spec fn spec_is_leaf(&self) -> bool {
        self.left == NO_CHILD && self.right == NO_CHILD
    }

    /// The all-zero slot.
    pub open spec fn spec_placeholder() -> Sphere {
        Sphere { pos: [0u32, 0u32, 0u32], radius: 0, left: 0, right: 0, color: 0 }
    }

    /// A join of slots `a_index` and `b_index` that has not been given its
    /// centre and radius yet: it holds those of the placeholder.
    pub open spec fn spec_fresh_branch(a_index: int, b_index: int) -> Sphere {
        Sphere::spec_branch(
            a_index,
            b_index,
            Sphere::spec_placeholder().pos,
            Sphere::spec_placeholder().radius,
        )
    }

    /// The same slot with another centre and radius.
    pub open spec fn with_geometry(self, pos: [u32; 3], radius: u32) -> Sphere {
        Sphere { pos, radius, ..self }
    }

    /// A leaf with the given centre, radius and colour.
    pub fn leaf(pos: [u32; 3], radius: u32, color: u32) -> (sphere: Sphere)
        ensures
            sphere == Sphere::spec_leaf(pos, radius, color),
    {
        Sphere { pos, radius, left: NO_CHILD, right: NO_CHILD, color }
    }

    /// A join whose children are the slots `a_index` and `b_index`, in this
    /// order, with the given centre and radius.
    pub fn branch(a_index: usize, b_index: usize, pos: [u32; 3], radius: u32) -> (sphere: Sphere)
        requires
            a_index <= i32::MAX,
            b_index <= i32::MAX,
        ensures
            sphere == Sphere::spec_branch(a_index as int, b_index as int, pos, radius),
            sphere.left == a_index,
            sphere.right == b_index,
    {
        Sphere { pos, radius, left: a_index as i32, right: b_index as i32, color: JOIN_COLOR }
    }

    /// The all-zero slot: what a join holds for centre and radius until it
    /// is given its own.
    #[verifier::when_used_as_spec(spec_placeholder)]
    pub fn placeholder() -> (sphere: Sphere)
        ensures
            sphere == Sphere::spec_placeholder(),
    {
        Sphere { pos: [0u32, 0u32, 0u32], radius: 0, left: 0, right: 0, color: 0 }
    }

    /// Whether this slot is a leaf.
    #[verifier::when_used_as_spec(spec_is_leaf)]
    pub fn is_leaf(&self) -> (leaf: bool)
        ensures
            leaf == self.spec_is_leaf(),
    {
        self.left == NO_CHILD && self.right == NO_CHILD
    }
}

/// Slot `child` is one of the two children that slot `parent` names.
pub open spec fn is_child_of(nodes: Seq<Sphere>, child: int, parent: int) -> bool {
    nodes[parent].left == child || nodes[parent].right == child
}

/// Some join names slot `child` as one of its children.
pub open spec fn has_parent(nodes: Seq<Sphere>, leaves: int, child: int) -> bool {
    exists|parent: int| leaves <= parent < nodes.len() && is_child_of(nodes, child, parent)
}

/// Slot `k` names two different slots below itself.
pub open spec fn joins_lower(nodes: Seq<Sphere>, k: int) -> bool {
    &&& 0 <= nodes[k].left < k
    &&& 0 <= nodes[k].right < k
    &&& nodes[k].left != nodes[k].right
}

/// The structure of a finished tree over `leaves` leaves.
///
/// There are `2 * leaves - 1` slots. The first `leaves` are leaves. Every
/// later slot joins two different lower slots. Every slot but the last is
/// the child of exactly one join, and the last slot, the root, is the child
/// of none.
pub open spec fn well_formed_tree(nodes: Seq<Sphere>, leaves: int) -> bool {
    &&& leaves >= 1
    &&& nodes.len() == 2 * leaves - 1
    &&& forall|i: int| 0 <= i < leaves ==> (#[trigger] nodes[i]).spec_is_leaf()
    &&& forall|k: int| leaves <= k < nodes.len() ==> #[trigger] joins_lower(nodes, k)
    &&& forall|i: int| 0 <= i < nodes.len() - 1 ==> #[trigger] has_parent(nodes, leaves, i)
    &&& forall|k: int|
        leaves <= k < nodes.len() ==> !#[trigger] is_child_of(nodes, nodes.len() - 1, k)
    &&& forall|i: int, k1: int, k2: int|
        leaves <= k1 < nodes.len() && leaves <= k2 < nodes.len() && #[trigger] is_child_of(
            nodes,
            i,
            k1,
        ) && #[trigger] is_child_of(nodes, i, k2) ==> k1 == k2
}

/// The root is reached from slot `i` by going from child to parent.
pub open spec fn reaches_root(nodes: Seq<Sphere>, leaves: int, i: int) -> bool
    decreases nodes.len() - i,
{
    i == nodes.len() - 1 || exists|parent: int|
        i < parent < nodes.len() && leaves <= parent && #[trigger] is_child_of(nodes, i, parent)
            && reaches_root(nodes, leaves, parent)
}

/// In a well-formed tree the root is reached from every slot at or above
/// `from`.
proof fn lemma_reaches_root_from(nodes: Seq<Sphere>, leaves: int, from: int)
    requires
        well_formed_tree(nodes, leaves),
        0 <= from < nodes.len(),
    ensures
        forall|i: int| from <= i < nodes.len() ==> reaches_root(nodes, leaves, i),
    decreases nodes.len() - from,
{
    if from < nodes.len() - 1 {
        lemma_reaches_root_from(nodes, leaves, from + 1);
        assert(has_parent(nodes, leaves, from));
        let parent = choose|parent: int|
            leaves <= parent < nodes.len() && is_child_of(nodes, from, parent);
        assert(joins_lower(nodes, parent));
        assert(reaches_root(nodes, leaves, parent));
        assert(reaches_root(nodes, leaves, from));
    }
}

/// A well-formed tree is one tree: from every slot, and so from every
/// leaf, the way from child to parent ends at the root.
pub proof fn lemma_tree_is_connected(nodes: Seq<Sphere>, leaves: int)
    requires
        well_formed_tree(nodes, leaves),
    ensures
        forall|i: int| 0 <= i < nodes.len() ==> reaches_root(nodes, leaves, i),
{
    lemma_reaches_root_from(nodes, leaves, 0);
}

} // verus!
