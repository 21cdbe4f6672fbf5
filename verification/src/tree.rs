//! Ordered labeled trees with cached subtree sizes.
//!
//! A `TreeNode` carries a grammar-production label, an optional token value
//! (non-empty only for leaf-like tokens such as identifiers and literals),
//! a pre-order id unique within its tree, and an ordered list of children.

use vstd::prelude::*;

verus! {

/// Largest subtree size the engine accepts; keeps all edit-distance and
/// similarity arithmetic inside `u64`.
pub const MAX_TREE_SIZE: u64 = 1000000;

/// An ordered labeled tree node.
pub struct TreeNode {
    /// Syntactic kind, e.g. the grammar production name.
    pub label: String,
    /// Token text for leaf-like tokens (identifiers, literals); empty otherwise.
    pub value: String,
    /// Pre-order id, unique and contiguous within one tree.
    pub id: u64,
    /// Cached node count of the subtree rooted here.
    pub size: u64,
    /// Ordered children; sibling order is part of structural identity.
    pub children: Vec<TreeNode>,
}

impl TreeNode {
    /// Mathematical node count of the subtree rooted at `self`.
    pub open spec fn size_of(self) -> nat
        decreases self,
    {
        1 + seq_size_of(self.children@)
    }

    /// Well-formed: the cached size matches the mathematical size, the
    /// subtree is not larger than `MAX_TREE_SIZE`, and every child is
    /// well-formed.
    pub open spec fn wf(self) -> bool
        decreases self,
    {
        &&& self.size == self.size_of()
        &&& self.size_of() <= MAX_TREE_SIZE
        &&& forall|i: int|
            0 <= i < self.children@.len() ==> (#[trigger] self.children@[i]).wf()
    }

    /// Pre-order ids: the root has id `base`, and each subtree's ids follow
    /// its left siblings' ids contiguously.
    pub open spec fn ids_from(self, base: nat) -> bool
        decreases self,
    {
        &&& self.id == base
        &&& seq_ids_from(self.children@, base + 1)
    }

    /// Cached subtree size, O(1).
    pub fn get_subtree_size(&self) -> (n: u64)
        requires
            self.wf(),
        ensures
            n == self.size_of(),
    {
        self.size
    }
}

/// Total node count of a forest (a sequence of trees).
pub open spec fn seq_size_of(s: Seq<TreeNode>) -> nat
    decreases s,
{
    if s.len() == 0 {
        0
    } else {
        seq_size_of(s.drop_last()) + s.last().size_of()
    }
}

/// Pre-order ids of a forest starting at `base`.
pub open spec fn seq_ids_from(s: Seq<TreeNode>, base: nat) -> bool
    decreases s,
{
    if s.len() == 0 {
        true
    } else {
        &&& s[0].ids_from(base)
        &&& seq_ids_from(s.drop_first(), base + s[0].size_of())
    }
}

/// Every tree in a forest counts toward the forest's size.
pub proof fn lemma_seq_size_member(s: Seq<TreeNode>, i: int)
    requires
        0 <= i < s.len(),
    ensures
        s[i].size_of() <= seq_size_of(s),
    decreases s.len(),
{
    if i == s.len() - 1 {
        assert(s.last() == s[i]);
    } else {
        lemma_seq_size_member(s.drop_last(), i);
        assert(s.drop_last()[i] == s[i]);
    }
}

/// Splitting off the last tree of a prefix.
pub proof fn lemma_take_unsnoc(s: Seq<TreeNode>, i: int)
    requires
        1 <= i <= s.len(),
    ensures
        s.take(i).drop_last() == s.take(i - 1),
        s.take(i).last() == s[i - 1],
        seq_size_of(s.take(i)) == seq_size_of(s.take(i - 1)) + s[i - 1].size_of(),
{
    assert(s.take(i).drop_last() =~= s.take(i - 1));
}

/// A prefix of a forest is no larger than the forest.
pub proof fn lemma_seq_size_take_le(s: Seq<TreeNode>, i: int)
    requires
        0 <= i <= s.len(),
    ensures
        seq_size_of(s.take(i)) <= seq_size_of(s),
    decreases s.len() - i,
{
    if i == s.len() {
        assert(s.take(i) =~= s);
    } else {
        lemma_take_unsnoc(s, i + 1);
        lemma_seq_size_take_le(s, i + 1);
    }
}

/// A forest is at least as large as its tree count.
pub proof fn lemma_seq_size_at_least_len(s: Seq<TreeNode>)
    ensures
        seq_size_of(s) >= s.len(),
    decreases s.len(),
{
    if s.len() > 0 {
        lemma_seq_size_at_least_len(s.drop_last());
        assert(s.last().size_of() >= 1);
    }
}

} // verus!
