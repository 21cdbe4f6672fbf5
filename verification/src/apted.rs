//! Ordered tree edit distance with configurable per-operation costs.
//!
//! The distance between two trees is defined — here and in the scorer
//! built on it — by a recurrence over forests: a whole subtree may be
//! deleted (one `delete_cost` per node), a whole subtree may be inserted
//! (one `insert_cost` per node), or the two rightmost roots are matched,
//! paying `rename_cost` when their `(label, value)` pairs differ and
//! recursing into their child forests. That recurrence is the
//! definition: a single-node deletion that reparents the node's children
//! is not among its moves, so on some pairs its value exceeds the
//! minimum over unrestricted single-node edit scripts.
//!
//! Costs are fixed-point numbers in thousandths (`COST_SCALE` units per
//! 1.0), so the default rename cost of 0.3 is written 300.

use vstd::prelude::*;

use crate::tree::MAX_TREE_SIZE;
use crate::tree::TreeNode;
use crate::tree::lemma_seq_size_member;
use crate::tree::lemma_seq_size_take_le;
use crate::tree::lemma_take_unsnoc;
use crate::tree::seq_size_of;

verus! {

/// Fixed-point scale for costs: a cost of 1.0 is `COST_SCALE`.
pub const COST_SCALE: u64 = 1000;

/// Largest accepted cost (1000.0 in real terms); keeps every distance
/// below `2 * MAX_COST * MAX_TREE_SIZE`, well inside `u64`.
pub const MAX_COST: u64 = 1000000;

/// Per-operation edit costs, in `COST_SCALE` units.
#[derive(Clone, Copy, Debug)]
pub struct APTEDOptions {
    /// Cost of changing one node's `(label, value)` pair.
    pub rename_cost: u64,
    /// Cost of deleting one node.
    pub delete_cost: u64,
    /// Cost of inserting one node.
    pub insert_cost: u64,
}

impl APTEDOptions {
    /// All costs within the accepted range.
    pub open spec fn wf(self) -> bool {
        &&& self.rename_cost <= MAX_COST
        &&& self.delete_cost <= MAX_COST
        &&& self.insert_cost <= MAX_COST
    }
}

/// Two nodes are equal for renaming purposes iff both label and value match.
pub open spec fn nodes_eq(a: TreeNode, b: TreeNode) -> bool {
    a.label@ == b.label@ && a.value@ == b.value@
}

/// Cost of matching `a` against `b`: zero when equal, else the rename cost.
pub open spec fn match_cost(a: TreeNode, b: TreeNode, c: APTEDOptions) -> int {
    if nodes_eq(a, b) {
        0
    } else {
        c.rename_cost as int
    }
}

/// Minimum of three integers.
pub open spec fn min3(a: int, b: int, c: int) -> int {
    if a <= b && a <= c {
        a
    } else if b <= c {
        b
    } else {
        c
    }
}

/// Edit distance between the subtrees rooted at `a` and `b`: the value
/// of the defining recurrence (see the module doc), which the engine
/// computes exactly.
pub open spec fn tree_dist(a: TreeNode, b: TreeNode, c: APTEDOptions) -> int
    decreases a, b,
{
    forest_dist(a.children@, b.children@, c) + match_cost(a, b, c)
}

/// Edit distance between two ordered forests.
pub open spec fn forest_dist(f1: Seq<TreeNode>, f2: Seq<TreeNode>, c: APTEDOptions) -> int
    decreases f1, f2,
{
    if f1.len() == 0 && f2.len() == 0 {
        0
    } else if f2.len() == 0 {
        (c.delete_cost as int) * seq_size_of(f1)
    } else if f1.len() == 0 {
        (c.insert_cost as int) * seq_size_of(f2)
    } else {
        min3(
            forest_dist(f1.drop_last(), f2, c) + (c.delete_cost as int) * f1.last().size_of(),
            forest_dist(f1, f2.drop_last(), c) + (c.insert_cost as int) * f2.last().size_of(),
            forest_dist(f1.drop_last(), f2.drop_last(), c) + tree_dist(f1.last(), f2.last(), c),
        )
    }
}

/// Every forest distance is non-negative.
pub proof fn lemma_forest_dist_nonneg(f1: Seq<TreeNode>, f2: Seq<TreeNode>, c: APTEDOptions)
    ensures
        forest_dist(f1, f2, c) >= 0,
    decreases f1, f2,
{
    if f1.len() == 0 && f2.len() == 0 {
    } else if f2.len() == 0 {
        assert((c.delete_cost as int) * seq_size_of(f1) >= 0) by (nonlinear_arith)
            requires
                c.delete_cost >= 0,
                seq_size_of(f1) >= 0,
        ;
    } else if f1.len() == 0 {
        assert((c.insert_cost as int) * seq_size_of(f2) >= 0) by (nonlinear_arith)
            requires
                c.insert_cost >= 0,
                seq_size_of(f2) >= 0,
        ;
    } else {
        lemma_forest_dist_nonneg(f1.drop_last(), f2, c);
        lemma_forest_dist_nonneg(f1, f2.drop_last(), c);
        lemma_forest_dist_nonneg(f1.drop_last(), f2.drop_last(), c);
        lemma_tree_dist_nonneg(f1.last(), f2.last(), c);
        assert((c.delete_cost as int) * f1.last().size_of() >= 0) by (nonlinear_arith)
            requires
                c.delete_cost >= 0,
                f1.last().size_of() >= 0,
        ;
        assert((c.insert_cost as int) * f2.last().size_of() >= 0) by (nonlinear_arith)
            requires
                c.insert_cost >= 0,
                f2.last().size_of() >= 0,
        ;
    }
}

/// Every tree distance is non-negative.
pub proof fn lemma_tree_dist_nonneg(a: TreeNode, b: TreeNode, c: APTEDOptions)
    ensures
        tree_dist(a, b, c) >= 0,
    decreases a, b,
{
    lemma_forest_dist_nonneg(a.children@, b.children@, c);
}

/// Deleting all of one forest and inserting all of the other is always an
/// option, so it bounds the forest distance from above.
pub proof fn lemma_forest_dist_upper(f1: Seq<TreeNode>, f2: Seq<TreeNode>, c: APTEDOptions)
    ensures
        forest_dist(f1, f2, c) <= (c.delete_cost as int) * seq_size_of(f1) + (c.insert_cost
            as int) * seq_size_of(f2),
    decreases f1, f2,
{
    let del = c.delete_cost as int;
    let ins = c.insert_cost as int;
    if f1.len() == 0 && f2.len() == 0 {
    } else if f2.len() == 0 {
        assert(ins * seq_size_of(f2) == 0) by (nonlinear_arith)
            requires
                seq_size_of(f2) == 0,
        ;
    } else if f1.len() == 0 {
        assert(del * seq_size_of(f1) == 0) by (nonlinear_arith)
            requires
                seq_size_of(f1) == 0,
        ;
    } else {
        lemma_forest_dist_upper(f1.drop_last(), f2, c);
        assert(del * seq_size_of(f1.drop_last()) + del * f1.last().size_of() == del * (
        seq_size_of(f1.drop_last()) + f1.last().size_of())) by (nonlinear_arith);
        assert(seq_size_of(f1) == seq_size_of(f1.drop_last()) + f1.last().size_of());
        let b1 = forest_dist(f1.drop_last(), f2, c) + del * f1.last().size_of();
        assert(b1 <= del * seq_size_of(f1) + ins * seq_size_of(f2));
        assert(forest_dist(f1, f2, c) <= b1);
    }
}

/// A tree's distance to itself is zero, and so is a forest's.
pub proof fn lemma_forest_dist_self(f: Seq<TreeNode>, c: APTEDOptions)
    ensures
        forest_dist(f, f, c) == 0,
    decreases f,
{
    if f.len() > 0 {
        lemma_forest_dist_self(f.drop_last(), c);
        assert(decreases_to!(f => f.last().children@));
        lemma_forest_dist_self(f.last().children@, c);
        assert(tree_dist(f.last(), f.last(), c) == 0);
        lemma_forest_dist_nonneg(f.drop_last(), f, c);
        lemma_forest_dist_nonneg(f, f.drop_last(), c);
        assert((c.delete_cost as int) * f.last().size_of() >= 0) by (nonlinear_arith)
            requires
                c.delete_cost >= 0,
                f.last().size_of() >= 0,
        ;
        assert((c.insert_cost as int) * f.last().size_of() >= 0) by (nonlinear_arith)
            requires
                c.insert_cost >= 0,
                f.last().size_of() >= 0,
        ;
    }
}

/// The distance from a tree to itself is zero.
pub proof fn lemma_tree_dist_self(a: TreeNode, c: APTEDOptions)
    ensures
        tree_dist(a, a, c) == 0,
{
    lemma_forest_dist_self(a.children@, c);
}

/// When inserting and deleting cost the same, the distance is symmetric.
pub proof fn lemma_forest_dist_sym(f1: Seq<TreeNode>, f2: Seq<TreeNode>, c: APTEDOptions)
    requires
        c.insert_cost == c.delete_cost,
    ensures
        forest_dist(f1, f2, c) == forest_dist(f2, f1, c),
    decreases f1, f2,
{
    if f1.len() == 0 && f2.len() == 0 {
    } else if f2.len() == 0 {
    } else if f1.len() == 0 {
    } else {
        lemma_forest_dist_sym(f1.drop_last(), f2, c);
        lemma_forest_dist_sym(f1, f2.drop_last(), c);
        lemma_forest_dist_sym(f1.drop_last(), f2.drop_last(), c);
        assert(decreases_to!(f1 => f1.last().children@));
        lemma_forest_dist_sym(f1.last().children@, f2.last().children@, c);
        assert(tree_dist(f1.last(), f2.last(), c) == tree_dist(f2.last(), f1.last(), c));
    }
}

/// Symmetry of the tree edit distance under `insert_cost == delete_cost`.
pub proof fn lemma_tree_dist_sym(a: TreeNode, b: TreeNode, c: APTEDOptions)
    requires
        c.insert_cost == c.delete_cost,
    ensures
        tree_dist(a, b, c) == tree_dist(b, a, c),
{
    lemma_forest_dist_sym(a.children@, b.children@, c);
}

/// Two trees have the same shape when they have equally many children,
/// pairwise of the same shape. Only labels and values may differ.
pub open spec fn same_shape(a: TreeNode, b: TreeNode) -> bool
    decreases a,
{
    &&& a.children@.len() == b.children@.len()
    &&& forall|i: int|
        0 <= i < a.children@.len() ==> same_shape(
            #[trigger] a.children@[i],
            b.children@[i],
        )
}

/// Number of positions at which two same-shaped trees differ in
/// `(label, value)`.
pub open spec fn diff_count(a: TreeNode, b: TreeNode) -> nat
    decreases a, b,
{
    seq_diff_count(a.children@, b.children@) + if nodes_eq(a, b) {
        0nat
    } else {
        1nat
    }
}

/// Pairwise difference count over two forests (up to the shorter one).
pub open spec fn seq_diff_count(f1: Seq<TreeNode>, f2: Seq<TreeNode>) -> nat
    decreases f1, f2,
{
    if f1.len() == 0 || f2.len() == 0 {
        0
    } else {
        seq_diff_count(f1.drop_last(), f2.drop_last()) + diff_count(f1.last(), f2.last())
    }
}

/// Same shape over forests: equal length and pairwise same shape.
pub open spec fn same_shape_seq(f1: Seq<TreeNode>, f2: Seq<TreeNode>) -> bool {
    &&& f1.len() == f2.len()
    &&& forall|i: int| 0 <= i < f1.len() ==> same_shape(#[trigger] f1[i], f2[i])
}

/// Matching every node of two same-shaped forests is an available edit
/// script, so the distance is at most one rename per differing node.
pub proof fn lemma_forest_dist_relabel(f1: Seq<TreeNode>, f2: Seq<TreeNode>, c: APTEDOptions)
    requires
        same_shape_seq(f1, f2),
    ensures
        forest_dist(f1, f2, c) <= (c.rename_cost as int) * seq_diff_count(f1, f2),
    decreases f1, f2,
{
    let rn = c.rename_cost as int;
    if f1.len() == 0 {
    } else {
        assert(same_shape_seq(f1.drop_last(), f2.drop_last()));
        lemma_forest_dist_relabel(f1.drop_last(), f2.drop_last(), c);
        let u = f1.last();
        let v = f2.last();
        assert(same_shape(u, v));
        assert(same_shape_seq(u.children@, v.children@));
        assert(decreases_to!(f1 => u.children@));
        lemma_forest_dist_relabel(u.children@, v.children@, c);
        let mc = match_cost(u, v, c);
        assert(mc <= rn * (if nodes_eq(u, v) { 0nat } else { 1nat })) by (nonlinear_arith)
            requires
                mc == (if nodes_eq(u, v) { 0int } else { rn }),
                rn >= 0,
        ;
        assert(tree_dist(u, v, c) <= rn * seq_diff_count(u.children@, v.children@) + rn * (
        if nodes_eq(u, v) {
            0nat
        } else {
            1nat
        }));
        let b3 = forest_dist(f1.drop_last(), f2.drop_last(), c) + tree_dist(u, v, c);
        assert(forest_dist(f1, f2, c) <= b3);
        assert(seq_diff_count(f1, f2) == seq_diff_count(f1.drop_last(), f2.drop_last())
            + diff_count(u, v));
        assert(diff_count(u, v) == seq_diff_count(u.children@, v.children@) + (if nodes_eq(u, v) {
            0nat
        } else {
            1nat
        }));
        assert(rn * seq_diff_count(f1.drop_last(), f2.drop_last()) + rn * seq_diff_count(
            u.children@,
            v.children@,
        ) + rn * (if nodes_eq(u, v) {
            0nat
        } else {
            1nat
        }) == rn * seq_diff_count(f1, f2)) by (nonlinear_arith)
            requires
                seq_diff_count(f1, f2) == seq_diff_count(f1.drop_last(), f2.drop_last())
                    + seq_diff_count(u.children@, v.children@) + (if nodes_eq(u, v) {
                    0nat
                } else {
                    1nat
                }),
        ;
    }
}

/// Relabeling without structural change costs at most one rename per
/// changed node: for same-shaped trees the distance is bounded by
/// `rename_cost` times the number of differing nodes.
pub proof fn lemma_relabel_bound(a: TreeNode, b: TreeNode, c: APTEDOptions)
    requires
        same_shape(a, b),
    ensures
        tree_dist(a, b, c) <= (c.rename_cost as int) * diff_count(a, b),
{
    assert(same_shape_seq(a.children@, b.children@));
    lemma_forest_dist_relabel(a.children@, b.children@, c);
    let rn = c.rename_cost as int;
    assert(rn * seq_diff_count(a.children@, b.children@) + rn * (if nodes_eq(a, b) {
        0nat
    } else {
        1nat
    }) == rn * diff_count(a, b)) by (nonlinear_arith)
        requires
            diff_count(a, b) == seq_diff_count(a.children@, b.children@) + (if nodes_eq(a, b) {
                0nat
            } else {
                1nat
            }),
    ;
}

/// Both distances stay within fixed numeric ranges, so the dynamic
/// program below can compute them in `u64` without overflow.
pub proof fn lemma_forest_dist_in_range(f1: Seq<TreeNode>, f2: Seq<TreeNode>, c: APTEDOptions)
    requires
        c.wf(),
        seq_size_of(f1) <= MAX_TREE_SIZE,
        seq_size_of(f2) <= MAX_TREE_SIZE,
    ensures
        0 <= forest_dist(f1, f2, c) <= 2000000000000int,
{
    lemma_forest_dist_nonneg(f1, f2, c);
    lemma_forest_dist_upper(f1, f2, c);
    assert((c.delete_cost as int) * seq_size_of(f1) <= 1000000000000int) by (nonlinear_arith)
        requires
            0 <= c.delete_cost <= 1000000,
            0 <= seq_size_of(f1) <= 1000000,
    ;
    assert((c.insert_cost as int) * seq_size_of(f2) <= 1000000000000int) by (nonlinear_arith)
        requires
            0 <= c.insert_cost <= 1000000,
            0 <= seq_size_of(f2) <= 1000000,
    ;
}

/// Range bound for a single pair of subtrees.
pub proof fn lemma_tree_dist_in_range(a: TreeNode, b: TreeNode, c: APTEDOptions)
    requires
        c.wf(),
        a.size_of() <= MAX_TREE_SIZE,
        b.size_of() <= MAX_TREE_SIZE,
    ensures
        0 <= tree_dist(a, b, c) <= 2000001000000int,
{
    assert(seq_size_of(a.children@) < a.size_of());
    assert(seq_size_of(b.children@) < b.size_of());
    lemma_forest_dist_in_range(a.children@, b.children@, c);
}

/// Minimum of three machine integers.
fn min3_exec(x: u64, y: u64, z: u64) -> (m: u64)
    ensures
        m as int == min3(x as int, y as int, z as int),
{
    if x <= y && x <= z {
        x
    } else if y <= z {
        y
    } else {
        z
    }
}

/// True iff the two nodes agree on both label and value.
fn nodes_eq_exec(a: &TreeNode, b: &TreeNode) -> (r: bool)
    ensures
        r == nodes_eq(*a, *b),
{
    a.label == b.label && a.value == b.value
}

/// Edit distance between two well-formed trees under the given costs,
/// in `COST_SCALE` units.
pub fn compute_edit_distance(t1: &TreeNode, t2: &TreeNode, options: &APTEDOptions) -> (d: u64)
    requires
        t1.wf(),
        t2.wf(),
        options.wf(),
    ensures
        d as int == tree_dist(*t1, *t2, *options),
{
    tree_dist_exec(t1, t2, options)
}

fn tree_dist_exec(t1: &TreeNode, t2: &TreeNode, c: &APTEDOptions) -> (d: u64)
    requires
        t1.wf(),
        t2.wf(),
        c.wf(),
    ensures
        d as int == tree_dist(*t1, *t2, *c),
    decreases t1.size_of(), t2.size_of(), 0nat,
{
    let fd = forest_dist_exec(&t1.children, &t2.children, c);
    let mc: u64 = if nodes_eq_exec(t1, t2) {
        0
    } else {
        c.rename_cost
    };
    proof {
        lemma_forest_dist_in_range(t1.children@, t2.children@, *c);
    }
    fd + mc
}

fn forest_dist_exec(f1: &Vec<TreeNode>, f2: &Vec<TreeNode>, c: &APTEDOptions) -> (d: u64)
    requires
        forall|i: int| 0 <= i < f1@.len() ==> (#[trigger] f1@[i]).wf(),
        forall|i: int| 0 <= i < f2@.len() ==> (#[trigger] f2@[i]).wf(),
        seq_size_of(f1@) <= MAX_TREE_SIZE,
        seq_size_of(f2@) <= MAX_TREE_SIZE,
        c.wf(),
    ensures
        d as int == forest_dist(f1@, f2@, *c),
    decreases seq_size_of(f1@), seq_size_of(f2@), 1nat,
{
    let a = f1.len();
    let b = f2.len();
    proof {
        crate::tree::lemma_seq_size_at_least_len(f1@);
        crate::tree::lemma_seq_size_at_least_len(f2@);
    }
    let mut dp: Vec<Vec<u64>> = Vec::new();
    let mut row: Vec<u64> = Vec::new();
    row.push(0);
    let mut j: usize = 1;
    while j <= b
        invariant
            1 <= j <= b + 1,
            a == f1@.len(),
            b == f2@.len(),
            b <= MAX_TREE_SIZE,
            row@.len() == j,
            forall|k: int|
                0 <= k < j ==> (#[trigger] row@[k]) as int == forest_dist(
                    f1@.take(0),
                    f2@.take(k),
                    *c,
                ),
            forall|i: int| 0 <= i < f2@.len() ==> (#[trigger] f2@[i]).wf(),
            seq_size_of(f2@) <= MAX_TREE_SIZE,
            c.wf(),
        decreases b + 1 - j,
    {
        let ghost jj = j as int;
        proof {
            lemma_take_unsnoc(f2@, jj);
            lemma_seq_size_take_le(f2@, jj);
            lemma_seq_size_member(f2@, jj - 1);
            lemma_forest_dist_in_range(f1@.take(0), f2@.take(jj - 1), *c);
        }
        let v_size = f2[j - 1].size;
        assert(v_size == f2@[jj - 1].size_of());
        assert((c.insert_cost as int) * (v_size as int) <= 1000000000000int) by (nonlinear_arith)
            requires
                0 <= c.insert_cost <= 1000000,
                0 <= v_size <= 1000000,
        ;
        let step = c.insert_cost * v_size;
        let val = row[j - 1] + step;
        proof {
            let ins = c.insert_cost as int;
            let s_prev = seq_size_of(f2@.take(jj - 1));
            let s_cur = seq_size_of(f2@.take(jj));
            assert(forest_dist(f1@.take(0), f2@.take(jj - 1), *c) == ins * s_prev)
                by (nonlinear_arith)
                requires
                    forest_dist(f1@.take(0), f2@.take(jj - 1), *c) == (if jj - 1 == 0 {
                        0int
                    } else {
                        ins * s_prev
                    }),
                    jj - 1 == 0 ==> s_prev == 0,
            ;
            assert(ins * s_cur == ins * s_prev + ins * (f2@[jj - 1].size_of() as int))
                by (nonlinear_arith)
                requires
                    s_cur == s_prev + f2@[jj - 1].size_of(),
            ;
            assert(forest_dist(f1@.take(0), f2@.take(jj), *c) == ins * s_cur);
            assert(val as int == forest_dist(f1@.take(0), f2@.take(jj), *c));
        }
        row.push(val);
        j += 1;
    }
    dp.push(row);
    let mut i: usize = 1;
    while i <= a
        invariant
            1 <= i <= a + 1,
            a == f1@.len(),
            b == f2@.len(),
            a <= MAX_TREE_SIZE,
            b <= MAX_TREE_SIZE,
            dp@.len() == i,
            forall|r: int| 0 <= r < i ==> (#[trigger] dp@[r])@.len() == b + 1,
            forall|r: int, k: int|
                0 <= r < i && 0 <= k <= b ==> (#[trigger] dp@[r]@[k]) as int == forest_dist(
                    f1@.take(r),
                    f2@.take(k),
                    *c,
                ),
            forall|q: int| 0 <= q < f1@.len() ==> (#[trigger] f1@[q]).wf(),
            forall|q: int| 0 <= q < f2@.len() ==> (#[trigger] f2@[q]).wf(),
            seq_size_of(f1@) <= MAX_TREE_SIZE,
            seq_size_of(f2@) <= MAX_TREE_SIZE,
            c.wf(),
        decreases a + 1 - i,
    {
        let ghost ii = i as int;
        proof {
            lemma_take_unsnoc(f1@, ii);
            lemma_seq_size_take_le(f1@, ii);
            lemma_seq_size_member(f1@, ii - 1);
            lemma_forest_dist_in_range(f1@.take(ii - 1), f2@.take(0), *c);
        }
        let u_size = f1[i - 1].size;
        assert(u_size == f1@[ii - 1].size_of());
        assert((c.delete_cost as int) * (u_size as int) <= 1000000000000int) by (nonlinear_arith)
            requires
                0 <= c.delete_cost <= 1000000,
                0 <= u_size <= 1000000,
        ;
        let mut row: Vec<u64> = Vec::new();
        let first = dp[i - 1][0] + c.delete_cost * u_size;
        proof {
            let del = c.delete_cost as int;
            let s_prev = seq_size_of(f1@.take(ii - 1));
            let s_cur = seq_size_of(f1@.take(ii));
            assert(forest_dist(f1@.take(ii - 1), f2@.take(0), *c) == del * s_prev)
                by (nonlinear_arith)
                requires
                    forest_dist(f1@.take(ii - 1), f2@.take(0), *c) == (if ii - 1 == 0 {
                        0int
                    } else {
                        del * s_prev
                    }),
                    ii - 1 == 0 ==> s_prev == 0,
            ;
            assert(del * s_cur == del * s_prev + del * (f1@[ii - 1].size_of() as int))
                by (nonlinear_arith)
                requires
                    s_cur == s_prev + f1@[ii - 1].size_of(),
            ;
            assert(first as int == forest_dist(f1@.take(ii), f2@.take(0), *c));
        }
        row.push(first);
        let mut j: usize = 1;
        while j <= b
            invariant
                1 <= j <= b + 1,
                1 <= i <= a,
                ii == i as int,
                a == f1@.len(),
                b == f2@.len(),
                a <= MAX_TREE_SIZE,
                b <= MAX_TREE_SIZE,
                dp@.len() == i,
                forall|r: int| 0 <= r < i ==> (#[trigger] dp@[r])@.len() == b + 1,
                forall|r: int, k: int|
                    0 <= r < i && 0 <= k <= b ==> (#[trigger] dp@[r]@[k]) as int == forest_dist(
                        f1@.take(r),
                        f2@.take(k),
                        *c,
                    ),
                row@.len() == j,
                forall|k: int|
                    0 <= k < j ==> (#[trigger] row@[k]) as int == forest_dist(
                        f1@.take(ii),
                        f2@.take(k),
                        *c,
                    ),
                forall|q: int| 0 <= q < f1@.len() ==> (#[trigger] f1@[q]).wf(),
                forall|q: int| 0 <= q < f2@.len() ==> (#[trigger] f2@[q]).wf(),
                seq_size_of(f1@) <= MAX_TREE_SIZE,
                seq_size_of(f2@) <= MAX_TREE_SIZE,
                c.wf(),
            decreases b + 1 - j,
        {
            let ghost jj = j as int;
            proof {
                lemma_take_unsnoc(f1@, ii);
                lemma_take_unsnoc(f2@, jj);
                lemma_seq_size_take_le(f1@, ii);
                lemma_seq_size_take_le(f2@, jj);
                lemma_seq_size_member(f1@, ii - 1);
                lemma_seq_size_member(f2@, jj - 1);
                lemma_seq_size_take_le(f1@, ii - 1);
                lemma_seq_size_take_le(f2@, jj - 1);
                lemma_forest_dist_in_range(f1@.take(ii - 1), f2@.take(jj), *c);
                lemma_forest_dist_in_range(f1@.take(ii), f2@.take(jj - 1), *c);
                lemma_forest_dist_in_range(f1@.take(ii - 1), f2@.take(jj - 1), *c);
                lemma_tree_dist_in_range(f1@[ii - 1], f2@[jj - 1], *c);
            }
            let u = &f1[i - 1];
            let v = &f2[j - 1];
            let td = tree_dist_exec(u, v, c);
            assert((c.delete_cost as int) * (u.size as int) <= 1000000000000int)
                by (nonlinear_arith)
                requires
                    0 <= c.delete_cost <= 1000000,
                    0 <= u.size <= 1000000,
            ;
            assert((c.insert_cost as int) * (v.size as int) <= 1000000000000int)
                by (nonlinear_arith)
                requires
                    0 <= c.insert_cost <= 1000000,
                    0 <= v.size <= 1000000,
            ;
            let prev_row = &dp[i - 1];
            let x1 = prev_row[j] + c.delete_cost * u.size;
            let x2 = row[j - 1] + c.insert_cost * v.size;
            let x3 = prev_row[j - 1] + td;
            let val = min3_exec(x1, x2, x3);
            proof {
                assert(f1@.take(ii).len() == ii);
                assert(f2@.take(jj).len() == jj);
                assert(f1@.take(ii).last() == f1@[ii - 1]);
                assert(f2@.take(jj).last() == f2@[jj - 1]);
                assert(forest_dist(f1@.take(ii), f2@.take(jj), *c) == min3(
                    forest_dist(f1@.take(ii - 1), f2@.take(jj), *c) + (c.delete_cost as int)
                        * f1@[ii - 1].size_of(),
                    forest_dist(f1@.take(ii), f2@.take(jj - 1), *c) + (c.insert_cost as int)
                        * f2@[jj - 1].size_of(),
                    forest_dist(f1@.take(ii - 1), f2@.take(jj - 1), *c) + tree_dist(
                        f1@[ii - 1],
                        f2@[jj - 1],
                        *c,
                    ),
                ));
                assert(val as int == forest_dist(f1@.take(ii), f2@.take(jj), *c));
            }
            row.push(val);
            j += 1;
        }
        dp.push(row);
        i += 1;
    }
    let last_row = &dp[a];
    let result = last_row[b];
    proof {
        assert(f1@.take(a as int) =~= f1@);
        assert(f2@.take(b as int) =~= f2@);
    }
    result
}

} // verus!
