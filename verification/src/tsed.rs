//! TSED: normalized tree-structure similarity in a fixed-point scale.
//!
//! The raw edit distance is normalized by the larger tree's size and
//! clamped to `[0, 1]`; two multiplicative square-root penalties lower the
//! score of very short functions and of pairs with very different sizes.
//!
//! Similarities are fixed-point numbers: 1.0 is `SIM_SCALE`.

use vstd::arithmetic::div_mod::lemma_div_by_multiple;
use vstd::arithmetic::div_mod::lemma_div_is_ordered;
use vstd::arithmetic::div_mod::lemma_div_pos_is_pos;
use vstd::arithmetic::div_mod::lemma_multiply_divide_le;
use vstd::arithmetic::div_mod::lemma_multiply_divide_lt;
use vstd::prelude::*;

use crate::apted::APTEDOptions;
use crate::apted::COST_SCALE;
use crate::apted::compute_edit_distance;
use crate::apted::lemma_tree_dist_nonneg;
use crate::apted::tree_dist;
use crate::tree::TreeNode;

verus! {

/// Fixed-point scale for similarities: 1.0 is `SIM_SCALE`.
pub const SIM_SCALE: u64 = 1000000;

/// Node-count threshold of the short-function penalty.
pub const SHORT_SIZE: u64 = 20;

/// Options of the TSED scorer.
#[derive(Clone, Copy, Debug)]
pub struct TSEDOptions {
    /// Costs handed to the edit-distance engine.
    pub apted_options: APTEDOptions,
    /// Minimum number of lines for a function to be considered.
    pub min_lines: u32,
    /// Apply penalties for short functions and unequal sizes.
    pub size_penalty: bool,
}

impl TSEDOptions {
    /// The embedded costs are within the accepted range.
    pub open spec fn wf(self) -> bool {
        self.apted_options.wf()
    }
}

impl Default for TSEDOptions {
    /// Rename is cheap (0.3) next to delete and insert (1.0 each);
    /// functions under 5 lines are ignored and size penalties apply.
    fn default() -> (r: Self)
        ensures
            r.apted_options.rename_cost == 300,
            r.apted_options.delete_cost == 1000,
            r.apted_options.insert_cost == 1000,
            r.min_lines == 5,
            r.size_penalty == true,
            r.wf(),
    {
        TSEDOptions {
            apted_options: APTEDOptions {
                rename_cost: 300,
                delete_cost: 1000,
                insert_cost: 1000,
            },
            min_lines: 5,
            size_penalty: true,
        }
    }
}

/// Largest `r` with `r * r <= x`.
pub open spec fn sqrt_floor(x: nat) -> nat
    decreases x,
{
    if x == 0 {
        0
    } else {
        let r = sqrt_floor((x - 1) as nat);
        if (r + 1) * (r + 1) <= x {
            r + 1
        } else {
            r
        }
    }
}

/// The defining property of `sqrt_floor`.
pub proof fn lemma_sqrt_floor_bounds(x: nat)
    ensures
        sqrt_floor(x) * sqrt_floor(x) <= x,
        x < (sqrt_floor(x) + 1) * (sqrt_floor(x) + 1),
    decreases x,
{
    if x == 0 {
        assert(sqrt_floor(0) == 0);
        assert(sqrt_floor(x) * sqrt_floor(x) <= x) by (nonlinear_arith)
            requires
                x == 0nat,
                sqrt_floor(x) == 0nat,
        ;
        assert(x < (sqrt_floor(x) + 1) * (sqrt_floor(x) + 1)) by (nonlinear_arith)
            requires
                x == 0nat,
                sqrt_floor(x) == 0nat,
        ;
    } else {
        lemma_sqrt_floor_bounds((x - 1) as nat);
        let r = sqrt_floor((x - 1) as nat);
        if (r + 1) * (r + 1) <= x {
            assert(sqrt_floor(x) == r + 1);
            assert(x <= (r + 1) * (r + 1));
            assert((r + 1) * (r + 1) < (r + 2) * (r + 2)) by (nonlinear_arith)
                requires
                    r >= 0,
            ;
            assert(sqrt_floor(x) * sqrt_floor(x) <= x);
            assert(x < (sqrt_floor(x) + 1) * (sqrt_floor(x) + 1));
        } else {
            assert(sqrt_floor(x) == r);
            assert(sqrt_floor(x) * sqrt_floor(x) <= x);
            assert(x < (sqrt_floor(x) + 1) * (sqrt_floor(x) + 1));
        }
    }
}

/// `sqrt_floor` is the only value in its bounding window.
pub proof fn lemma_sqrt_floor_unique(x: nat, r: nat)
    requires
        r * r <= x,
        x < (r + 1) * (r + 1),
    ensures
        r == sqrt_floor(x),
{
    let s = sqrt_floor(x);
    lemma_sqrt_floor_bounds(x);
    assert(r == s) by (nonlinear_arith)
        requires
            r * r <= x,
            x < (r + 1) * (r + 1),
            s * s <= x,
            x < (s + 1) * (s + 1),
            r >= 0,
            s >= 0,
    ;
}

/// `sqrt_floor` stays under `b` as long as its argument is under `b * b`.
pub proof fn lemma_sqrt_floor_below(x: nat, b: nat)
    requires
        x < b * b,
    ensures
        sqrt_floor(x) < b,
{
    lemma_sqrt_floor_bounds(x);
    let s = sqrt_floor(x);
    assert(s < b) by (nonlinear_arith)
        requires
            s * s <= x,
            x < b * b,
            s >= 0,
            b >= 0,
    ;
}

/// Integer square root: the largest `r` with `r * r <= x`.
pub fn isqrt(x: u64) -> (r: u64)
    ensures
        r == sqrt_floor(x as nat),
{
    let mut lo: u64 = 0;
    let mut hi: u64 = 4294967296;
    proof {
        assert((hi as int) * (hi as int) > x as int) by (nonlinear_arith)
            requires
                hi == 4294967296u64,
                x <= 0xffffffffffffffffu64,
        ;
    }
    while lo + 1 < hi
        invariant
            lo < hi <= 4294967296,
            (lo as int) * (lo as int) <= x as int,
            (x as int) < (hi as int) * (hi as int),
        decreases hi - lo,
    {
        let mid = lo + (hi - lo) / 2;
        assert(lo < mid < hi);
        assert((mid as int) * (mid as int) < 0x10000000000000000int) by (nonlinear_arith)
            requires
                0 <= mid <= 4294967295u64,
        ;
        let sq = mid * mid;
        if sq <= x {
            lo = mid;
        } else {
            hi = mid;
        }
    }
    proof {
        lemma_sqrt_floor_unique(x as nat, lo as nat);
    }
    lo
}

/// Base similarity: `1 - d / max_size`, clamped at zero, in `SIM_SCALE`
/// units. `d` is a distance in `COST_SCALE` units.
pub open spec fn base_similarity(d: int, mx: int) -> int {
    if mx <= 0 {
        SIM_SCALE as int
    } else if d >= (COST_SCALE as int) * mx {
        0
    } else {
        (SIM_SCALE as int) * ((COST_SCALE as int) * mx - d) / ((COST_SCALE as int) * mx)
    }
}

/// Short-function penalty factor `sqrt(mn / 20)` in `SIM_SCALE` units.
pub open spec fn short_factor(mn: int) -> int {
    sqrt_floor((mn * (SIM_SCALE as int) * (SIM_SCALE as int) / (SHORT_SIZE as int)) as nat) as int
}

/// Size-ratio penalty factor `sqrt(mn / mx)` in `SIM_SCALE` units.
pub open spec fn ratio_factor(mn: int, mx: int) -> int {
    sqrt_floor(((mn * (SIM_SCALE as int) / mx) * (SIM_SCALE as int)) as nat) as int
}

/// The TSED similarity of two trees of sizes `s1`, `s2` at distance `d`.
pub open spec fn tsed_similarity(d: int, s1: int, s2: int, opts: TSEDOptions) -> int {
    let mx = if s1 >= s2 {
        s1
    } else {
        s2
    };
    let mn = if s1 <= s2 {
        s1
    } else {
        s2
    };
    let s0 = base_similarity(d, mx);
    if !opts.size_penalty {
        s0
    } else {
        let sa = if mn < SHORT_SIZE {
            s0 * short_factor(mn) / (SIM_SCALE as int)
        } else {
            s0
        };
        if 2 * mn < mx {
            sa * ratio_factor(mn, mx) / (SIM_SCALE as int)
        } else {
            sa
        }
    }
}

/// The base similarity lies in `[0, SIM_SCALE]`.
pub proof fn lemma_base_similarity_range(d: int, mx: int)
    requires
        d >= 0,
    ensures
        0 <= base_similarity(d, mx) <= SIM_SCALE as int,
{
    if mx > 0 && d < (COST_SCALE as int) * mx {
        let den = (COST_SCALE as int) * mx;
        let num = (SIM_SCALE as int) * (den - d);
        assert(den == 1000 * mx);
        assert(den > 0);
        assert(num == 1000000 * (den - d));
        assert((SIM_SCALE as int) * den == 1000000 * den);
        assert(num >= 0 && num <= (SIM_SCALE as int) * den);
        lemma_div_pos_is_pos(num, den);
        lemma_div_is_ordered(num, (SIM_SCALE as int) * den, den);
        lemma_div_by_multiple(SIM_SCALE as int, den);
    }
}

/// Both penalty factors lie in `[0, SIM_SCALE]` whenever they apply.
proof fn lemma_factors_range(mn: int, mx: int)
    requires
        0 <= mn,
    ensures
        mn < SHORT_SIZE ==> 0 <= short_factor(mn) <= SIM_SCALE as int,
        0 < mx && 2 * mn < mx ==> 0 <= ratio_factor(mn, mx) <= SIM_SCALE as int,
{
    if mn < SHORT_SIZE {
        let x = mn * (SIM_SCALE as int) * (SIM_SCALE as int);
        assert(x == mn * 1000000000000int);
        assert(0 <= x && x < 20 * 1000000000000int);
        let arg = x / (SHORT_SIZE as int);
        lemma_div_pos_is_pos(x, SHORT_SIZE as int);
        lemma_multiply_divide_lt(x, 20int, 1000000000000int);
        lemma_sqrt_floor_below(arg as nat, SIM_SCALE as nat);
    }
    if 0 < mx && 2 * mn < mx {
        let xm = mn * (SIM_SCALE as int);
        assert(0 <= xm && xm <= mx * (SIM_SCALE as int));
        let q = xm / mx;
        lemma_div_pos_is_pos(xm, mx);
        lemma_multiply_divide_le(xm, mx, SIM_SCALE as int);
        let arg = q * (SIM_SCALE as int);
        assert(0 <= arg && arg < (1000001int) * (1000001int));
        lemma_sqrt_floor_below(arg as nat, (SIM_SCALE + 1) as nat);
        assert(sqrt_floor(arg as nat) <= SIM_SCALE);
    }
}

/// Every TSED similarity lies in `[0, SIM_SCALE]`: the score is a
/// probability-like value between 0.0 and 1.0.
pub proof fn lemma_tsed_similarity_range(d: int, s1: int, s2: int, opts: TSEDOptions)
    requires
        d >= 0,
        s1 >= 1,
        s2 >= 1,
    ensures
        0 <= tsed_similarity(d, s1, s2, opts) <= SIM_SCALE as int,
{
    let mx = if s1 >= s2 {
        s1
    } else {
        s2
    };
    let mn = if s1 <= s2 {
        s1
    } else {
        s2
    };
    let s0 = base_similarity(d, mx);
    lemma_base_similarity_range(d, mx);
    lemma_factors_range(mn, mx);
    if opts.size_penalty {
        let sa = if mn < SHORT_SIZE {
            s0 * short_factor(mn) / (SIM_SCALE as int)
        } else {
            s0
        };
        if mn < SHORT_SIZE {
            lemma_scaled_product_range(s0, short_factor(mn));
        }
        if 2 * mn < mx {
            lemma_scaled_product_range(sa, ratio_factor(mn, mx));
        }
    }
}

/// Multiplying a value in `[0, SIM_SCALE]` by a factor in `[0, SIM_SCALE]`
/// and rescaling keeps it in `[0, SIM_SCALE]`.
proof fn lemma_scaled_product_range(s: int, f: int)
    requires
        0 <= s <= SIM_SCALE as int,
        0 <= f <= SIM_SCALE as int,
    ensures
        0 <= s * f / (SIM_SCALE as int) <= s,
{
    assert(0 <= s * f <= s * (SIM_SCALE as int)) by (nonlinear_arith)
        requires
            0 <= s,
            0 <= f <= 1000000int,
    ;
    lemma_div_pos_is_pos(s * f, SIM_SCALE as int);
    lemma_div_is_ordered(s * f, s * (SIM_SCALE as int), SIM_SCALE as int);
    lemma_div_by_multiple(s, SIM_SCALE as int);
}

/// A tree compared with itself scores exactly 1.0 whenever the size
/// penalty is off or the tree has at least `SHORT_SIZE` nodes.
pub proof fn lemma_tsed_self(t: TreeNode, opts: TSEDOptions)
    requires
        !opts.size_penalty || t.size_of() >= SHORT_SIZE,
    ensures
        tsed_similarity(
            tree_dist(t, t, opts.apted_options),
            t.size_of() as int,
            t.size_of() as int,
            opts,
        ) == SIM_SCALE as int,
{
    crate::apted::lemma_tree_dist_self(t, opts.apted_options);
    let m = t.size_of() as int;
    let den = (COST_SCALE as int) * m;
    assert(den == 1000 * m);
    assert(den >= m);
    lemma_div_by_multiple(SIM_SCALE as int, den);
    assert(base_similarity(0, m) == SIM_SCALE as int);
}

/// TSED similarity of two well-formed trees, in `SIM_SCALE` units
/// (1000000 means identical structure).
pub fn calculate_tsed(tree1: &TreeNode, tree2: &TreeNode, options: &TSEDOptions) -> (s: u64)
    requires
        tree1.wf(),
        tree2.wf(),
        options.wf(),
    ensures
        s as int == tsed_similarity(
            tree_dist(*tree1, *tree2, options.apted_options),
            tree1.size_of() as int,
            tree2.size_of() as int,
            *options,
        ),
        s <= SIM_SCALE,
{
    let ghost d_spec = tree_dist(*tree1, *tree2, options.apted_options);
    let d = compute_edit_distance(tree1, tree2, &options.apted_options);
    let s1 = tree1.get_subtree_size();
    let s2 = tree2.get_subtree_size();
    let mx = if s1 >= s2 {
        s1
    } else {
        s2
    };
    let mn = if s1 <= s2 {
        s1
    } else {
        s2
    };
    proof {
        lemma_tree_dist_nonneg(*tree1, *tree2, options.apted_options);
        lemma_base_similarity_range(d as int, mx as int);
        lemma_factors_range(mn as int, mx as int);
    }
    let den = COST_SCALE * mx;
    let s0: u64 = if d >= den {
        0
    } else {
        SIM_SCALE * (den - d) / den
    };
    assert(s0 as int == base_similarity(d_spec, mx as int));
    let mut sim = s0;
    if options.size_penalty {
        if mn < SHORT_SIZE {
            let arg = mn * SIM_SCALE * SIM_SCALE / SHORT_SIZE;
            let f = isqrt(arg);
            proof {
                lemma_scaled_product_range(sim as int, f as int);
            }
            sim = sim * f / SIM_SCALE;
        }
        if 2 * mn < mx {
            let q = mn * SIM_SCALE / mx;
            proof {
                lemma_div_pos_is_pos(mn as int * SIM_SCALE as int, mx as int);
                lemma_div_is_ordered(
                    mn as int * SIM_SCALE as int,
                    mx as int * SIM_SCALE as int,
                    mx as int,
                );
                assert(mn as int * SIM_SCALE as int <= mx as int * SIM_SCALE as int)
                    by (nonlinear_arith)
                    requires
                        mn <= mx,
                        SIM_SCALE == 1000000u64,
                ;
                assert(mx as int * SIM_SCALE as int / mx as int == SIM_SCALE as int) by {
                    vstd::arithmetic::div_mod::lemma_div_multiples_vanish(
                        SIM_SCALE as int,
                        mx as int,
                    );
                }
            }
            let f = isqrt(q * SIM_SCALE);
            proof {
                lemma_scaled_product_range(sim as int, f as int);
            }
            sim = sim * f / SIM_SCALE;
        }
    }
    sim
}

/// For any two trees and any options, the TSED similarity lies between
/// 0 and 1 (that is, between 0 and `SIM_SCALE` in fixed-point units).
pub proof fn lemma_tsed_range_for_trees(t1: TreeNode, t2: TreeNode, opts: TSEDOptions)
    ensures
        0 <= tsed_similarity(
            tree_dist(t1, t2, opts.apted_options),
            t1.size_of() as int,
            t2.size_of() as int,
            opts,
        ) <= SIM_SCALE as int,
{
    lemma_tree_dist_nonneg(t1, t2, opts.apted_options);
    lemma_tsed_similarity_range(
        tree_dist(t1, t2, opts.apted_options),
        t1.size_of() as int,
        t2.size_of() as int,
        opts,
    );
}

/// `s` is the score of the conversions of the two raw trees.
pub open spec fn scored_from(
    raw1: crate::raw::RawNode,
    l1: crate::raw::Language,
    raw2: crate::raw::RawNode,
    l2: crate::raw::Language,
    opts: TSEDOptions,
    s: int,
) -> bool {
    exists|t1: TreeNode, t2: TreeNode|
        #![trigger crate::raw::converts(raw1, t1, l1), crate::raw::converts(raw2, t2, l2)]
        {
            &&& crate::raw::converts(raw1, t1, l1)
            &&& crate::raw::converts(raw2, t2, l2)
            &&& t1.wf()
            &&& t2.wf()
            &&& s == tsed_similarity(
                tree_dist(t1, t2, opts.apted_options),
                t1.size_of() as int,
                t2.size_of() as int,
                opts,
            )
        }
}

/// The parse of one named file went through: a supported extension, a
/// parseable source, a tree the converter accepts.
pub open spec fn code_parses(filename: Seq<char>, code: Seq<char>) -> bool {
    &&& crate::parse::lang_of_filename(filename) is Some
    &&& crate::parse::cst_of(crate::parse::lang_of_filename(filename)->Some_0, code) is Some
    &&& crate::raw::raw_ok(
        crate::parse::cst_of(crate::parse::lang_of_filename(filename)->Some_0, code)->Some_0,
    )
}

/// Parse two code strings — the language picked by each file name — and
/// score their whole trees.
pub fn calculate_tsed_from_code(
    code1: &str,
    code2: &str,
    filename1: &str,
    filename2: &str,
    options: &TSEDOptions,
) -> (r: Result<u64, String>)
    requires
        options.wf(),
    ensures
        match r {
            Ok(s) => {
                &&& code_parses(filename1@, code1@)
                &&& code_parses(filename2@, code2@)
                &&& scored_from(
                    crate::parse::cst_of(
                        crate::parse::lang_of_filename(filename1@)->Some_0,
                        code1@,
                    )->Some_0,
                    crate::parse::lang_of_filename(filename1@)->Some_0,
                    crate::parse::cst_of(
                        crate::parse::lang_of_filename(filename2@)->Some_0,
                        code2@,
                    )->Some_0,
                    crate::parse::lang_of_filename(filename2@)->Some_0,
                    *options,
                    s as int,
                )
                &&& s <= SIM_SCALE
            },
            Err(_) => !code_parses(filename1@, code1@) || !code_parses(filename2@, code2@),
        },
{
    let l1 = match crate::parse::detect_language(filename1) {
        Some(l) => l,
        None => {
            return Err("unsupported file extension".to_owned());
        },
    };
    let l2 = match crate::parse::detect_language(filename2) {
        Some(l) => l,
        None => {
            return Err("unsupported file extension".to_owned());
        },
    };
    let t1 = match crate::parse::parse_to_tree(l1, code1) {
        Ok(t) => t,
        Err(e) => {
            return Err(e);
        },
    };
    let t2 = match crate::parse::parse_to_tree(l2, code2) {
        Ok(t) => t,
        Err(e) => {
            return Err(e);
        },
    };
    let s = calculate_tsed(&t1, &t2, options);
    proof {
        let raw1 = crate::parse::cst_of(l1, code1@)->Some_0;
        let raw2 = crate::parse::cst_of(l2, code2@)->Some_0;
        assert(crate::raw::converts(raw1, t1, l1) && crate::raw::converts(raw2, t2, l2) && t1.wf()
            && t2.wf() && s as int == tsed_similarity(
            tree_dist(t1, t2, options.apted_options),
            t1.size_of() as int,
            t2.size_of() as int,
            *options,
        ));
        assert(scored_from(raw1, l1, raw2, l2, *options, s as int));
    }
    Ok(s)
}

} // verus!
