//! The pair-comparison driver: filter extracted functions, score every
//! candidate pair, keep those at or above the threshold, and rank them.
//!
//! Results are ordered by similarity, descending, with ties broken by
//! file path, then start line, of the first function, then of the second:
//! the order is deterministic whatever order the pairs were scored in.

use vstd::prelude::*;

use crate::apted::tree_dist;
use crate::extract::GenericFunctionDef;
use crate::tsed::SIM_SCALE;
use crate::tsed::TSEDOptions;
use crate::tsed::calculate_tsed;
use crate::tsed::tsed_similarity;

verus! {

/// One function record together with the file it came from.
pub struct FileRec {
    /// Path of the source file.
    pub file: String,
    /// The extracted function.
    pub rec: GenericFunctionDef,
}

/// One reported pair of similar functions.
pub struct SimilarityResult {
    /// File of the first function.
    pub file1: String,
    /// Name of the first function.
    pub name1: String,
    /// 1-based first line of the first function.
    pub start_line1: u64,
    /// 1-based last line of the first function.
    pub end_line1: u64,
    /// Class of the first function, when it is a method.
    pub class_name1: Option<String>,
    /// File of the second function.
    pub file2: String,
    /// Name of the second function.
    pub name2: String,
    /// 1-based first line of the second function.
    pub start_line2: u64,
    /// 1-based last line of the second function.
    pub end_line2: u64,
    /// Class of the second function, when it is a method.
    pub class_name2: Option<String>,
    /// Similarity in `SIM_SCALE` units.
    pub similarity: u64,
    /// Raw edit distance in `COST_SCALE` units, for diagnostics.
    pub distance: u64,
    /// Node count of the first function's tree.
    pub size1: u64,
    /// Node count of the second function's tree.
    pub size2: u64,
}

/// Mathematical model of one result.
pub struct ResultModel {
    /// File of the first function.
    pub file1: Seq<char>,
    /// Name of the first function.
    pub name1: Seq<char>,
    /// Line span of the first function.
    pub start_line1: int,
    /// Last line of the first function.
    pub end_line1: int,
    /// Class of the first function.
    pub class_name1: Option<Seq<char>>,
    /// Whether the first function is test-flagged.
    pub is_test1: bool,
    /// File of the second function.
    pub file2: Seq<char>,
    /// Name of the second function.
    pub name2: Seq<char>,
    /// Line span of the second function.
    pub start_line2: int,
    /// Last line of the second function.
    pub end_line2: int,
    /// Class of the second function.
    pub class_name2: Option<Seq<char>>,
    /// Whether the second function is test-flagged.
    pub is_test2: bool,
    /// Similarity in `SIM_SCALE` units.
    pub similarity: int,
    /// Raw distance in `COST_SCALE` units.
    pub distance: int,
    /// Node count of the first tree.
    pub size1: int,
    /// Node count of the second tree.
    pub size2: int,
}

/// View of an option of a string.
pub open spec fn opt_view(o: Option<String>) -> Option<Seq<char>> {
    match o {
        Some(s) => Some(s@),
        None => None,
    }
}

/// The similarity the driver assigns to an ordered pair of records.
pub open spec fn pair_similarity(f: GenericFunctionDef, g: GenericFunctionDef, opts: TSEDOptions)
    -> int {
    tsed_similarity(
        tree_dist(f.tree, g.tree, opts.apted_options),
        f.tree.size_of() as int,
        g.tree.size_of() as int,
        opts,
    )
}

/// The result model the driver reports for a pair.
pub open spec fn result_of(a: FileRec, b: FileRec, opts: TSEDOptions) -> ResultModel {
    ResultModel {
        file1: a.file@,
        name1: a.rec.name@,
        start_line1: a.rec.start_line as int,
        end_line1: a.rec.end_line as int,
        class_name1: opt_view(a.rec.class_name),
        is_test1: a.rec.is_test,
        file2: b.file@,
        name2: b.rec.name@,
        start_line2: b.rec.start_line as int,
        end_line2: b.rec.end_line as int,
        class_name2: opt_view(b.rec.class_name),
        is_test2: b.rec.is_test,
        similarity: pair_similarity(a.rec, b.rec, opts),
        distance: tree_dist(a.rec.tree, b.rec.tree, opts.apted_options),
        size1: a.rec.tree.size_of() as int,
        size2: b.rec.tree.size_of() as int,
    }
}

/// View of one reported result.
pub open spec fn res_view(r: SimilarityResult) -> ResultModel {
    ResultModel {
        file1: r.file1@,
        name1: r.name1@,
        start_line1: r.start_line1 as int,
        end_line1: r.end_line1 as int,
        class_name1: opt_view(r.class_name1),
        is_test1: false,
        file2: r.file2@,
        name2: r.name2@,
        start_line2: r.start_line2 as int,
        end_line2: r.end_line2 as int,
        class_name2: opt_view(r.class_name2),
        is_test2: false,
        similarity: r.similarity as int,
        distance: r.distance as int,
        size1: r.size1 as int,
        size2: r.size2 as int,
    }
}

/// The reported result faithfully carries the model, which additionally
/// remembers whether either function was test-flagged.
pub open spec fn result_carries(r: SimilarityResult, m: ResultModel) -> bool {
    res_view(r) == ResultModel { is_test1: false, is_test2: false, ..m }
}

/// A record passes the driver's filters: long enough, and not a test
/// when tests are skipped.
pub open spec fn eligible(r: GenericFunctionDef, opts: TSEDOptions, skip_test: bool) -> bool {
    &&& r.end_line - r.start_line + 1 >= opts.min_lines
    &&& !(skip_test && r.is_test)
}

/// Executable filter.
pub fn eligible_exec(r: &GenericFunctionDef, opts: &TSEDOptions, skip_test: bool) -> (b: bool)
    ensures
        b == eligible(*r, *opts, skip_test),
{
    let len_ok: bool;
    if r.end_line >= r.start_line {
        let count = r.end_line - r.start_line;
        len_ok = if opts.min_lines == 0 {
            true
        } else {
            count >= (opts.min_lines - 1) as u64
        };
    } else {
        len_ok = opts.min_lines == 0 && r.start_line - r.end_line == 1;
    }
    len_ok && !(skip_test && r.is_test)
}

/// The one-element (or empty) contribution of the pair `(i, j)`.
pub open spec fn pair_part(
    frs: Seq<FileRec>,
    opts: TSEDOptions,
    skip_test: bool,
    tau: int,
    i: int,
    j: int,
) -> Seq<ResultModel> {
    if eligible(frs[i].rec, opts, skip_test) && eligible(frs[j].rec, opts, skip_test)
        && pair_similarity(frs[i].rec, frs[j].rec, opts) >= tau {
        seq![result_of(frs[i], frs[j], opts)]
    } else {
        Seq::empty()
    }
}

/// Contributions of the pairs `(i, i+1) .. (i, j-1)`, in order.
pub open spec fn row_upto(
    frs: Seq<FileRec>,
    opts: TSEDOptions,
    skip_test: bool,
    tau: int,
    i: int,
    j: int,
) -> Seq<ResultModel>
    decreases j - i,
{
    if j <= i + 1 {
        Seq::empty()
    } else {
        row_upto(frs, opts, skip_test, tau, i, j - 1) + pair_part(frs, opts, skip_test, tau, i, j - 1)
    }
}

/// Contributions of all pairs whose first index is below `i`.
pub open spec fn cand_upto(
    frs: Seq<FileRec>,
    opts: TSEDOptions,
    skip_test: bool,
    tau: int,
    i: int,
) -> Seq<ResultModel>
    decreases i,
{
    if i <= 0 {
        Seq::empty()
    } else {
        cand_upto(frs, opts, skip_test, tau, i - 1) + row_upto(
            frs,
            opts,
            skip_test,
            tau,
            i - 1,
            frs.len() as int,
        )
    }
}

/// Every candidate pair `(i, j)` with `i < j`, both records eligible and
/// similarity at least `tau`, contributes exactly one result, in index
/// order.
pub open spec fn candidate_results(
    frs: Seq<FileRec>,
    opts: TSEDOptions,
    skip_test: bool,
    tau: int,
) -> Seq<ResultModel> {
    cand_upto(frs, opts, skip_test, tau, frs.len() as int)
}

/// Every element of a row comes from an eligible, above-threshold pair
/// in that row.
proof fn lemma_row_sound(
    frs: Seq<FileRec>,
    opts: TSEDOptions,
    skip_test: bool,
    tau: int,
    i: int,
    j: int,
    k: int,
)
    requires
        0 <= k < row_upto(frs, opts, skip_test, tau, i, j).len(),
        i + 1 <= j,
    ensures
        exists|jj: int|
            i < jj < j && eligible(frs[i].rec, opts, skip_test) && eligible(
                #[trigger] frs[jj].rec,
                opts,
                skip_test,
            ) && pair_similarity(frs[i].rec, frs[jj].rec, opts) >= tau && row_upto(
                frs,
                opts,
                skip_test,
                tau,
                i,
                j,
            )[k] == result_of(frs[i], frs[jj], opts),
    decreases j - i,
{
    let prev = row_upto(frs, opts, skip_test, tau, i, j - 1);
    if k < prev.len() {
        lemma_row_sound(frs, opts, skip_test, tau, i, j - 1, k);
        let jj = choose|jj: int|
            i < jj < j - 1 && eligible(frs[i].rec, opts, skip_test) && eligible(
                #[trigger] frs[jj].rec,
                opts,
                skip_test,
            ) && pair_similarity(frs[i].rec, frs[jj].rec, opts) >= tau && prev[k] == result_of(
                frs[i],
                frs[jj],
                opts,
            );
        assert(row_upto(frs, opts, skip_test, tau, i, j)[k] == prev[k]);
        assert(i < jj < j && eligible(frs[jj].rec, opts, skip_test) && pair_similarity(
            frs[i].rec,
            frs[jj].rec,
            opts,
        ) >= tau && row_upto(frs, opts, skip_test, tau, i, j)[k] == result_of(
            frs[i],
            frs[jj],
            opts,
        ));
    } else {
        assert(pair_part(frs, opts, skip_test, tau, i, j - 1).len() > 0);
        assert(row_upto(frs, opts, skip_test, tau, i, j)[k] == result_of(frs[i], frs[j - 1], opts));
        assert(i < j - 1 < j && eligible(frs[j - 1].rec, opts, skip_test) && pair_similarity(
            frs[i].rec,
            frs[j - 1].rec,
            opts,
        ) >= tau);
    }
}

/// Every reported candidate comes from an eligible, above-threshold pair.
pub proof fn lemma_candidates_sound(
    frs: Seq<FileRec>,
    opts: TSEDOptions,
    skip_test: bool,
    tau: int,
    k: int,
    i: int,
)
    requires
        0 <= k < cand_upto(frs, opts, skip_test, tau, i).len(),
        i <= frs.len(),
    ensures
        exists|ii: int, jj: int|
            0 <= ii < jj < frs.len() && eligible(#[trigger] frs[ii].rec, opts, skip_test)
                && eligible(#[trigger] frs[jj].rec, opts, skip_test) && pair_similarity(
                frs[ii].rec,
                frs[jj].rec,
                opts,
            ) >= tau && cand_upto(frs, opts, skip_test, tau, i)[k] == result_of(
                frs[ii],
                frs[jj],
                opts,
            ),
    decreases i,
{
    assert(i > 0);
    let prev = cand_upto(frs, opts, skip_test, tau, i - 1);
    let row = row_upto(frs, opts, skip_test, tau, i - 1, frs.len() as int);
    if k < prev.len() {
        lemma_candidates_sound(frs, opts, skip_test, tau, k, i - 1);
        let (ii, jj) = choose|ii: int, jj: int|
            0 <= ii < jj < frs.len() && eligible(#[trigger] frs[ii].rec, opts, skip_test)
                && eligible(#[trigger] frs[jj].rec, opts, skip_test) && pair_similarity(
                frs[ii].rec,
                frs[jj].rec,
                opts,
            ) >= tau && prev[k] == result_of(frs[ii], frs[jj], opts);
        assert(cand_upto(frs, opts, skip_test, tau, i)[k] == prev[k]);
        assert(0 <= ii < jj < frs.len() && eligible(frs[ii].rec, opts, skip_test) && eligible(
            frs[jj].rec,
            opts,
            skip_test,
        ) && pair_similarity(frs[ii].rec, frs[jj].rec, opts) >= tau && cand_upto(
            frs,
            opts,
            skip_test,
            tau,
            i,
        )[k] == result_of(frs[ii], frs[jj], opts));
    } else {
        let kk = k - prev.len();
        assert(cand_upto(frs, opts, skip_test, tau, i)[k] == row[kk]);
        lemma_row_sound(frs, opts, skip_test, tau, i - 1, frs.len() as int, kk);
        let jj = choose|jj: int|
            i - 1 < jj < frs.len() && eligible(frs[i - 1].rec, opts, skip_test) && eligible(
                #[trigger] frs[jj].rec,
                opts,
                skip_test,
            ) && pair_similarity(frs[i - 1].rec, frs[jj].rec, opts) >= tau && row[kk] == result_of(
                frs[i - 1],
                frs[jj],
                opts,
            );
        assert(0 <= i - 1 < jj < frs.len() && eligible(frs[i - 1].rec, opts, skip_test)
            && eligible(frs[jj].rec, opts, skip_test) && pair_similarity(
            frs[i - 1].rec,
            frs[jj].rec,
            opts,
        ) >= tau && cand_upto(frs, opts, skip_test, tau, i)[k] == result_of(
            frs[i - 1],
            frs[jj],
            opts,
        ));
    }
}

/// With the skip-test flag set, no test-flagged function appears in any
/// candidate result, on either side of the pair.
pub proof fn lemma_skip_test_filter(
    frs: Seq<FileRec>,
    opts: TSEDOptions,
    tau: int,
    k: int,
)
    requires
        0 <= k < candidate_results(frs, opts, true, tau).len(),
    ensures
        !candidate_results(frs, opts, true, tau)[k].is_test1,
        !candidate_results(frs, opts, true, tau)[k].is_test2,
{
    lemma_candidates_sound(frs, opts, true, tau, k, frs.len() as int);
}

/// With `min_lines = k`, no candidate result contains a function whose
/// line count is under `k`, on either side of the pair.
pub proof fn lemma_min_lines_filter(
    frs: Seq<FileRec>,
    opts: TSEDOptions,
    skip_test: bool,
    tau: int,
    k: int,
)
    requires
        0 <= k < candidate_results(frs, opts, skip_test, tau).len(),
    ensures
        candidate_results(frs, opts, skip_test, tau)[k].end_line1 - candidate_results(
            frs,
            opts,
            skip_test,
            tau,
        )[k].start_line1 + 1 >= opts.min_lines,
        candidate_results(frs, opts, skip_test, tau)[k].end_line2 - candidate_results(
            frs,
            opts,
            skip_test,
            tau,
        )[k].start_line2 + 1 >= opts.min_lines,
{
    lemma_candidates_sound(frs, opts, skip_test, tau, k, frs.len() as int);
}

/// Strict lexicographic order on character sequences.
pub open spec fn lex_lt(a: Seq<char>, b: Seq<char>) -> bool
    decreases a.len(),
{
    if b.len() == 0 {
        false
    } else if a.len() == 0 {
        true
    } else if a[0] != b[0] {
        (a[0] as int) < (b[0] as int)
    } else {
        lex_lt(a.drop_first(), b.drop_first())
    }
}

/// Two sequences are lexicographically comparable or equal.
pub proof fn lemma_lex_total(a: Seq<char>, b: Seq<char>)
    ensures
        lex_lt(a, b) || lex_lt(b, a) || a == b,
    decreases a.len(),
{
    if a.len() == 0 && b.len() == 0 {
        assert(a =~= b);
    } else if a.len() > 0 && b.len() > 0 && a[0] == b[0] {
        lemma_lex_total(a.drop_first(), b.drop_first());
        if a.drop_first() == b.drop_first() {
            assert(a.drop_first().len() == a.len() - 1);
            assert(b.drop_first().len() == b.len() - 1);
            assert(a.len() == b.len());
            assert forall|m: int| 0 <= m < a.len() implies a[m] == b[m] by {
                if m > 0 {
                    assert(a[m] == a.drop_first()[m - 1]);
                    assert(b[m] == b.drop_first()[m - 1]);
                }
            }
            assert(a =~= b);
        }
    } else if a.len() > 0 && b.len() > 0 {
        assert(a[0] != b[0]);
        assert((a[0] as int) != (b[0] as int));
    }
}

/// Chopping an equal prefix does not change the order.
proof fn lemma_lex_skip(a: Seq<char>, b: Seq<char>, k: int)
    requires
        0 <= k <= a.len(),
        k <= b.len(),
        forall|m: int| 0 <= m < k ==> a[m] == b[m],
    ensures
        lex_lt(a, b) == lex_lt(a.skip(k), b.skip(k)),
    decreases k,
{
    if k == 0 {
        assert(a.skip(0) =~= a);
        assert(b.skip(0) =~= b);
    } else {
        assert(a.len() > 0 && b.len() > 0 && a[0] == b[0]);
        assert(forall|m: int|
            0 <= m < k - 1 ==> a.drop_first()[m] == (#[trigger] a[m + 1])
                && b.drop_first()[m] == b[m + 1]);
        lemma_lex_skip(a.drop_first(), b.drop_first(), k - 1);
        assert(a.drop_first().skip(k - 1) =~= a.skip(k));
        assert(b.drop_first().skip(k - 1) =~= b.skip(k));
    }
}

/// Executable lexicographic comparison.
pub fn str_lex_lt(a: &String, b: &String) -> (r: bool)
    ensures
        r == lex_lt(a@, b@),
{
    let an = a.as_str().unicode_len();
    let bn = b.as_str().unicode_len();
    let mut i: usize = 0;
    while i < an && i < bn
        invariant
            0 <= i <= an,
            i <= bn,
            an == a@.len(),
            bn == b@.len(),
            forall|m: int| 0 <= m < i ==> a@[m] == b@[m],
        decreases an - i,
    {
        let ca = a.as_str().get_char(i);
        let cb = b.as_str().get_char(i);
        if ca != cb {
            proof {
                lemma_lex_skip(a@, b@, i as int);
                assert(a@.skip(i as int)[0] == a@[i as int]);
                assert(b@.skip(i as int)[0] == b@[i as int]);
            }
            assert(ca as u32 == ca as int && cb as u32 == cb as int);
            return (ca as u32) < (cb as u32);
        }
        i += 1;
    }
    proof {
        lemma_lex_skip(a@, b@, i as int);
        if i < bn {
            assert(a@.skip(i as int).len() == 0);
            assert(b@.skip(i as int).len() > 0);
        } else {
            assert(b@.skip(i as int).len() == 0);
        }
    }
    i < bn
}

/// `a` may stand before `b` in the report: higher similarity first, ties
/// broken by the first file, then the first start line, then the second
/// file and start line.
pub open spec fn res_before(a: ResultModel, b: ResultModel) -> bool {
    ||| a.similarity > b.similarity
    ||| (a.similarity == b.similarity && (lex_lt(a.file1, b.file1) || (a.file1 == b.file1 && (
        a.start_line1 < b.start_line1 || (a.start_line1 == b.start_line1 && (lex_lt(
        a.file2,
        b.file2,
    ) || (a.file2 == b.file2 && a.start_line2 <= b.start_line2)))))))
}

/// Any two results are comparable: the report's order is total.
pub proof fn lemma_res_before_total(a: ResultModel, b: ResultModel)
    ensures
        res_before(a, b) || res_before(b, a),
{
    lemma_lex_total(a.file1, b.file1);
    lemma_lex_total(a.file2, b.file2);
}

/// Executable comparison of two reported results.
pub fn res_before_exec(a: &SimilarityResult, b: &SimilarityResult) -> (r: bool)
    ensures
        r == res_before(res_view(*a), res_view(*b)),
{
    if a.similarity > b.similarity {
        return true;
    }
    if a.similarity < b.similarity {
        return false;
    }
    if str_lex_lt(&a.file1, &b.file1) {
        return true;
    }
    if !a.file1.eq(&b.file1) {
        return false;
    }
    if a.start_line1 < b.start_line1 {
        return true;
    }
    if a.start_line1 > b.start_line1 {
        return false;
    }
    if str_lex_lt(&a.file2, &b.file2) {
        return true;
    }
    if !a.file2.eq(&b.file2) {
        return false;
    }
    a.start_line2 <= b.start_line2
}

/// The report is ordered: each result may stand before the next.
pub open spec fn sorted_results(s: Seq<SimilarityResult>) -> bool {
    forall|k: int| 0 <= k < s.len() - 1 ==> res_before(res_view(#[trigger] s[k]), res_view(s[k + 1]))
}

/// Where the new result belongs in an ordered report.
fn insert_pos(out: &Vec<SimilarityResult>, x: &SimilarityResult) -> (k: usize)
    ensures
        k <= out@.len(),
        forall|m: int| 0 <= m < k ==> res_before(res_view(#[trigger] out@[m]), res_view(*x)),
        k < out@.len() ==> !res_before(res_view(out@[k as int]), res_view(*x)),
{
    let mut k: usize = 0;
    while k < out.len()
        invariant
            0 <= k <= out@.len(),
            forall|m: int| 0 <= m < k ==> res_before(res_view(#[trigger] out@[m]), res_view(*x)),
        decreases out@.len() - k,
    {
        if !res_before_exec(&out[k], x) {
            return k;
        }
        k += 1;
    }
    k
}

/// Order a report: same results, sorted descending by similarity with
/// deterministic tie-breaking.
pub fn sort_results(v: Vec<SimilarityResult>) -> (r: Vec<SimilarityResult>)
    ensures
        r@.to_multiset() == v@.to_multiset(),
        sorted_results(r@),
{
    broadcast use vstd::seq_lib::group_to_multiset_ensures;

    let mut out: Vec<SimilarityResult> = Vec::new();
    let mut rest = v;
    proof {
        assert(out@.to_multiset().add(rest@.to_multiset()) =~= v@.to_multiset());
    }
    while rest.len() > 0
        invariant
            out@.to_multiset().add(rest@.to_multiset()) == v@.to_multiset(),
            sorted_results(out@),
        decreases rest@.len(),
    {
        let ghost rest0 = rest@;
        let x = match rest.pop() {
            Some(x) => x,
            None => {
                proof {
                    assert(false);
                }
                unreached()
            },
        };
        let k = insert_pos(&out, &x);
        let ghost out0 = out@;
        out.insert(k, x);
        proof {
            broadcast use vstd::seq_lib::group_to_multiset_ensures;

            assert(rest0 == rest@.push(x));
            assert(rest0.to_multiset() =~= rest@.to_multiset().insert(x));
            assert(out@.to_multiset() =~= out0.to_multiset().insert(x));
            assert(out@.to_multiset().add(rest@.to_multiset()) =~= v@.to_multiset());
            if k < out0.len() {
                lemma_res_before_total(res_view(out0[k as int]), res_view(x));
            }
            assert forall|m: int| 0 <= m < out@.len() - 1 implies res_before(
                res_view(#[trigger] out@[m]),
                res_view(out@[m + 1]),
            ) by {
                if m < k as int - 1 {
                    assert(out@[m] == out0[m] && out@[m + 1] == out0[m + 1]);
                } else if m == k as int - 1 {
                    assert(out@[m] == out0[m] && out@[m + 1] == x);
                } else if m == k as int {
                    assert(out@[m] == x && out@[m + 1] == out0[m]);
                } else {
                    assert(out@[m] == out0[m - 1] && out@[m + 1] == out0[m]);
                }
            }
        }
    }
    out
}

/// Score every unordered pair of records, in index order, and keep those
/// at or above the threshold.
pub fn collect_results(
    frs: &Vec<FileRec>,
    options: &TSEDOptions,
    skip_test: bool,
    threshold: u64,
) -> (v: Vec<SimilarityResult>)
    requires
        options.wf(),
        forall|q: int| 0 <= q < frs@.len() ==> (#[trigger] frs@[q]).rec.tree.wf(),
    ensures
        v@.len() == candidate_results(frs@, *options, skip_test, threshold as int).len(),
        forall|k: int|
            0 <= k < v@.len() ==> result_carries(
                #[trigger] v@[k],
                candidate_results(frs@, *options, skip_test, threshold as int)[k],
            ),
{
    let mut v: Vec<SimilarityResult> = Vec::new();
    let n = frs.len();
    let ghost opts = *options;
    let ghost tau = threshold as int;
    let mut i: usize = 0;
    while i < n
        invariant
            0 <= i <= n,
            n == frs@.len(),
            options.wf(),
            opts == *options,
            tau == threshold as int,
            forall|q: int| 0 <= q < frs@.len() ==> (#[trigger] frs@[q]).rec.tree.wf(),
            v@.len() == cand_upto(frs@, opts, skip_test, tau, i as int).len(),
            forall|k: int|
                0 <= k < v@.len() ==> result_carries(
                    #[trigger] v@[k],
                    cand_upto(frs@, opts, skip_test, tau, i as int)[k],
                ),
        decreases n - i,
    {
        let mut j: usize = i + 1;
        while j < n
            invariant
                0 <= i < n,
                i + 1 <= j <= n,
                n == frs@.len(),
                options.wf(),
                opts == *options,
                tau == threshold as int,
                forall|q: int| 0 <= q < frs@.len() ==> (#[trigger] frs@[q]).rec.tree.wf(),
                v@.len() == cand_upto(frs@, opts, skip_test, tau, i as int).len() + row_upto(
                    frs@,
                    opts,
                    skip_test,
                    tau,
                    i as int,
                    j as int,
                ).len(),
                forall|k: int|
                    0 <= k < v@.len() ==> result_carries(
                        #[trigger] v@[k],
                        (cand_upto(frs@, opts, skip_test, tau, i as int) + row_upto(
                            frs@,
                            opts,
                            skip_test,
                            tau,
                            i as int,
                            j as int,
                        ))[k],
                    ),
            decreases n - j,
        {
            let fa = &frs[i];
            let fb = &frs[j];
            let ea = eligible_exec(&fa.rec, options, skip_test);
            let eb = eligible_exec(&fb.rec, options, skip_test);
            if ea && eb {
                let d = crate::apted::compute_edit_distance(
                    &fa.rec.tree,
                    &fb.rec.tree,
                    &options.apted_options,
                );
                let s = calculate_tsed(&fa.rec.tree, &fb.rec.tree, options);
                if s >= threshold {
                    let res = SimilarityResult {
                        file1: fa.file.clone(),
                        name1: fa.rec.name.clone(),
                        start_line1: fa.rec.start_line,
                        end_line1: fa.rec.end_line,
                        class_name1: clone_opt(&fa.rec.class_name),
                        file2: fb.file.clone(),
                        name2: fb.rec.name.clone(),
                        start_line2: fb.rec.start_line,
                        end_line2: fb.rec.end_line,
                        class_name2: clone_opt(&fb.rec.class_name),
                        similarity: s,
                        distance: d,
                        size1: fa.rec.tree.get_subtree_size(),
                        size2: fb.rec.tree.get_subtree_size(),
                    };
                    proof {
                        assert(result_carries(
                            res,
                            result_of(frs@[i as int], frs@[j as int], opts),
                        ));
                    }
                    v.push(res);
                }
            }
            proof {
                assert(row_upto(frs@, opts, skip_test, tau, i as int, j as int + 1) == row_upto(
                    frs@,
                    opts,
                    skip_test,
                    tau,
                    i as int,
                    j as int,
                ) + pair_part(frs@, opts, skip_test, tau, i as int, j as int));
            }
            j += 1;
        }
        proof {
            assert(cand_upto(frs@, opts, skip_test, tau, i as int + 1) == cand_upto(
                frs@,
                opts,
                skip_test,
                tau,
                i as int,
            ) + row_upto(frs@, opts, skip_test, tau, i as int, frs@.len() as int));
        }
        i += 1;
    }
    proof {
        if n == 0 {
            assert(cand_upto(frs@, opts, skip_test, tau, 0).len() == 0);
        }
    }
    v
}

/// Clone an optional string.
fn clone_opt(o: &Option<String>) -> (r: Option<String>)
    ensures
        opt_view(r) == opt_view(*o),
{
    match o {
        Some(s) => Some(s.clone()),
        None => None,
    }
}

/// TSED similarity of two extracted functions, in `SIM_SCALE` units.
pub fn compare_functions(
    f: &GenericFunctionDef,
    g: &GenericFunctionDef,
    options: &TSEDOptions,
) -> (s: u64)
    requires
        f.tree.wf(),
        g.tree.wf(),
        options.wf(),
    ensures
        s as int == pair_similarity(*f, *g, *options),
        s <= SIM_SCALE,
{
    calculate_tsed(&f.tree, &g.tree, options)
}

/// The reported result carries one of the candidate models.
pub open spec fn carried_from(r: SimilarityResult, cands: Seq<ResultModel>) -> bool {
    exists|m: int| 0 <= m < cands.len() && result_carries(r, #[trigger] cands[m])
}

/// The report holds as many results as there are qualifying candidates,
/// and each reported result carries one of them.
pub open spec fn report_complete(v: Seq<SimilarityResult>, cands: Seq<ResultModel>) -> bool {
    &&& v.len() == cands.len()
    &&& forall|k: int| 0 <= k < v.len() ==> carried_from(#[trigger] v[k], cands)
}

/// Score, filter and rank every pair among the given records: the
/// returned report holds exactly the eligible pairs at or above the
/// threshold, ordered by similarity with deterministic tie-breaking.
#[verifier::rlimit(80)]
pub fn rank_pairs(
    frs: &Vec<FileRec>,
    options: &TSEDOptions,
    skip_test: bool,
    threshold: u64,
) -> (v: Vec<SimilarityResult>)
    requires
        options.wf(),
        forall|q: int| 0 <= q < frs@.len() ==> (#[trigger] frs@[q]).rec.tree.wf(),
    ensures
        sorted_results(v@),
        report_complete(v@, candidate_results(frs@, *options, skip_test, threshold as int)),
{
    broadcast use vstd::seq_lib::group_to_multiset_ensures;

    let raw = collect_results(frs, options, skip_test, threshold);
    let ghost raw0 = raw@;
    let sorted = sort_results(raw);
    proof {
        assert(sorted@.to_multiset().len() == raw0.to_multiset().len());
        assert(sorted@.len() == raw0.len());
        let cands = candidate_results(frs@, *options, skip_test, threshold as int);
        assert forall|k: int| 0 <= k < sorted@.len() implies carried_from(
            #[trigger] sorted@[k],
            cands,
        ) by {
            let x = sorted@[k];
            assert(sorted@.contains(x));
            assert(sorted@.to_multiset().count(x) > 0);
            assert(raw0.to_multiset().count(x) > 0);
            assert(raw0.contains(x));
            let m = choose|m: int| 0 <= m < raw0.len() && raw0[m] == x;
            assert(raw0[m] == x);
            assert(result_carries(raw0[m], cands[m]));
            assert(0 <= m < cands.len() && result_carries(sorted@[k], cands[m]));
            assert(carried_from(sorted@[k], cands)) by {
                assert(0 <= m < cands.len() && result_carries(sorted@[k], cands[m]));
            }
        }
        assert(sorted@.len() == cands.len());
        assert(report_complete(sorted@, cands));
    }
    sorted
}

/// The records `frs` are the functions of one Python file `file` whose
/// raw tree is `raw`, and `v` is their ranked report.
pub open spec fn ranked_from(
    frs: Seq<FileRec>,
    file: Seq<char>,
    raw: crate::raw::RawNode,
    opts: TSEDOptions,
    skip_test: bool,
    tau: int,
    v: Seq<SimilarityResult>,
) -> bool {
    &&& frs.len() == crate::extract::py_fns(raw, None).len()
    &&& forall|i: int|
        0 <= i < frs.len() ==> (#[trigger] frs[i]).file@ == file && crate::extract::rec_matches(
            frs[i].rec,
            crate::extract::py_fns(raw, None)[i],
        )
    &&& report_complete(v, candidate_results(frs, opts, skip_test, tau))
}

/// Find similar function pairs inside one Python file: extract, filter,
/// score all pairs, keep those at or above the threshold, rank them.
pub fn find_similar_functions_in_file(
    filename: &str,
    code: &str,
    options: &TSEDOptions,
    skip_test: bool,
    threshold: u64,
) -> (r: Result<Vec<SimilarityResult>, String>)
    requires
        options.wf(),
    ensures
        match r {
            Ok(v) => {
                &&& crate::parse::lang_of_filename(filename@) == Some(
                    crate::raw::Language::Python,
                )
                &&& crate::parse::python_cst(code@) is Some
                &&& crate::raw::raw_ok(crate::parse::python_cst(code@)->Some_0)
                &&& sorted_results(v@)
                &&& exists|frs: Seq<FileRec>| #[trigger] ranked_from(
                    frs,
                    filename@,
                    crate::parse::python_cst(code@)->Some_0,
                    *options,
                    skip_test,
                    threshold as int,
                    v@,
                )
            },
            Err(_) => crate::parse::lang_of_filename(filename@) != Some(
                crate::raw::Language::Python,
            ) || crate::parse::python_cst(code@) is None || !crate::raw::raw_ok(
                crate::parse::python_cst(code@)->Some_0,
            ),
        },
{
    match crate::parse::detect_language(filename) {
        Some(crate::raw::Language::Python) => {},
        _ => {
            return Err("unsupported file extension".to_owned());
        },
    }
    let raw = match crate::parse::parse_raw(crate::raw::Language::Python, code) {
        Some(raw) => raw,
        None => {
            return Err("Failed to parse Python source".to_owned());
        },
    };
    if !crate::raw::raw_ok_exec(&raw) {
        return Err("source tree too large".to_owned());
    }
    let mut recs: Vec<crate::extract::GenericFunctionDef> = Vec::new();
    crate::extract::visit_fns(&raw, None, &mut recs);
    let mut frs: Vec<FileRec> = Vec::new();
    let ghost models = crate::extract::py_fns(crate::parse::python_cst(code@)->Some_0, None);
    let ghost recs0 = recs@;
    while recs.len() > 0
        invariant
            frs@.len() <= recs0.len(),
            recs@ == recs0.skip(frs@.len() as int),
            recs0.len() == models.len(),
            forall|i: int|
                0 <= i < recs0.len() ==> crate::extract::rec_matches(
                    recs0[i],
                    #[trigger] models[i],
                ),
            forall|i: int|
                0 <= i < frs@.len() ==> (#[trigger] frs@[i]).file@ == filename@
                    && frs@[i].rec == recs0[i],
        decreases recs@.len(),
    {
        let ghost k = frs@.len() as int;
        let rec = recs.remove(0);
        proof {
            assert(rec == recs0.skip(k)[0]);
            assert(recs0.skip(k)[0] == recs0[k]);
            assert(recs0.skip(k).remove(0) =~= recs0.skip(k + 1));
        }
        frs.push(FileRec { file: filename.to_owned(), rec });
    }
    proof {
        assert(frs@.len() == recs0.len());
        assert forall|i: int| 0 <= i < frs@.len() implies (#[trigger] frs@[i]).rec.tree.wf() by {
            assert(crate::extract::rec_matches(recs0[i], models[i]));
        }
    }
    let v = rank_pairs(&frs, options, skip_test, threshold);
    proof {
        assert forall|i: int| 0 <= i < frs@.len() implies (#[trigger] frs@[i]).file@ == filename@
            && crate::extract::rec_matches(frs@[i].rec, models[i]) by {
            assert(crate::extract::rec_matches(recs0[i], models[i]));
        }
        assert(ranked_from(
            frs@,
            filename@,
            crate::parse::python_cst(code@)->Some_0,
            *options,
            skip_test,
            threshold as int,
            v@,
        ));
    }
    Ok(v)
}

/// A file the driver must skip: an unsupported extension, an
/// unparseable source, or a tree the converter does not accept.
pub open spec fn file_is_skipped(name: String, code: String) -> bool {
    ||| crate::parse::lang_of_filename(name@) != Some(crate::raw::Language::Python)
    ||| crate::parse::python_cst(code@) is None
    ||| !crate::raw::raw_ok(crate::parse::python_cst(code@)->Some_0)
}

/// `frs` is exactly the concatenation, in input order, of the function
/// records of each file the driver does not skip, each under its file's
/// name.
pub open spec fn frs_match_files(files: Seq<(String, String)>, frs: Seq<FileRec>) -> bool
    decreases files.len(),
{
    if files.len() == 0 {
        frs.len() == 0
    } else if file_is_skipped(files.last().0, files.last().1) {
        frs_match_files(files.drop_last(), frs)
    } else {
        let models = crate::extract::py_fns(
            crate::parse::python_cst(files.last().1@)->Some_0,
            None,
        );
        &&& frs.len() >= models.len()
        &&& frs_match_files(files.drop_last(), frs.take(frs.len() - models.len()))
        &&& forall|i: int|
            0 <= i < models.len() ==> (#[trigger] frs[frs.len() - models.len() + i]).file@
                == files.last().0@ && crate::extract::rec_matches(
                frs[frs.len() - models.len() + i].rec,
                models[i],
            )
    }
}

/// The report `v` ranks the records of the given files.
pub open spec fn files_ranked(
    frs: Seq<FileRec>,
    files: Seq<(String, String)>,
    v: Seq<SimilarityResult>,
    opts: TSEDOptions,
    skip_test: bool,
    tau: int,
) -> bool {
    &&& frs_match_files(files, frs)
    &&& report_complete(v, candidate_results(frs, opts, skip_test, tau))
}

/// The names of the skipped files, in input order.
pub open spec fn skipped_names(files: Seq<(String, String)>) -> Seq<Seq<char>>
    decreases files.len(),
{
    if files.len() == 0 {
        Seq::empty()
    } else {
        skipped_names(files.drop_last()) + (if file_is_skipped(files.last().0, files.last().1) {
            seq![files.last().0@]
        } else {
            Seq::<Seq<char>>::empty()
        })
    }
}

/// Find similar function pairs across several files (pairs within one
/// file included). Files that are not Python, fail to parse or are too
/// large are skipped, and their names are returned as diagnostics.
pub fn find_similar_functions_across_files(
    files: &Vec<(String, String)>,
    options: &TSEDOptions,
    skip_test: bool,
    threshold: u64,
) -> (r: (Vec<SimilarityResult>, Vec<String>))
    requires
        options.wf(),
    ensures
        sorted_results(r.0@),
        exists|frs: Seq<FileRec>| #[trigger] files_ranked(
            frs,
            files@,
            r.0@,
            *options,
            skip_test,
            threshold as int,
        ),
        r.1@.map_values(|s: String| s@) == skipped_names(files@),
{
    let mut frs: Vec<FileRec> = Vec::new();
    let mut skipped: Vec<String> = Vec::new();
    let n = files.len();
    let mut fi: usize = 0;
    while fi < n
        invariant
            0 <= fi <= n,
            n == files@.len(),
            forall|q: int| 0 <= q < frs@.len() ==> (#[trigger] frs@[q]).rec.tree.wf(),
            skipped@.map_values(|s: String| s@) == skipped_names(files@.take(fi as int)),
            frs_match_files(files@.take(fi as int), frs@),
        decreases n - fi,
    {
        let ghost skipped0 = skipped@;
        let ghost frs_before = frs@;
        let name = &files[fi].0;
        let code = &files[fi].1;
        let mut ok = false;
        match crate::parse::detect_language(name.as_str()) {
            Some(crate::raw::Language::Python) => {
                match crate::parse::parse_raw(crate::raw::Language::Python, code.as_str()) {
                    Some(raw) => {
                        if crate::raw::raw_ok_exec(&raw) {
                            let mut recs: Vec<crate::extract::GenericFunctionDef> = Vec::new();
                            crate::extract::visit_fns(&raw, None, &mut recs);
                            let ghost models = crate::extract::py_fns(
                                crate::parse::python_cst(code@)->Some_0,
                                None,
                            );
                            let ghost recs0 = recs@;
                            while recs.len() > 0
                                invariant
                                    recs0.len() == models.len(),
                                    forall|q: int|
                                        0 <= q < recs0.len() ==> crate::extract::rec_matches(
                                            recs0[q],
                                            #[trigger] models[q],
                                        ),
                                    recs@.len() <= recs0.len(),
                                    frs@.len() == frs_before.len() + recs0.len() - recs@.len(),
                                    recs@ == recs0.skip((recs0.len() - recs@.len()) as int),
                                    forall|m: int|
                                        0 <= m < frs_before.len() ==> frs@[m] == #[trigger] frs_before[m],
                                    forall|q: int|
                                        frs_before.len() <= q < frs@.len() ==> (
                                        #[trigger] frs@[q]).file@ == name@ && frs@[q].rec
                                            == recs0[q - frs_before.len()],
                                decreases recs@.len(),
                            {
                                let ghost k = frs@.len() - frs_before.len();
                                let ghost rbefore = recs@;
                                proof {
                                    assert(k == recs0.len() - rbefore.len());
                                    assert(rbefore == recs0.skip(k));
                                    assert(rbefore.len() > 0);
                                    assert(0 <= k < recs0.len());
                                }
                                let rec = recs.remove(0);
                                proof {
                                    assert(rec == rbefore[0]);
                                    assert(rbefore[0] == recs0[k]);
                                    assert(recs@ == rbefore.remove(0));
                                    assert(rbefore.remove(0) =~= recs0.skip(k + 1));
                                }
                                frs.push(FileRec { file: name.clone(), rec });
                            }
                            proof {
                                assert forall|q: int| 0 <= q < frs@.len() implies (
                                #[trigger] frs@[q]).rec.tree.wf() by {
                                    if q >= frs_before.len() {
                                        assert(frs@[q].rec == recs0[q - frs_before.len()]);
                                        assert(crate::extract::rec_matches(
                                            recs0[q - frs_before.len()],
                                            models[q - frs_before.len()],
                                        ));
                                    } else {
                                        assert(frs@[q] == frs_before[q]);
                                        assert(frs_before[q].rec.tree.wf());
                                    }
                                }
                                assert(frs@.take(frs_before.len() as int) =~= frs_before);
                            }
                            ok = true;
                        }
                    },
                    None => {},
                }
            },
            _ => {},
        }
        if !ok {
            skipped.push(name.clone());
        }
        proof {
            assert(files@.take(fi as int + 1).drop_last() =~= files@.take(fi as int));
            assert(files@.take(fi as int + 1).last() == files@[fi as int]);
            assert(file_is_skipped(files@[fi as int].0, files@[fi as int].1) == !ok);
            if ok {
                let ms = crate::extract::py_fns(
                    crate::parse::python_cst(files@[fi as int].1@)->Some_0,
                    None,
                );
                assert(frs@.len() == frs_before.len() + ms.len());
                assert(frs@.take(frs@.len() - ms.len()) =~= frs_before);
                assert(frs_match_files(files@.take(fi as int + 1), frs@));
            } else {
                assert(frs@ == frs_before);
                assert(frs_match_files(files@.take(fi as int + 1), frs@));
            }
            if ok {
                assert(skipped@.map_values(|s: String| s@) =~= skipped_names(
                    files@.take(fi as int + 1),
                ));
            } else {
                assert(skipped@ == skipped0.push(files@[fi as int].0));
                assert(skipped@.map_values(|s: String| s@) =~= skipped0.map_values(
                    |s: String| s@,
                ).push(files@[fi as int].0@));
                assert(skipped@.map_values(|s: String| s@) =~= skipped_names(
                    files@.take(fi as int + 1),
                ));
            }
        }
        fi += 1;
    }
    let v = rank_pairs(&frs, options, skip_test, threshold);
    proof {
        assert(report_complete(
            v@,
            candidate_results(frs@, *options, skip_test, threshold as int),
        ));
        assert(files@.take(n as int) =~= files@);
        assert(files_ranked(frs@, files@, v@, *options, skip_test, threshold as int));
    }
    (v, skipped)
}

/// Every reported candidate clears the similarity threshold.
pub proof fn lemma_threshold_filter(
    frs: Seq<FileRec>,
    opts: TSEDOptions,
    skip_test: bool,
    tau: int,
    k: int,
)
    requires
        0 <= k < candidate_results(frs, opts, skip_test, tau).len(),
    ensures
        candidate_results(frs, opts, skip_test, tau)[k].similarity >= tau,
{
    lemma_candidates_sound(frs, opts, skip_test, tau, k, frs.len() as int);
}

} // verus!
