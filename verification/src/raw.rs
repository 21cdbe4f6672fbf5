//! Raw concrete-syntax trees as plain values, and their conversion into
//! the ordered labeled trees that the engine compares.
//!
//! A `RawNode` is what a parser hands back: the grammar production name,
//! the node's source text, the field name under which it hangs off its
//! parent, and its 0-based source-row span. Conversion keeps the text only
//! for leaf-like token kinds of the language at hand, assigns pre-order
//! ids, and caches subtree sizes.

use vstd::prelude::*;

use crate::tree::MAX_TREE_SIZE;
use crate::tree::TreeNode;
use crate::tree::seq_ids_from;
use crate::tree::seq_size_of;

verus! {

/// Supported source languages.
#[derive(Clone, Copy, Debug, PartialEq, Eq, Structural)]
pub enum Language {
    Python,
    TypeScript,
}

/// One node of a concrete syntax tree, as plain values.
pub struct RawNode {
    /// Grammar production name.
    pub kind: String,
    /// Source text covered by this node.
    pub text: String,
    /// Field name under which the parent holds this node; empty if none.
    pub field: String,
    /// 0-based first source row of the node.
    pub start_row: u64,
    /// 0-based last source row of the node.
    pub end_row: u64,
    /// Ordered children.
    pub children: Vec<RawNode>,
}

/// Node count of a raw subtree.
pub open spec fn raw_count(n: RawNode) -> nat
    decreases n,
{
    1 + raw_count_seq(n.children@)
}

/// Node count of a raw forest.
pub open spec fn raw_count_seq(s: Seq<RawNode>) -> nat
    decreases s,
{
    if s.len() == 0 {
        0
    } else {
        raw_count_seq(s.drop_last()) + raw_count(s.last())
    }
}

/// Sane row numbers throughout the subtree: small enough that 1-based
/// line numbers fit comfortably in a `u64`, each node's start row at most
/// its end row, and every child's rows within its parent's.
pub open spec fn raw_rows_ok(n: RawNode) -> bool
    decreases n,
{
    &&& n.start_row < 0xffffffff
    &&& n.end_row < 0xffffffff
    &&& n.start_row <= n.end_row
    &&& forall|i: int|
        0 <= i < n.children@.len() ==> {
            let c = #[trigger] n.children@[i];
            &&& n.start_row <= c.start_row
            &&& c.end_row <= n.end_row
            &&& raw_rows_ok(c)
        }
}

/// A raw tree the converter accepts: bounded size and bounded rows.
pub open spec fn raw_ok(n: RawNode) -> bool {
    raw_count(n) <= MAX_TREE_SIZE && raw_rows_ok(n)
}

/// Splitting off the last tree of a prefix of a raw forest.
pub proof fn lemma_raw_take_unsnoc(s: Seq<RawNode>, i: int)
    requires
        1 <= i <= s.len(),
    ensures
        s.take(i).drop_last() == s.take(i - 1),
        s.take(i).last() == s[i - 1],
        raw_count_seq(s.take(i)) == raw_count_seq(s.take(i - 1)) + raw_count(s[i - 1]),
{
    assert(s.take(i).drop_last() =~= s.take(i - 1));
}

/// A prefix of a raw forest counts no more nodes than the whole.
pub proof fn lemma_raw_count_take_le(s: Seq<RawNode>, i: int)
    requires
        0 <= i <= s.len(),
    ensures
        raw_count_seq(s.take(i)) <= raw_count_seq(s),
    decreases s.len() - i,
{
    if i == s.len() {
        assert(s.take(i) =~= s);
    } else {
        lemma_raw_take_unsnoc(s, i + 1);
        lemma_raw_count_take_le(s, i + 1);
    }
}

/// Which token kinds carry their source text into the tree's `value`.
pub open spec fn is_value_kind(lang: Language, k: Seq<char>) -> bool {
    match lang {
        Language::Python => k == "identifier"@ || k == "string"@ || k == "integer"@ || k
            == "float"@ || k == "true"@ || k == "false"@ || k == "none"@,
        Language::TypeScript => k == "identifier"@ || k == "property_identifier"@ || k
            == "type_identifier"@ || k == "shorthand_property_identifier"@ || k == "string"@ || k
            == "string_fragment"@ || k == "number"@ || k == "true"@ || k == "false"@ || k
            == "null"@ || k == "undefined"@,
    }
}

/// Compare a `String` against a literal kind name.
pub fn str_is(s: &String, lit: &str) -> (r: bool)
    ensures
        r == (s@ == lit@),
{
    s.eq(&lit.to_owned())
}

/// Executable version of `is_value_kind`.
fn is_value_kind_exec(lang: Language, k: &String) -> (r: bool)
    ensures
        r == is_value_kind(lang, k@),
{
    match lang {
        Language::Python => str_is(k, "identifier") || str_is(k, "string") || str_is(k, "integer")
            || str_is(k, "float") || str_is(k, "true") || str_is(k, "false") || str_is(k, "none"),
        Language::TypeScript => str_is(k, "identifier") || str_is(k, "property_identifier")
            || str_is(k, "type_identifier") || str_is(k, "shorthand_property_identifier") || str_is(
            k,
            "string",
        ) || str_is(k, "string_fragment") || str_is(k, "number") || str_is(k, "true") || str_is(
            k,
            "false",
        ) || str_is(k, "null") || str_is(k, "undefined"),
    }
}

/// `t` is the converted image of `n`: same labels and shape, values kept
/// only on leaf-like token kinds, sizes cached correctly.
pub open spec fn converts(n: RawNode, t: TreeNode, lang: Language) -> bool
    decreases n,
{
    &&& t.label@ == n.kind@
    &&& t.value@ == (if is_value_kind(lang, n.kind@) {
        n.text@
    } else {
        Seq::<char>::empty()
    })
    &&& t.size as nat == raw_count(n)
    &&& t.children@.len() == n.children@.len()
    &&& forall|i: int|
        0 <= i < n.children@.len() ==> converts(
            #[trigger] n.children@[i],
            t.children@[i],
            lang,
        )
}

/// Count the nodes of a raw subtree, capped at `MAX_TREE_SIZE + 1`.
pub fn capped_count(n: &RawNode) -> (c: u64)
    ensures
        raw_count(*n) <= MAX_TREE_SIZE ==> c as nat == raw_count(*n),
        raw_count(*n) > MAX_TREE_SIZE ==> c == MAX_TREE_SIZE + 1,
    decreases *n,
{
    let mut total: u64 = 1;
    let mut i: usize = 0;
    let len = n.children.len();
    while i < len
        invariant
            0 <= i <= len,
            len == n.children@.len(),
            raw_count_seq(n.children@.take(i as int)) <= MAX_TREE_SIZE ==> total as nat == 1
                + raw_count_seq(n.children@.take(i as int)),
            raw_count_seq(n.children@.take(i as int)) > MAX_TREE_SIZE ==> total == MAX_TREE_SIZE
                + 1,
            total <= MAX_TREE_SIZE + 1,
        decreases len - i,
    {
        proof {
            lemma_raw_take_unsnoc(n.children@, i as int + 1);
        }
        let c = capped_count(&n.children[i]);
        if c > MAX_TREE_SIZE || total > MAX_TREE_SIZE - c {
            total = MAX_TREE_SIZE + 1;
        } else {
            total = total + c;
            if total > MAX_TREE_SIZE {
                total = MAX_TREE_SIZE + 1;
            }
        }
        i += 1;
    }
    proof {
        assert(n.children@.take(len as int) =~= n.children@);
    }
    total
}

/// Check every row number in the subtree.
pub fn rows_ok_exec(n: &RawNode) -> (r: bool)
    ensures
        r == raw_rows_ok(*n),
    decreases *n,
{
    if n.start_row >= 0xffffffff || n.end_row >= 0xffffffff || n.start_row > n.end_row {
        return false;
    }
    let len = n.children.len();
    let mut i: usize = 0;
    while i < len
        invariant
            0 <= i <= len,
            len == n.children@.len(),
            n.start_row < 0xffffffff,
            n.end_row < 0xffffffff,
            n.start_row <= n.end_row,
            forall|k: int|
                0 <= k < i ==> {
                    let c = #[trigger] n.children@[k];
                    &&& n.start_row <= c.start_row
                    &&& c.end_row <= n.end_row
                    &&& raw_rows_ok(c)
                },
        decreases len - i,
    {
        let c = &n.children[i];
        if n.start_row > c.start_row || c.end_row > n.end_row {
            return false;
        }
        if !rows_ok_exec(c) {
            return false;
        }
        i += 1;
    }
    true
}

/// Does the converter accept this raw tree?
pub fn raw_ok_exec(n: &RawNode) -> (r: bool)
    ensures
        r == raw_ok(*n),
{
    let c = capped_count(n);
    if c > MAX_TREE_SIZE {
        return false;
    }
    rows_ok_exec(n)
}

/// A converted tree occupies exactly as many nodes as its raw original.
pub proof fn lemma_converts_size(n: RawNode, t: TreeNode, lang: Language)
    requires
        converts(n, t, lang),
    ensures
        t.size_of() == raw_count(n),
    decreases n,
{
    lemma_converts_size_seq(n.children@, t.children@, lang);
}

proof fn lemma_converts_size_seq(s: Seq<RawNode>, ts: Seq<TreeNode>, lang: Language)
    requires
        s.len() == ts.len(),
        forall|i: int| 0 <= i < s.len() ==> converts(#[trigger] s[i], ts[i], lang),
    ensures
        seq_size_of(ts) == raw_count_seq(s),
    decreases s,
{
    if s.len() > 0 {
        assert(s.drop_last().len() == ts.drop_last().len());
        assert(forall|i: int|
            0 <= i < s.drop_last().len() ==> converts(
                #[trigger] s.drop_last()[i],
                ts.drop_last()[i],
                lang,
            ));
        lemma_converts_size_seq(s.drop_last(), ts.drop_last(), lang);
        assert(decreases_to!(s => s.last()));
        lemma_converts_size(s.last(), ts.last(), lang);
    }
}

/// Convert a raw subtree, assigning pre-order ids from `base`.
pub fn convert(n: &RawNode, base: u64, lang: Language) -> (t: TreeNode)
    requires
        raw_count(*n) <= MAX_TREE_SIZE,
        base + raw_count(*n) <= MAX_TREE_SIZE,
    ensures
        converts(*n, t, lang),
        t.wf(),
        t.ids_from(base as nat),
    decreases *n,
{
    let label = n.kind.clone();
    let value = if is_value_kind_exec(lang, &n.kind) {
        n.text.clone()
    } else {
        String::new()
    };
    let mut kids: Vec<TreeNode> = Vec::new();
    let mut next: u64 = base + 1;
    let len = n.children.len();
    let mut i: usize = 0;
    proof {
        assert(raw_count_seq(n.children@) < raw_count(*n));
        lemma_raw_count_take_le(n.children@, 0);
    }
    while i < len
        invariant
            0 <= i <= len,
            len == n.children@.len(),
            raw_count(*n) <= MAX_TREE_SIZE,
            base + raw_count(*n) <= MAX_TREE_SIZE,
            raw_count_seq(n.children@) < raw_count(*n),
            kids@.len() == i,
            next as nat == base + 1 + raw_count_seq(n.children@.take(i as int)),
            forall|k: int|
                0 <= k < i ==> converts(n.children@[k], #[trigger] kids@[k], lang),
            forall|k: int| 0 <= k < i ==> (#[trigger] kids@[k]).wf(),
            seq_ids_from(kids@, (base + 1) as nat),
            seq_size_of(kids@) == raw_count_seq(n.children@.take(i as int)),
        decreases len - i,
    {
        proof {
            lemma_raw_take_unsnoc(n.children@, i as int + 1);
            lemma_raw_count_take_le(n.children@, i as int + 1);
        }
        let child = convert(&n.children[i], next, lang);
        proof {
            lemma_converts_size(n.children@[i as int], child, lang);
            lemma_seq_ids_snoc(kids@, child, (base + 1) as nat);
            lemma_seq_size_snoc(kids@, child);
        }
        next = next + child.size;
        kids.push(child);
        i += 1;
    }
    proof {
        assert(n.children@.take(len as int) =~= n.children@);
    }
    let size = 1 + (next - (base + 1));
    let t = TreeNode { label, value, id: base, size, children: kids };
    proof {
        assert(t.children@ == kids@);
        assert(seq_size_of(t.children@) == raw_count_seq(n.children@));
        assert(t.size_of() == raw_count(*n));
        assert(converts(*n, t, lang));
        assert(t.wf());
        assert(t.ids_from(base as nat));
    }
    t
}

/// Appending one tree to a forest extends its pre-order id run.
proof fn lemma_seq_ids_snoc(s: Seq<TreeNode>, t: TreeNode, base: nat)
    requires
        seq_ids_from(s, base),
        t.ids_from(base + seq_size_of(s)),
    ensures
        seq_ids_from(s.push(t), base),
    decreases s.len(),
{
    if s.len() == 0 {
        assert(s.push(t)[0] == t);
        assert(s.push(t).drop_first() =~= Seq::<TreeNode>::empty());
        assert(seq_size_of(s) == 0);
        assert(t.ids_from(base));
        assert(seq_ids_from(s.push(t).drop_first(), base + t.size_of()));
        assert(seq_ids_from(s.push(t), base));
    } else {
        assert(s.push(t)[0] == s[0]);
        assert(s.push(t).drop_first() =~= s.drop_first().push(t));
        assert(seq_size_of(s.drop_first().push(t).drop_last()) == seq_size_of(s.drop_first()))
            by {
            assert(s.drop_first().push(t).drop_last() =~= s.drop_first());
        }
        lemma_size_first(s);
        lemma_seq_ids_snoc(s.drop_first(), t, base + s[0].size_of());
        assert(s.push(t)[0].ids_from(base));
        assert(seq_ids_from(s.push(t).drop_first(), base + s.push(t)[0].size_of()));
        assert(seq_ids_from(s.push(t), base));
    }
}

/// Forest size decomposes at the front as well as at the back.
proof fn lemma_size_first(s: Seq<TreeNode>)
    requires
        s.len() > 0,
    ensures
        seq_size_of(s) == s[0].size_of() + seq_size_of(s.drop_first()),
    decreases s.len(),
{
    if s.len() == 1 {
        assert(s.drop_first() =~= Seq::<TreeNode>::empty());
        assert(s.drop_last() =~= Seq::<TreeNode>::empty());
        assert(s.last() == s[0]);
    } else {
        lemma_size_first(s.drop_last());
        assert(s.drop_last()[0] == s[0]);
        assert(s.drop_last().drop_first() =~= s.drop_first().drop_last());
        assert(s.drop_first().last() == s.last());
        assert(seq_size_of(s.drop_first()) == seq_size_of(s.drop_first().drop_last())
            + s.drop_first().last().size_of());
    }
}

/// Appending one tree adds its size to the forest's.
proof fn lemma_seq_size_snoc(s: Seq<TreeNode>, t: TreeNode)
    ensures
        seq_size_of(s.push(t)) == seq_size_of(s) + t.size_of(),
{
    assert(s.push(t).drop_last() =~= s);
    assert(s.push(t).last() == t);
}

} // verus!
