//! Function and type extraction from Python concrete syntax trees.
//!
//! The walk mirrors the grammar: `function_definition` nodes become
//! records, `decorated_definition` nodes resolve to their inner function
//! with the decorator included in the outer span, `class_definition`
//! nodes contribute their methods under their own name (a class met
//! inside another class is walked the same way, so an inner class's
//! methods are reported once, under the inner class), and everything
//! else is traversed.

use vstd::prelude::*;

use crate::raw::Language;
use crate::raw::RawNode;
use crate::raw::converts;
use crate::raw::lemma_raw_take_unsnoc;
use crate::raw::raw_count;
use crate::raw::raw_count_seq;
use crate::raw::raw_rows_ok;
use crate::tree::MAX_TREE_SIZE;
use crate::tree::TreeNode;

verus! {

/// Kind of an extracted type definition.
#[derive(Clone, Copy, Debug, PartialEq, Eq, Structural)]
pub enum TypeDefKind {
    Class,
    Interface,
    TypeAlias,
    Enum,
}

/// One function or method definition, with its source spans and the
/// subtree the comparison driver scores.
pub struct GenericFunctionDef {
    /// Function or method identifier.
    pub name: String,
    /// 1-based first line of the whole definition, decorators included.
    pub start_line: u64,
    /// 1-based last line of the whole definition.
    pub end_line: u64,
    /// 1-based first line of the body; zero if absent.
    pub body_start_line: u64,
    /// 1-based last line of the body; zero if absent.
    pub body_end_line: u64,
    /// Parameter names, in order, types and defaults stripped.
    pub parameters: Vec<String>,
    /// Defined inside a class?
    pub is_method: bool,
    /// The enclosing class, when `is_method`.
    pub class_name: Option<String>,
    /// Flagged as a test by the language's convention (a `test_` prefix).
    pub is_test: bool,
    /// The definition's subtree, converted for the comparison engine.
    pub tree: TreeNode,
}

/// One extracted type definition.
pub struct GenericTypeDef {
    /// Type name.
    pub name: String,
    /// What sort of definition it is.
    pub kind: TypeDefKind,
    /// 1-based first line.
    pub start_line: u64,
    /// 1-based last line.
    pub end_line: u64,
}

/// Mathematical model of one extracted function.
pub struct FnModel {
    /// Identifier.
    pub name: Seq<char>,
    /// 1-based span of the whole definition.
    pub start_line: int,
    /// 1-based last line.
    pub end_line: int,
    /// 1-based body span; zero when absent.
    pub body_start_line: int,
    /// 1-based last body line; zero when absent.
    pub body_end_line: int,
    /// Parameter names.
    pub parameters: Seq<Seq<char>>,
    /// Defined inside a class?
    pub is_method: bool,
    /// The enclosing class, when any.
    pub class_name: Option<Seq<char>>,
    /// Does the name carry the `test_` prefix?
    pub is_test: bool,
    /// The raw subtree whose conversion the record carries.
    pub raw: RawNode,
}

/// First child held under the given field name.
pub open spec fn find_field(s: Seq<RawNode>, f: Seq<char>) -> Option<RawNode>
    decreases s,
{
    if s.len() == 0 {
        None
    } else if s[0].field@ == f {
        Some(s[0])
    } else {
        find_field(s.drop_first(), f)
    }
}

/// Names a Python test by convention: a `test_` prefix.
pub open spec fn is_test_name(s: Seq<char>) -> bool {
    s.len() >= 5 && s[0] == 't' && s[1] == 'e' && s[2] == 's' && s[3] == 't' && s[4] == '_'
}

/// Parameter names of one entry of a `parameters` node: a bare
/// identifier names itself; typed and defaulted parameters name their
/// `name` field.
pub open spec fn param_names_of(c: RawNode) -> Seq<Seq<char>> {
    if c.kind@ == "identifier"@ {
        seq![c.text@]
    } else if c.kind@ == "typed_parameter"@ || c.kind@ == "default_parameter"@ {
        match find_field(c.children@, "name"@) {
            Some(nm) => seq![nm.text@],
            None => Seq::empty(),
        }
    } else {
        Seq::empty()
    }
}

/// Parameter names of a whole `parameters` node.
pub open spec fn params_of(s: Seq<RawNode>) -> Seq<Seq<char>>
    decreases s,
{
    if s.len() == 0 {
        Seq::empty()
    } else {
        params_of(s.drop_last()) + param_names_of(s.last())
    }
}

/// The parameters the record gets for a definition node: those of its
/// `parameters` field, or none.
pub open spec fn def_params(def: RawNode) -> Seq<Seq<char>> {
    match find_field(def.children@, "parameters"@) {
        Some(p) => params_of(p.children@),
        None => Seq::empty(),
    }
}

/// The model record for a definition: `outer` carries the span
/// (decorators included), `def` carries name, parameters and body.
pub open spec fn fn_model(outer: RawNode, def: RawNode, name: RawNode, class: Option<Seq<char>>)
    -> FnModel {
    FnModel {
        name: name.text@,
        start_line: outer.start_row + 1,
        end_line: outer.end_row + 1,
        body_start_line: match find_field(def.children@, "body"@) {
            Some(b) => b.start_row + 1,
            None => 0,
        },
        body_end_line: match find_field(def.children@, "body"@) {
            Some(b) => b.end_row + 1,
            None => 0,
        },
        parameters: def_params(def),
        is_method: class is Some,
        class_name: class,
        is_test: is_test_name(name.text@),
        raw: outer,
    }
}

/// All function records extracted from one node, in traversal order.
pub open spec fn py_fns(n: RawNode, class: Option<Seq<char>>) -> Seq<FnModel>
    decreases n, 1int,
{
    if n.kind@ == "function_definition"@ {
        match find_field(n.children@, "name"@) {
            Some(nm) => seq![fn_model(n, n, nm, class)],
            None => Seq::empty(),
        }
    } else if n.kind@ == "decorated_definition"@ {
        if n.children@.len() > 0 {
            let inner = n.children@.last();
            if inner.kind@ == "function_definition"@ {
                match find_field(inner.children@, "name"@) {
                    Some(nm) => seq![fn_model(n, inner, nm, class)],
                    None => Seq::empty(),
                }
            } else {
                Seq::empty()
            }
        } else {
            Seq::empty()
        }
    } else if n.kind@ == "class_definition"@ {
        match find_field(n.children@, "name"@) {
            Some(nm) => py_fns_seq(n.children@, Some(nm.text@)),
            None => Seq::empty(),
        }
    } else {
        py_fns_seq(n.children@, class)
    }
}

/// Records of a forest of nodes, left to right.
pub open spec fn py_fns_seq(s: Seq<RawNode>, class: Option<Seq<char>>) -> Seq<FnModel>
    decreases s, 0int,
{
    if s.len() == 0 {
        Seq::empty()
    } else {
        py_fns_seq(s.drop_last(), class) + py_fns(s.last(), class)
    }
}

/// All class definitions in the tree, in traversal order.
pub open spec fn py_types(n: RawNode) -> Seq<FnTypeModel>
    decreases n, 1int,
{
    let here: Seq<FnTypeModel> = if n.kind@ == "class_definition"@ {
        match find_field(n.children@, "name"@) {
            Some(nm) => seq![
                FnTypeModel {
                    name: nm.text@,
                    start_line: n.start_row + 1,
                    end_line: n.end_row + 1,
                },
            ],
            None => Seq::empty(),
        }
    } else {
        Seq::empty()
    };
    here + py_types_seq(n.children@)
}

/// Class definitions of a forest of nodes.
pub open spec fn py_types_seq(s: Seq<RawNode>) -> Seq<FnTypeModel>
    decreases s, 0int,
{
    if s.len() == 0 {
        Seq::empty()
    } else {
        py_types_seq(s.drop_last()) + py_types(s.last())
    }
}

/// Mathematical model of one extracted type.
pub struct FnTypeModel {
    /// Type name.
    pub name: Seq<char>,
    /// 1-based first line.
    pub start_line: int,
    /// 1-based last line.
    pub end_line: int,
}

/// The span invariant of one record: 1-based lines, the definition span
/// ordered, and the body span (absent iff both its lines are zero)
/// inside the definition's.
pub open spec fn rec_spans_ok(rec: GenericFunctionDef) -> bool {
    &&& 1 <= rec.start_line <= rec.end_line
    &&& (rec.body_start_line == 0 <==> rec.body_end_line == 0)
    &&& rec.body_start_line != 0 ==> rec.start_line <= rec.body_start_line <= rec.body_end_line
        <= rec.end_line
}

/// The executable record faithfully carries one model record.
pub open spec fn rec_matches(rec: GenericFunctionDef, m: FnModel) -> bool {
    &&& rec.name@ == m.name
    &&& rec.start_line == m.start_line
    &&& rec.end_line == m.end_line
    &&& rec.body_start_line == m.body_start_line
    &&& rec.body_end_line == m.body_end_line
    &&& rec.parameters@.len() == m.parameters.len()
    &&& forall|i: int|
        0 <= i < m.parameters.len() ==> (#[trigger] rec.parameters@[i])@ == m.parameters[i]
    &&& rec.is_method == m.is_method
    &&& match (rec.class_name, m.class_name) {
        (Some(c), Some(mc)) => c@ == mc,
        (None, None) => true,
        _ => false,
    }
    &&& rec.is_test == m.is_test
    &&& rec_spans_ok(rec)
    &&& converts(m.raw, rec.tree, Language::Python)
    &&& rec.tree.wf()
    &&& rec.tree.ids_from(0)
}

/// The executable record faithfully carries one type model.
pub open spec fn type_rec_matches(rec: GenericTypeDef, m: FnTypeModel) -> bool {
    &&& rec.name@ == m.name
    &&& rec.kind == TypeDefKind::Class
    &&& rec.start_line == m.start_line
    &&& rec.end_line == m.end_line
}

/// The class name under which records are extracted, as a sequence.
pub open spec fn class_view(c: Option<&String>) -> Option<Seq<char>> {
    match c {
        Some(s) => Some(s@),
        None => None,
    }
}

/// Each raw subtree counts toward its forest's node count.
pub proof fn lemma_raw_count_member(s: Seq<RawNode>, i: int)
    requires
        0 <= i < s.len(),
    ensures
        raw_count(s[i]) <= raw_count_seq(s),
    decreases s.len(),
{
    if i == s.len() - 1 {
        assert(s.last() == s[i]);
    } else {
        lemma_raw_count_member(s.drop_last(), i);
        assert(s.drop_last()[i] == s[i]);
    }
}

/// Searching a forest left to right finds exactly `find_field`.
proof fn lemma_find_field_at(s: Seq<RawNode>, f: Seq<char>, i: int)
    requires
        0 <= i <= s.len(),
        forall|k: int| 0 <= k < i ==> (#[trigger] s[k]).field@ != f,
    ensures
        i < s.len() && s[i].field@ == f ==> find_field(s, f) == Some(s[i]),
        i == s.len() ==> find_field(s, f) is None,
    decreases i,
{
    if i == 0 {
    } else {
        assert(s[0].field@ != f);
        assert(forall|k: int| 0 <= k < i - 1 ==> (#[trigger] s.drop_first()[k]).field@ != f) by {
            assert(forall|k: int|
                0 <= k < i - 1 ==> s.drop_first()[k] == (#[trigger] s[k + 1]));
        }
        lemma_find_field_at(s.drop_first(), f, i - 1);
        if i < s.len() {
            assert(s.drop_first()[i - 1] == s[i]);
        }
    }
}

/// First child index held under the given field name.
fn find_field_exec(s: &Vec<RawNode>, f: &str) -> (r: Option<usize>)
    ensures
        match r {
            Some(i) => {
                &&& 0 <= i < s@.len()
                &&& s@[i as int].field@ == f@
                &&& find_field(s@, f@) == Some(s@[i as int])
            },
            None => find_field(s@, f@) is None,
        },
{
    let mut i: usize = 0;
    while i < s.len()
        invariant
            0 <= i <= s@.len(),
            forall|k: int| 0 <= k < i ==> (#[trigger] s@[k]).field@ != f@,
        decreases s@.len() - i,
    {
        if crate::raw::str_is(&s[i].field, f) {
            proof {
                lemma_find_field_at(s@, f@, i as int);
            }
            return Some(i);
        }
        i += 1;
    }
    proof {
        lemma_find_field_at(s@, f@, s@.len() as int);
    }
    None
}

/// Does the name carry the `test_` prefix?
fn is_test_name_exec(s: &String) -> (r: bool)
    ensures
        r == is_test_name(s@),
{
    let n = s.as_str().unicode_len();
    if n < 5 {
        return false;
    }
    let c0 = s.as_str().get_char(0);
    let c1 = s.as_str().get_char(1);
    let c2 = s.as_str().get_char(2);
    let c3 = s.as_str().get_char(3);
    let c4 = s.as_str().get_char(4);
    c0 == 't' && c1 == 'e' && c2 == 's' && c3 == 't' && c4 == '_'
}

/// Parameter names of a `parameters` node, in order.
fn extract_params(p: &RawNode) -> (v: Vec<String>)
    ensures
        v@.len() == params_of(p.children@).len(),
        forall|i: int|
            0 <= i < v@.len() ==> (#[trigger] v@[i])@ == params_of(p.children@)[i],
{
    let mut v: Vec<String> = Vec::new();
    let len = p.children.len();
    let mut i: usize = 0;
    while i < len
        invariant
            0 <= i <= len,
            len == p.children@.len(),
            v@.len() == params_of(p.children@.take(i as int)).len(),
            forall|k: int|
                0 <= k < v@.len() ==> (#[trigger] v@[k])@ == params_of(
                    p.children@.take(i as int),
                )[k],
        decreases len - i,
    {
        proof {
            lemma_raw_take_unsnoc(p.children@, i as int + 1);
        }
        let c = &p.children[i];
        if crate::raw::str_is(&c.kind, "identifier") {
            v.push(c.text.clone());
        } else if crate::raw::str_is(&c.kind, "typed_parameter") || crate::raw::str_is(
            &c.kind,
            "default_parameter",
        ) {
            match find_field_exec(&c.children, "name") {
                Some(ni) => {
                    v.push(c.children[ni].text.clone());
                },
                None => {},
            }
        }
        i += 1;
    }
    proof {
        assert(p.children@.take(len as int) =~= p.children@);
    }
    v
}

/// Build the record for one definition. `outer` carries the span and the
/// compared subtree; `def` carries name, parameters and body.
fn build_record(
    outer: &RawNode,
    def: &RawNode,
    name_node: &RawNode,
    class: Option<&String>,
) -> (rec: GenericFunctionDef)
    requires
        raw_count(*outer) <= MAX_TREE_SIZE,
        raw_rows_ok(*outer),
        raw_rows_ok(*def),
        outer.start_row <= def.start_row,
        def.end_row <= outer.end_row,
    ensures
        rec_matches(rec, fn_model(*outer, *def, *name_node, class_view(class))),
{
    let body = find_field_exec(&def.children, "body");
    let bs: u64;
    let be: u64;
    match body {
        Some(bi) => {
            proof {
                assert(def.start_row <= def.children@[bi as int].start_row);
                assert(def.children@[bi as int].end_row <= def.end_row);
                assert(raw_rows_ok(def.children@[bi as int]));
            }
            bs = def.children[bi].start_row + 1;
            be = def.children[bi].end_row + 1;
        },
        None => {
            bs = 0;
            be = 0;
        },
    }
    let params: Vec<String> = match find_field_exec(&def.children, "parameters") {
        Some(pi) => extract_params(&def.children[pi]),
        None => Vec::new(),
    };
    let tree = crate::raw::convert(outer, 0, Language::Python);
    GenericFunctionDef {
        name: name_node.text.clone(),
        start_line: outer.start_row + 1,
        end_line: outer.end_row + 1,
        body_start_line: bs,
        body_end_line: be,
        parameters: params,
        is_method: class.is_some(),
        class_name: match class {
            Some(c) => Some(c.clone()),
            None => None,
        },
        is_test: is_test_name_exec(&name_node.text),
        tree,
    }
}

/// Walk one node, appending every extracted record in traversal order.
pub fn visit_fns(n: &RawNode, class: Option<&String>, out: &mut Vec<GenericFunctionDef>)
    requires
        raw_count(*n) <= MAX_TREE_SIZE,
        raw_rows_ok(*n),
    ensures
        final(out)@.len() == old(out)@.len() + py_fns(*n, class_view(class)).len(),
        forall|i: int| 0 <= i < old(out)@.len() ==> final(out)@[i] == old(out)@[i],
        forall|i: int|
            0 <= i < py_fns(*n, class_view(class)).len() ==> rec_matches(
                final(out)@[old(out)@.len() + i],
                #[trigger] py_fns(*n, class_view(class))[i],
            ),
    decreases *n,
{
    let ghost models = py_fns(*n, class_view(class));
    if crate::raw::str_is(&n.kind, "function_definition") {
        match find_field_exec(&n.children, "name") {
            Some(ni) => {
                let rec = build_record(n, n, &n.children[ni], class);
                out.push(rec);
            },
            None => {},
        }
    } else if crate::raw::str_is(&n.kind, "decorated_definition") {
        if n.children.len() > 0 {
            let last_i = n.children.len() - 1;
            let inner = &n.children[last_i];
            proof {
                assert(n.children@.last() == n.children@[last_i as int]);
                assert(raw_rows_ok(n.children@[last_i as int]));
                assert(n.start_row <= n.children@[last_i as int].start_row);
                assert(n.children@[last_i as int].end_row <= n.end_row);
            }
            if crate::raw::str_is(&inner.kind, "function_definition") {
                match find_field_exec(&inner.children, "name") {
                    Some(ni) => {
                        let rec = build_record(n, inner, &inner.children[ni], class);
                        out.push(rec);
                    },
                    None => {},
                }
            }
        }
    } else if crate::raw::str_is(&n.kind, "class_definition") {
        match find_field_exec(&n.children, "name") {
            Some(ni) => {
                let cname = &n.children[ni].text;
                visit_children(n, Some(cname), out);
                proof {
                    assert(models =~= py_fns_seq(n.children@, class_view(Some(cname))));
                }
            },
            None => {},
        }
    } else {
        visit_children(n, class, out);
    }
}

/// Walk every child of a node in order.
fn visit_children(n: &RawNode, class: Option<&String>, out: &mut Vec<GenericFunctionDef>)
    requires
        raw_count(*n) <= MAX_TREE_SIZE,
        raw_rows_ok(*n),
    ensures
        final(out)@.len() == old(out)@.len() + py_fns_seq(n.children@, class_view(class)).len(),
        forall|i: int| 0 <= i < old(out)@.len() ==> final(out)@[i] == old(out)@[i],
        forall|i: int|
            0 <= i < py_fns_seq(n.children@, class_view(class)).len() ==> rec_matches(
                final(out)@[old(out)@.len() + i],
                #[trigger] py_fns_seq(n.children@, class_view(class))[i],
            ),
    decreases *n, 0nat,
{
    let ghost base = out@.len() as int;
    let len = n.children.len();
    let mut i: usize = 0;
    while i < len
        invariant
            0 <= i <= len,
            len == n.children@.len(),
            raw_count(*n) <= MAX_TREE_SIZE,
            raw_rows_ok(*n),
            base == old(out)@.len(),
            out@.len() == base + py_fns_seq(n.children@.take(i as int), class_view(class)).len(),
            forall|k: int| 0 <= k < base ==> out@[k] == old(out)@[k],
            forall|k: int|
                0 <= k < py_fns_seq(n.children@.take(i as int), class_view(class)).len()
                    ==> rec_matches(
                    out@[base + k],
                    #[trigger] py_fns_seq(n.children@.take(i as int), class_view(class))[k],
                ),
        decreases len - i,
    {
        proof {
            lemma_raw_take_unsnoc(n.children@, i as int + 1);
            lemma_raw_count_member(n.children@, i as int);
            assert(raw_count_seq(n.children@) < raw_count(*n));
            assert(raw_rows_ok(n.children@[i as int]));
        }
        let ghost snap = out@;
        visit_fns(&n.children[i], class, out);
        proof {
            let cv = class_view(class);
            let prev = py_fns_seq(n.children@.take(i as int), cv);
            let child_models = py_fns(n.children@[i as int], cv);
            let cur = py_fns_seq(n.children@.take(i as int + 1), cv);
            assert(cur == prev + child_models);
            assert forall|k: int| 0 <= k < cur.len() implies rec_matches(
                out@[base + k],
                cur[k],
            ) by {
                if k < prev.len() {
                    assert(out@[base + k] == snap[base + k]);
                    assert(rec_matches(snap[base + k], prev[k]));
                    assert(cur[k] == prev[k]);
                } else {
                    let j = k - prev.len();
                    assert(cur[k] == child_models[j]);
                    assert(rec_matches(out@[snap.len() as int + j], child_models[j]));
                    assert(base + k == snap.len() as int + j);
                }
            }
        }
        i += 1;
    }
    proof {
        assert(n.children@.take(len as int) =~= n.children@);
    }
}

/// Walk one node, appending every class definition in traversal order.
pub fn visit_types(n: &RawNode, out: &mut Vec<GenericTypeDef>)
    requires
        raw_rows_ok(*n),
    ensures
        final(out)@.len() == old(out)@.len() + py_types(*n).len(),
        forall|i: int| 0 <= i < old(out)@.len() ==> final(out)@[i] == old(out)@[i],
        forall|i: int|
            0 <= i < py_types(*n).len() ==> type_rec_matches(
                final(out)@[old(out)@.len() + i],
                #[trigger] py_types(*n)[i],
            ),
    decreases *n,
{
    let is_class = crate::raw::str_is(&n.kind, "class_definition");
    if is_class {
        match find_field_exec(&n.children, "name") {
            Some(ni) => {
                out.push(
                    GenericTypeDef {
                        name: n.children[ni].text.clone(),
                        kind: TypeDefKind::Class,
                        start_line: n.start_row + 1,
                        end_line: n.end_row + 1,
                    },
                );
            },
            None => {},
        }
    }
    let ghost pre = out@;
    let ghost hlen = pre.len() - old(out)@.len();
    proof {
        assert(py_types(*n).len() == hlen + py_types_seq(n.children@).len());
        assert(forall|k: int|
            0 <= k < hlen ==> type_rec_matches(
                #[trigger] pre[old(out)@.len() + k],
                py_types(*n)[k],
            ));
    }
    let len = n.children.len();
    let mut i: usize = 0;
    while i < len
        invariant
            0 <= i <= len,
            len == n.children@.len(),
            raw_rows_ok(*n),
            pre.len() == old(out)@.len() + hlen,
            0 <= hlen,
            out@.len() == pre.len() + py_types_seq(n.children@.take(i as int)).len(),
            forall|k: int| 0 <= k < pre.len() ==> out@[k] == pre[k],
            forall|k: int|
                0 <= k < py_types_seq(n.children@.take(i as int)).len() ==> type_rec_matches(
                    out@[pre.len() + k],
                    #[trigger] py_types_seq(n.children@.take(i as int))[k],
                ),
        decreases len - i,
    {
        proof {
            lemma_raw_take_unsnoc(n.children@, i as int + 1);
            assert(raw_rows_ok(n.children@[i as int]));
        }
        let ghost snap = out@;
        visit_types(&n.children[i], out);
        proof {
            let prev = py_types_seq(n.children@.take(i as int));
            let child_models = py_types(n.children@[i as int]);
            let cur = py_types_seq(n.children@.take(i as int + 1));
            assert(cur == prev + child_models);
            assert forall|k: int| 0 <= k < cur.len() implies type_rec_matches(
                out@[pre.len() + k],
                cur[k],
            ) by {
                if k < prev.len() {
                    assert(out@[pre.len() + k] == snap[pre.len() + k]);
                    assert(type_rec_matches(snap[pre.len() + k], prev[k]));
                    assert(cur[k] == prev[k]);
                } else {
                    let j = k - prev.len();
                    assert(cur[k] == child_models[j]);
                    assert(type_rec_matches(out@[snap.len() as int + j], child_models[j]));
                    assert(pre.len() + k == snap.len() as int + j);
                }
            }
        }
        i += 1;
    }
    proof {
        assert(n.children@.take(len as int) =~= n.children@);
        let all = py_types(*n);
        let kids = py_types_seq(n.children@);
        assert(all.len() == hlen + kids.len());
        assert forall|k: int| 0 <= k < all.len() implies type_rec_matches(
            out@[old(out)@.len() + k],
            all[k],
        ) by {
            if k < hlen {
                assert(type_rec_matches(pre[old(out)@.len() + k], all[k]));
                assert(out@[old(out)@.len() + k] == pre[old(out)@.len() + k]);
            } else {
                let j = k - hlen;
                assert(all[k] == kids[j]);
                assert(type_rec_matches(out@[pre.len() + j], kids[j]));
                assert(old(out)@.len() + k == pre.len() + j);
            }
        }
        assert forall|k: int| 0 <= k < old(out)@.len() implies out@[k] == old(out)@[k] by {
            assert(out@[k] == pre[k]);
            assert(pre[k] == old(out)@[k]);
        }
    }
}

} // verus!