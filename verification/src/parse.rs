//! Parsing source text into raw trees through tree-sitter, and picking
//! the parser by file extension.
//!
//! The calls into tree-sitter are the only trusted code here: each
//! language's concrete syntax tree is a pure function of the source text,
//! named by an uninterpreted spec function, and everything downstream of
//! the raw tree is verified.

use vstd::prelude::*;

use crate::raw::Language;
use crate::raw::RawNode;
use crate::raw::converts;
use crate::raw::raw_ok;
use crate::raw::raw_ok_exec;
use crate::tree::TreeNode;

verus! {

#[verifier::external_type_specification]
#[verifier::external_body]
pub struct ExNode<'a>(tree_sitter::Node<'a>);

/// The concrete syntax tree that tree-sitter's Python grammar assigns to
/// a source text; `None` when the parser fails.
pub uninterp spec fn python_cst(source: Seq<char>) -> Option<RawNode>;

/// The concrete syntax tree that tree-sitter's TypeScript grammar assigns
/// to a source text; `None` when the parser fails.
pub uninterp spec fn typescript_cst(source: Seq<char>) -> Option<RawNode>;

/// Relies on tree_sitter::Node — kind, utf8_text, child, child_count,
/// field_name_for_child, start_position, end_position — to copy one
/// concrete node and its children into plain values.
#[verifier::external_body]
fn node_to_raw(node: tree_sitter::Node<'_>, source: &str, field: String) -> RawNode {
    let mut children: Vec<RawNode> = Vec::new();
    for i in 0..node.child_count() {
        let f = node.field_name_for_child(i).unwrap_or("").to_string();
        if let Some(c) = node.child(i) {
            children.push(node_to_raw(c, source, f));
        }
    }
    RawNode {
        kind: node.kind().to_string(),
        text: node.utf8_text(source.as_bytes()).unwrap_or("").to_string(),
        field,
        start_row: node.start_position().row as u64,
        end_row: node.end_position().row as u64,
        children,
    }
}

/// Relies on tree_sitter::Parser::{new, set_language, parse} with
/// tree_sitter_python::LANGUAGE: the resulting tree depends on the source
/// text alone, so it is named `python_cst`.
#[verifier::external_body]
fn ts_parse_python(source: &str) -> (r: Option<RawNode>)
    ensures
        r == python_cst(source@),
{
    let mut parser = tree_sitter::Parser::new();
    if parser.set_language(&tree_sitter_python::LANGUAGE.into()).is_err() {
        return None;
    }
    match parser.parse(source, None) {
        Some(tree) => Some(node_to_raw(tree.root_node(), source, String::new())),
        None => None,
    }
}

/// Relies on tree_sitter::Parser::{new, set_language, parse} with
/// tree_sitter_typescript::LANGUAGE_TYPESCRIPT: the resulting tree
/// depends on the source text alone, so it is named `typescript_cst`.
#[verifier::external_body]
fn ts_parse_typescript(source: &str) -> (r: Option<RawNode>)
    ensures
        r == typescript_cst(source@),
{
    let mut parser = tree_sitter::Parser::new();
    if parser.set_language(&tree_sitter_typescript::LANGUAGE_TYPESCRIPT.into()).is_err() {
        return None;
    }
    match parser.parse(source, None) {
        Some(tree) => Some(node_to_raw(tree.root_node(), source, String::new())),
        None => None,
    }
}

/// The concrete syntax tree of a language, by name.
pub open spec fn cst_of(lang: Language, s: Seq<char>) -> Option<RawNode> {
    match lang {
        Language::Python => python_cst(s),
        Language::TypeScript => typescript_cst(s),
    }
}

/// Fetch the raw concrete syntax tree for one language.
pub fn parse_raw(lang: Language, source: &str) -> (r: Option<RawNode>)
    ensures
        r == cst_of(lang, source@),
{
    match lang {
        Language::Python => ts_parse_python(source),
        Language::TypeScript => ts_parse_typescript(source),
    }
}

/// Parse a source text and convert its concrete syntax tree into an
/// ordered labeled tree with pre-order ids and cached sizes.
pub fn parse_to_tree(lang: Language, source: &str) -> (r: Result<TreeNode, String>)
    ensures
        match r {
            Ok(t) => {
                &&& cst_of(lang, source@) is Some
                &&& raw_ok(cst_of(lang, source@)->Some_0)
                &&& converts(cst_of(lang, source@)->Some_0, t, lang)
                &&& t.wf()
                &&& t.ids_from(0)
            },
            Err(_) => cst_of(lang, source@) is None || !raw_ok(
                cst_of(lang, source@)->Some_0,
            ),
        },
{
    match parse_raw(lang, source) {
        Some(raw) => {
            if raw_ok_exec(&raw) {
                Ok(crate::raw::convert(&raw, 0, lang))
            } else {
                Err("source tree too large".to_owned())
            }
        },
        None => Err("failed to parse source".to_owned()),
    }
}

/// Does `s` end in `ext`?
pub open spec fn ext_is(s: Seq<char>, ext: Seq<char>) -> bool {
    s.len() >= ext.len() && s.subrange(s.len() - ext.len(), s.len() as int) == ext
}

/// The language a file name selects, by its extension.
pub open spec fn lang_of_filename(s: Seq<char>) -> Option<Language> {
    if ext_is(s, ".py"@) {
        Some(Language::Python)
    } else if ext_is(s, ".ts"@) {
        Some(Language::TypeScript)
    } else {
        None
    }
}

/// Executable suffix test over unicode characters.
pub fn ends_with_exec(s: &str, ext: &str) -> (r: bool)
    ensures
        r == ext_is(s@, ext@),
{
    let n = s.unicode_len();
    let m = ext.unicode_len();
    if n < m {
        return false;
    }
    let mut i: usize = 0;
    while i < m
        invariant
            0 <= i <= m,
            m <= n,
            n == s@.len(),
            m == ext@.len(),
            forall|k: int| 0 <= k < i ==> s@[n - m + k] == ext@[k],
        decreases m - i,
    {
        let a = s.get_char(n - m + i);
        let b = ext.get_char(i);
        if a != b {
            assert(s@[n - m + i] != ext@[i as int]);
            assert(!ext_is(s@, ext@)) by {
                if ext_is(s@, ext@) {
                    assert(s@.subrange(n - m, n as int)[i as int] == ext@[i as int]);
                }
            }
            return false;
        }
        i += 1;
    }
    assert(s@.subrange(n - m, n as int) =~= ext@);
    true
}

/// A parser adapter for Python sources.
pub struct PythonParser {}

impl PythonParser {
    /// A fresh Python parser.
    pub fn new() -> (r: Result<PythonParser, String>)
        ensures
            r is Ok,
    {
        Ok(PythonParser {  })
    }

    /// Parse a Python source text into an ordered labeled tree.
    pub fn parse(&mut self, source: &str, _filename: &str) -> (r: Result<TreeNode, String>)
        ensures
            match r {
                Ok(t) => {
                    &&& python_cst(source@) is Some
                    &&& raw_ok(python_cst(source@)->Some_0)
                    &&& converts(python_cst(source@)->Some_0, t, Language::Python)
                    &&& t.wf()
                    &&& t.ids_from(0)
                },
                Err(_) => python_cst(source@) is None || !raw_ok(python_cst(source@)->Some_0),
            },
    {
        parse_to_tree(Language::Python, source)
    }

    /// Extract every function and method of a Python source, in
    /// traversal order.
    pub fn extract_functions(&mut self, source: &str, _filename: &str) -> (r: Result<
        Vec<crate::extract::GenericFunctionDef>,
        String,
    >)
        ensures
            match r {
                Ok(v) => {
                    &&& python_cst(source@) is Some
                    &&& raw_ok(python_cst(source@)->Some_0)
                    &&& v@.len() == crate::extract::py_fns(
                        python_cst(source@)->Some_0,
                        None,
                    ).len()
                    &&& forall|i: int|
                        0 <= i < v@.len() ==> crate::extract::rec_matches(
                            v@[i],
                            #[trigger] crate::extract::py_fns(
                                python_cst(source@)->Some_0,
                                None,
                            )[i],
                        )
                },
                Err(_) => python_cst(source@) is None || !raw_ok(python_cst(source@)->Some_0),
            },
    {
        match ts_parse_python(source) {
            Some(raw) => {
                if raw_ok_exec(&raw) {
                    let mut out: Vec<crate::extract::GenericFunctionDef> = Vec::new();
                    crate::extract::visit_fns(&raw, None, &mut out);
                    Ok(out)
                } else {
                    Err("source tree too large".to_owned())
                }
            },
            None => Err("Failed to parse Python source".to_owned()),
        }
    }

    /// Extract every class definition of a Python source.
    pub fn extract_types(&mut self, source: &str, _filename: &str) -> (r: Result<
        Vec<crate::extract::GenericTypeDef>,
        String,
    >)
        ensures
            match r {
                Ok(v) => {
                    &&& python_cst(source@) is Some
                    &&& raw_ok(python_cst(source@)->Some_0)
                    &&& v@.len() == crate::extract::py_types(python_cst(source@)->Some_0).len()
                    &&& forall|i: int|
                        0 <= i < v@.len() ==> crate::extract::type_rec_matches(
                            v@[i],
                            #[trigger] crate::extract::py_types(python_cst(source@)->Some_0)[i],
                        )
                },
                Err(_) => python_cst(source@) is None || !raw_ok(python_cst(source@)->Some_0),
            },
    {
        match ts_parse_python(source) {
            Some(raw) => {
                if raw_ok_exec(&raw) {
                    let mut out: Vec<crate::extract::GenericTypeDef> = Vec::new();
                    crate::extract::visit_types(&raw, &mut out);
                    Ok(out)
                } else {
                    Err("source tree too large".to_owned())
                }
            },
            None => Err("Failed to parse Python source".to_owned()),
        }
    }

    /// The language this adapter handles.
    pub fn language(&self) -> (l: Language)
        ensures
            l == Language::Python,
    {
        Language::Python
    }
}

/// Pick the parser for a file, by its extension.
pub fn detect_language(filename: &str) -> (r: Option<Language>)
    ensures
        r == lang_of_filename(filename@),
{
    if ends_with_exec(filename, ".py") {
        Some(Language::Python)
    } else if ends_with_exec(filename, ".ts") {
        Some(Language::TypeScript)
    } else {
        None
    }
}

} // verus!
