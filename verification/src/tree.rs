//! A plain-value model of a parse tree, and the trusted declarations that
//! fill it from the tree-sitter grammars.
//!
//! The tree is a vector of nodes in preorder: each node carries its grammar
//! kind, its source text, its zero-based start and end rows, whether it is a
//! named node, and the index of its parent (the root, at index 0, points at
//! itself).  A node's children follow it in the vector, in source order,
//! each with its parent index pointing back at it; siblings therefore stand
//! in the vector in source order.

use vstd::prelude::*;

verus! {

/// One node of a parse tree, as plain values.
#[derive(Debug, Clone)]
pub struct SyntaxNode {
    pub kind: String,
    pub text: String,
    pub start_row: usize,
    pub end_row: usize,
    pub named: bool,
    pub parent: usize,
}

/// Well-formed node list: non-empty, the root is its own parent, and every
/// other node's parent stands before it.
pub open spec fn tree_wf(ns: Seq<SyntaxNode>) -> bool {
    &&& ns.len() >= 1
    &&& ns[0].parent == 0
    &&& forall|i: int| 1 <= i < ns.len() ==> (#[trigger] ns[i]).parent < i
}

#[verifier::external_type_specification]
#[verifier::external_body]
pub struct ExLanguage(tree_sitter::Language);

/// Relies on `tree_sitter_rust::LANGUAGE`: the Rust grammar.
#[verifier::external_body]
fn rust_language() -> tree_sitter::Language {
    tree_sitter_rust::LANGUAGE.into()
}

/// Relies on `tree_sitter_python::LANGUAGE`: the Python grammar.
#[verifier::external_body]
fn python_language() -> tree_sitter::Language {
    tree_sitter_python::LANGUAGE.into()
}

/// Relies on `tree_sitter_java::LANGUAGE`: the Java grammar.
#[verifier::external_body]
fn java_language() -> tree_sitter::Language {
    tree_sitter_java::LANGUAGE.into()
}

/// Relies on `tree_sitter_c_sharp::LANGUAGE`: the C# grammar.
#[verifier::external_body]
fn csharp_language() -> tree_sitter::Language {
    tree_sitter_c_sharp::LANGUAGE.into()
}

/// Relies on `tree_sitter_scala::LANGUAGE`: the Scala grammar.
#[verifier::external_body]
fn scala_language() -> tree_sitter::Language {
    tree_sitter_scala::LANGUAGE.into()
}

/// Relies on `tree_sitter_haskell::LANGUAGE`: the Haskell grammar.
#[verifier::external_body]
fn haskell_language() -> tree_sitter::Language {
    tree_sitter_haskell::LANGUAGE.into()
}

/// Relies on `tree_sitter_javascript::LANGUAGE`: the JavaScript grammar.
#[verifier::external_body]
fn javascript_language() -> tree_sitter::Language {
    tree_sitter_javascript::LANGUAGE.into()
}

/// Relies on `tree_sitter_typescript::LANGUAGE_TYPESCRIPT`.
#[verifier::external_body]
fn typescript_language() -> tree_sitter::Language {
    tree_sitter_typescript::LANGUAGE_TYPESCRIPT.into()
}

/// Relies on `tree_sitter_typescript::LANGUAGE_TSX`.
#[verifier::external_body]
fn tsx_language() -> tree_sitter::Language {
    tree_sitter_typescript::LANGUAGE_TSX.into()
}

/// Relies on `tree_sitter_go::LANGUAGE`: the Go grammar.
#[verifier::external_body]
fn go_language() -> tree_sitter::Language {
    tree_sitter_go::LANGUAGE.into()
}

/// Relies on `tree_sitter_ruby::LANGUAGE`: the Ruby grammar.
#[verifier::external_body]
fn ruby_language() -> tree_sitter::Language {
    tree_sitter_ruby::LANGUAGE.into()
}

/// Relies on `tree_sitter_fsharp::LANGUAGE_FSHARP`.
#[verifier::external_body]
fn fsharp_language() -> tree_sitter::Language {
    tree_sitter_fsharp::LANGUAGE_FSHARP.into()
}

/// The grammar for a language.
pub fn grammar_for(l: crate::lang::Lang) -> tree_sitter::Language {
    match l {
        crate::lang::Lang::Rust => rust_language(),
        crate::lang::Lang::Python => python_language(),
        crate::lang::Lang::Java => java_language(),
        crate::lang::Lang::CSharp => csharp_language(),
        crate::lang::Lang::Scala => scala_language(),
        crate::lang::Lang::Haskell => haskell_language(),
        crate::lang::Lang::JavaScript => javascript_language(),
        crate::lang::Lang::TypeScript => typescript_language(),
        crate::lang::Lang::Tsx => tsx_language(),
        crate::lang::Lang::Go => go_language(),
        crate::lang::Lang::Ruby => ruby_language(),
        crate::lang::Lang::FSharp => fsharp_language(),
    }
}

/// Relies on `tree_sitter::Parser::{new, set_language, parse}` and on the
/// node accessors `kind`, `is_named`, `start_position`, `end_position`,
/// `byte_range`, `child_count` and `child`: parses `content` and lists
/// every node of the tree in preorder.  The parent index of the root stays
/// 0 and every other node's parent index points at an earlier entry, by
/// construction of the walk; children follow their parent in source order.
/// Returns `None` where the grammar cannot be loaded or parsing fails.
#[verifier::external_body]
pub fn parse_nodes(language: &tree_sitter::Language, content: &str) -> (r: Option<Vec<SyntaxNode>>)
    ensures
        r matches Some(ns) ==> tree_wf(ns@),
{
    let mut parser = tree_sitter::Parser::new();
    parser.set_language(language).ok()?;
    let tree = parser.parse(content, None)?;
    let mut out = Vec::new();
    let mut stack = vec![(tree.root_node(), 0)];
    while let Some((n, parent)) = stack.pop() {
        let idx = out.len();
        out.push(SyntaxNode { kind: n.kind().to_string(), text: content[n.byte_range()].to_string(),
            start_row: n.start_position().row, end_row: n.end_position().row, named: n.is_named(), parent });
        for i in (0..n.child_count()).rev() { stack.push((n.child(i).unwrap(), idx)); }
    }
    Some(out)
}

} // verus!
