//! Per-language descriptors: which file extensions select which grammar,
//! which node kinds are collected as chunks, which subtrees are pruned,
//! which node kinds are comments, and what counts as a documentation
//! comment in each language.

use vstd::prelude::*;
use crate::strutil::{is_prefix_of, trim_spec, str_eq, starts_with_str, trim};

verus! {

/// The languages with a known grammar.
#[derive(Clone, Copy, Debug, PartialEq, Eq, Structural)]
pub enum Lang {
    Rust,
    Python,
    Java,
    CSharp,
    Scala,
    Haskell,
    JavaScript,
    TypeScript,
    Tsx,
    Go,
    Ruby,
    FSharp,
}

/// The grammar selected by a file extension (without the dot).
pub open spec fn lang_for_ext_spec(e: Seq<char>) -> Option<Lang> {
    if e == "rs"@ {
        Some(Lang::Rust)
    } else if e == "py"@ {
        Some(Lang::Python)
    } else if e == "java"@ {
        Some(Lang::Java)
    } else if e == "cs"@ {
        Some(Lang::CSharp)
    } else if e == "scala"@ || e == "sc"@ {
        Some(Lang::Scala)
    } else if e == "hs"@ {
        Some(Lang::Haskell)
    } else if e == "js"@ || e == "cjs"@ || e == "mjs"@ || e == "jsx"@ {
        Some(Lang::JavaScript)
    } else if e == "ts"@ {
        Some(Lang::TypeScript)
    } else if e == "tsx"@ {
        Some(Lang::Tsx)
    } else if e == "go"@ {
        Some(Lang::Go)
    } else if e == "rb"@ {
        Some(Lang::Ruby)
    } else if e == "fs"@ || e == "fsx"@ {
        Some(Lang::FSharp)
    } else {
        None
    }
}

/// Executable mirror of [`lang_for_ext_spec`].
pub fn lang_for_ext(e: &str) -> (r: Option<Lang>)
    ensures
        r == lang_for_ext_spec(e@),
{
    if str_eq(e, "rs") {
        Some(Lang::Rust)
    } else if str_eq(e, "py") {
        Some(Lang::Python)
    } else if str_eq(e, "java") {
        Some(Lang::Java)
    } else if str_eq(e, "cs") {
        Some(Lang::CSharp)
    } else if str_eq(e, "scala") || str_eq(e, "sc") {
        Some(Lang::Scala)
    } else if str_eq(e, "hs") {
        Some(Lang::Haskell)
    } else if str_eq(e, "js") || str_eq(e, "cjs") || str_eq(e, "mjs") || str_eq(e, "jsx") {
        Some(Lang::JavaScript)
    } else if str_eq(e, "ts") {
        Some(Lang::TypeScript)
    } else if str_eq(e, "tsx") {
        Some(Lang::Tsx)
    } else if str_eq(e, "go") {
        Some(Lang::Go)
    } else if str_eq(e, "rb") {
        Some(Lang::Ruby)
    } else if str_eq(e, "fs") || str_eq(e, "fsx") {
        Some(Lang::FSharp)
    } else {
        None
    }
}

/// The canonical lowercase tag of a language.
pub open spec fn lang_tag_spec(l: Lang) -> Seq<char> {
    match l {
        Lang::Rust => "rust"@,
        Lang::Python => "python"@,
        Lang::Java => "java"@,
        Lang::CSharp => "csharp"@,
        Lang::Scala => "scala"@,
        Lang::Haskell => "haskell"@,
        Lang::JavaScript => "javascript"@,
        Lang::TypeScript => "typescript"@,
        Lang::Tsx => "tsx"@,
        Lang::Go => "go"@,
        Lang::Ruby => "ruby"@,
        Lang::FSharp => "fsharp"@,
    }
}

/// Executable mirror of [`lang_tag_spec`].
pub fn lang_tag(l: Lang) -> (r: &'static str)
    ensures
        r@ == lang_tag_spec(l),
{
    match l {
        Lang::Rust => "rust",
        Lang::Python => "python",
        Lang::Java => "java",
        Lang::CSharp => "csharp",
        Lang::Scala => "scala",
        Lang::Haskell => "haskell",
        Lang::JavaScript => "javascript",
        Lang::TypeScript => "typescript",
        Lang::Tsx => "tsx",
        Lang::Go => "go",
        Lang::Ruby => "ruby",
        Lang::FSharp => "fsharp",
    }
}

/// Node kinds that are collected as chunks for a language.
pub open spec fn interesting_spec(l: Lang, k: Seq<char>) -> bool {
    match l {
        Lang::Rust => k == "function_item"@ || k == "impl_item"@ || k == "struct_item"@ || k
            == "enum_item"@ || k == "trait_item"@ || k == "type_item"@ || k == "const_item"@ || k
            == "static_item"@ || k == "mod_item"@ || k == "macro_definition"@ || k == "union_item"@,
        Lang::Python => k == "function_definition"@ || k == "class_definition"@ || k
            == "decorated_definition"@,
        Lang::Java => k == "method_declaration"@ || k == "class_declaration"@ || k
            == "interface_declaration"@ || k == "enum_declaration"@ || k == "record_declaration"@
            || k == "annotation_type_declaration"@ || k == "constructor_declaration"@,
        Lang::CSharp => k == "method_declaration"@ || k == "class_declaration"@ || k
            == "interface_declaration"@ || k == "struct_declaration"@ || k == "enum_declaration"@
            || k == "record_declaration"@ || k == "delegate_declaration"@ || k
            == "property_declaration"@ || k == "constructor_declaration"@,
        Lang::Scala => k == "function_definition"@ || k == "class_definition"@ || k
            == "object_definition"@ || k == "trait_definition"@ || k == "enum_definition"@ || k
            == "given_definition"@ || k == "extension_definition"@ || k == "type_definition"@,
        Lang::Haskell => k == "function"@ || k == "data_type"@ || k == "newtype"@ || k == "class"@
            || k == "instance_decl"@ || k == "type_synomym"@ || k == "type_family"@,
        Lang::JavaScript => k == "function_declaration"@ || k == "class_declaration"@ || k
            == "method_definition"@ || k == "arrow_function"@ || k
            == "generator_function_declaration"@,
        Lang::TypeScript | Lang::Tsx => k == "function_declaration"@ || k == "class_declaration"@
            || k == "method_definition"@ || k == "interface_declaration"@ || k
            == "type_alias_declaration"@ || k == "enum_declaration"@,
        Lang::Go => k == "function_declaration"@ || k == "method_declaration"@ || k
            == "type_declaration"@ || k == "const_declaration"@ || k == "var_declaration"@,
        Lang::Ruby => k == "method"@ || k == "class"@ || k == "module"@ || k == "singleton_method"@
            || k == "singleton_class"@,
        Lang::FSharp => k == "value_declaration"@ || k == "declaration_expression"@ || k
            == "type_defn"@ || k == "type_definition"@ || k == "module_defn"@ || k == "namespace"@
            || k == "exception_definition"@,
    }
}

/// Executable mirror of [`interesting_spec`].
pub fn is_interesting_kind(l: Lang, k: &str) -> (r: bool)
    ensures
        r == interesting_spec(l, k@),
{
    match l {
        Lang::Rust => str_eq(k, "function_item") || str_eq(k, "impl_item") || str_eq(
            k,
            "struct_item",
        ) || str_eq(k, "enum_item") || str_eq(k, "trait_item") || str_eq(k, "type_item") || str_eq(
            k,
            "const_item",
        ) || str_eq(k, "static_item") || str_eq(k, "mod_item") || str_eq(k, "macro_definition")
            || str_eq(k, "union_item"),
        Lang::Python => str_eq(k, "function_definition") || str_eq(k, "class_definition")
            || str_eq(k, "decorated_definition"),
        Lang::Java => str_eq(k, "method_declaration") || str_eq(k, "class_declaration") || str_eq(
            k,
            "interface_declaration",
        ) || str_eq(k, "enum_declaration") || str_eq(k, "record_declaration") || str_eq(
            k,
            "annotation_type_declaration",
        ) || str_eq(k, "constructor_declaration"),
        Lang::CSharp => str_eq(k, "method_declaration") || str_eq(k, "class_declaration")
            || str_eq(k, "interface_declaration") || str_eq(k, "struct_declaration") || str_eq(
            k,
            "enum_declaration",
        ) || str_eq(k, "record_declaration") || str_eq(k, "delegate_declaration") || str_eq(
            k,
            "property_declaration",
        ) || str_eq(k, "constructor_declaration"),
        Lang::Scala => str_eq(k, "function_definition") || str_eq(k, "class_definition") || str_eq(
            k,
            "object_definition",
        ) || str_eq(k, "trait_definition") || str_eq(k, "enum_definition") || str_eq(
            k,
            "given_definition",
        ) || str_eq(k, "extension_definition") || str_eq(k, "type_definition"),
        Lang::Haskell => str_eq(k, "function") || str_eq(k, "data_type") || str_eq(k, "newtype")
            || str_eq(k, "class") || str_eq(k, "instance_decl") || str_eq(k, "type_synomym")
            || str_eq(k, "type_family"),
        Lang::JavaScript => str_eq(k, "function_declaration") || str_eq(k, "class_declaration")
            || str_eq(k, "method_definition") || str_eq(k, "arrow_function") || str_eq(
            k,
            "generator_function_declaration",
        ),
        Lang::TypeScript | Lang::Tsx => str_eq(k, "function_declaration") || str_eq(
            k,
            "class_declaration",
        ) || str_eq(k, "method_definition") || str_eq(k, "interface_declaration") || str_eq(
            k,
            "type_alias_declaration",
        ) || str_eq(k, "enum_declaration"),
        Lang::Go => str_eq(k, "function_declaration") || str_eq(k, "method_declaration") || str_eq(
            k,
            "type_declaration",
        ) || str_eq(k, "const_declaration") || str_eq(k, "var_declaration"),
        Lang::Ruby => str_eq(k, "method") || str_eq(k, "class") || str_eq(k, "module") || str_eq(
            k,
            "singleton_method",
        ) || str_eq(k, "singleton_class"),
        Lang::FSharp => str_eq(k, "value_declaration") || str_eq(k, "declaration_expression")
            || str_eq(k, "type_defn") || str_eq(k, "type_definition") || str_eq(k, "module_defn")
            || str_eq(k, "namespace") || str_eq(k, "exception_definition"),
    }
}

/// Node kinds whose subtree is never descended into while collecting chunks.
/// A grammar may reuse a kind for structurally different constructs; pruning
/// blocks the false positives.
pub open spec fn pruned_spec(l: Lang, k: Seq<char>) -> bool {
    match l {
        Lang::Haskell => k == "signature"@,
        _ => false,
    }
}

/// Executable membership in the prune set.
pub fn is_pruned_kind(l: Lang, k: &str) -> (r: bool)
    ensures
        r == pruned_spec(l, k@),
{
    match l {
        Lang::Haskell => str_eq(k, "signature"),
        _ => false,
    }
}

/// The prune set of a language, by tag.
pub fn prune_kinds_for(lang: &str) -> (r: Vec<&'static str>)
    ensures
        lang@ == "haskell"@ ==> r@.len() == 1 && r@[0]@ == "signature"@,
        lang@ != "haskell"@ ==> r@.len() == 0,
{
    let mut v: Vec<&'static str> = Vec::new();
    if str_eq(lang, "haskell") {
        v.push("signature");
    }
    v
}

/// Node kinds for which a doc-comment summary is extracted.  Constants,
/// type aliases and modules are skipped: their name is the summary.
pub open spec fn summary_kind_spec(lang: Seq<char>, k: Seq<char>) -> bool {
    if lang == "rust"@ {
        k == "function_item"@ || k == "impl_item"@ || k == "trait_item"@ || k == "struct_item"@
            || k == "enum_item"@
    } else if lang == "python"@ {
        k == "function_definition"@ || k == "class_definition"@ || k == "decorated_definition"@
    } else if lang == "javascript"@ {
        k == "function_declaration"@ || k == "class_declaration"@ || k == "method_definition"@ || k
            == "arrow_function"@ || k == "generator_function_declaration"@
    } else if lang == "typescript"@ || lang == "tsx"@ {
        k == "function_declaration"@ || k == "class_declaration"@ || k == "method_definition"@ || k
            == "interface_declaration"@
    } else if lang == "java"@ {
        k == "method_declaration"@ || k == "class_declaration"@ || k == "interface_declaration"@
            || k == "constructor_declaration"@
    } else if lang == "csharp"@ {
        k == "method_declaration"@ || k == "class_declaration"@ || k == "interface_declaration"@
            || k == "constructor_declaration"@ || k == "property_declaration"@
    } else if lang == "go"@ {
        k == "function_declaration"@ || k == "method_declaration"@
    } else if lang == "scala"@ {
        k == "function_definition"@ || k == "class_definition"@ || k == "trait_definition"@ || k
            == "given_definition"@ || k == "extension_definition"@
    } else if lang == "haskell"@ {
        k == "function"@ || k == "class"@ || k == "instance_decl"@
    } else if lang == "ruby"@ {
        k == "method"@ || k == "class"@ || k == "module"@ || k == "singleton_method"@ || k
            == "singleton_class"@
    } else if lang == "fsharp"@ {
        k == "value_declaration"@ || k == "declaration_expression"@ || k == "type_defn"@ || k
            == "type_definition"@
    } else {
        false
    }
}

/// Executable mirror of [`summary_kind_spec`].
pub fn is_summary_kind(lang: &str, kind: &str) -> (r: bool)
    ensures
        r == summary_kind_spec(lang@, kind@),
{
    if str_eq(lang, "rust") {
        str_eq(kind, "function_item") || str_eq(kind, "impl_item") || str_eq(kind, "trait_item")
            || str_eq(kind, "struct_item") || str_eq(kind, "enum_item")
    } else if str_eq(lang, "python") {
        str_eq(kind, "function_definition") || str_eq(kind, "class_definition") || str_eq(
            kind,
            "decorated_definition",
        )
    } else if str_eq(lang, "javascript") {
        str_eq(kind, "function_declaration") || str_eq(kind, "class_declaration") || str_eq(
            kind,
            "method_definition",
        ) || str_eq(kind, "arrow_function") || str_eq(kind, "generator_function_declaration")
    } else if str_eq(lang, "typescript") || str_eq(lang, "tsx") {
        str_eq(kind, "function_declaration") || str_eq(kind, "class_declaration") || str_eq(
            kind,
            "method_definition",
        ) || str_eq(kind, "interface_declaration")
    } else if str_eq(lang, "java") {
        str_eq(kind, "method_declaration") || str_eq(kind, "class_declaration") || str_eq(
            kind,
            "interface_declaration",
        ) || str_eq(kind, "constructor_declaration")
    } else if str_eq(lang, "csharp") {
        str_eq(kind, "method_declaration") || str_eq(kind, "class_declaration") || str_eq(
            kind,
            "interface_declaration",
        ) || str_eq(kind, "constructor_declaration") || str_eq(kind, "property_declaration")
    } else if str_eq(lang, "go") {
        str_eq(kind, "function_declaration") || str_eq(kind, "method_declaration")
    } else if str_eq(lang, "scala") {
        str_eq(kind, "function_definition") || str_eq(kind, "class_definition") || str_eq(
            kind,
            "trait_definition",
        ) || str_eq(kind, "given_definition") || str_eq(kind, "extension_definition")
    } else if str_eq(lang, "haskell") {
        str_eq(kind, "function") || str_eq(kind, "class") || str_eq(kind, "instance_decl")
    } else if str_eq(lang, "ruby") {
        str_eq(kind, "method") || str_eq(kind, "class") || str_eq(kind, "module") || str_eq(
            kind,
            "singleton_method",
        ) || str_eq(kind, "singleton_class")
    } else if str_eq(lang, "fsharp") {
        str_eq(kind, "value_declaration") || str_eq(kind, "declaration_expression") || str_eq(
            kind,
            "type_defn",
        ) || str_eq(kind, "type_definition")
    } else {
        false
    }
}

/// Node kinds that are comments in a language.
pub open spec fn comment_kind_spec(lang: Seq<char>, k: Seq<char>) -> bool {
    if lang == "rust"@ {
        k == "line_comment"@ || k == "block_comment"@
    } else if lang == "python"@ {
        k == "comment"@
    } else if lang == "java"@ {
        k == "block_comment"@ || k == "line_comment"@
    } else if lang == "csharp"@ {
        k == "comment"@ || k == "block_comment"@
    } else if lang == "javascript"@ || lang == "typescript"@ || lang == "tsx"@ {
        k == "comment"@
    } else if lang == "go"@ {
        k == "comment"@
    } else if lang == "scala"@ {
        k == "comment"@ || k == "block_comment"@
    } else if lang == "haskell"@ {
        k == "comment"@ || k == "block_comment"@ || k == "haddock"@
    } else if lang == "ruby"@ {
        k == "comment"@
    } else if lang == "fsharp"@ {
        k == "block_comment"@ || k == "line_comment"@ || k == "xml_doc"@
    } else {
        false
    }
}

/// Executable membership in the comment-kind set.
pub fn is_comment_kind(lang: &str, kind: &str) -> (r: bool)
    ensures
        r == comment_kind_spec(lang@, kind@),
{
    if str_eq(lang, "rust") {
        str_eq(kind, "line_comment") || str_eq(kind, "block_comment")
    } else if str_eq(lang, "python") {
        str_eq(kind, "comment")
    } else if str_eq(lang, "java") {
        str_eq(kind, "block_comment") || str_eq(kind, "line_comment")
    } else if str_eq(lang, "csharp") {
        str_eq(kind, "comment") || str_eq(kind, "block_comment")
    } else if str_eq(lang, "javascript") || str_eq(lang, "typescript") || str_eq(lang, "tsx") {
        str_eq(kind, "comment")
    } else if str_eq(lang, "go") {
        str_eq(kind, "comment")
    } else if str_eq(lang, "scala") {
        str_eq(kind, "comment") || str_eq(kind, "block_comment")
    } else if str_eq(lang, "haskell") {
        str_eq(kind, "comment") || str_eq(kind, "block_comment") || str_eq(kind, "haddock")
    } else if str_eq(lang, "ruby") {
        str_eq(kind, "comment")
    } else if str_eq(lang, "fsharp") {
        str_eq(kind, "block_comment") || str_eq(kind, "line_comment") || str_eq(kind, "xml_doc")
    } else {
        false
    }
}

/// The comment node kinds of a language, as a list.
pub fn comment_kinds_for(lang: &str) -> (r: Vec<&'static str>)
    ensures
        forall|i: int| 0 <= i < r@.len() ==> comment_kind_spec(lang@, #[trigger] r@[i]@),
        forall|k: Seq<char>|
            comment_kind_spec(lang@, k) ==> exists|i: int| 0 <= i < r@.len() && #[trigger] (
            r@[i]@) == k,
{
    let mut v: Vec<&'static str> = Vec::new();
    if str_eq(lang, "rust") {
        v.push("line_comment");
        v.push("block_comment");
    } else if str_eq(lang, "python") {
        v.push("comment");
    } else if str_eq(lang, "java") {
        v.push("block_comment");
        v.push("line_comment");
    } else if str_eq(lang, "csharp") {
        v.push("comment");
        v.push("block_comment");
    } else if str_eq(lang, "javascript") || str_eq(lang, "typescript") || str_eq(lang, "tsx") {
        v.push("comment");
    } else if str_eq(lang, "go") {
        v.push("comment");
    } else if str_eq(lang, "scala") {
        v.push("comment");
        v.push("block_comment");
    } else if str_eq(lang, "haskell") {
        v.push("comment");
        v.push("block_comment");
        v.push("haddock");
    } else if str_eq(lang, "ruby") {
        v.push("comment");
    } else if str_eq(lang, "fsharp") {
        v.push("block_comment");
        v.push("line_comment");
        v.push("xml_doc");
    }
    proof {
        assert forall|k: Seq<char>| comment_kind_spec(lang@, k) implies exists|i: int|
            0 <= i < v@.len() && #[trigger] (v@[i]@) == k by {
            if v@.len() > 0 && v@[0]@ == k {
            } else if v@.len() > 1 && v@[1]@ == k {
            } else if v@.len() > 2 && v@[2]@ == k {
            }
        }
    }
    v
}

/// Sibling kinds that may sit between a doc comment and its declaration and
/// are stepped over while collecting the summary.
pub open spec fn skip_kind_spec(lang: Seq<char>, k: Seq<char>) -> bool {
    lang == "haskell"@ && k == "signature"@
}

/// Executable mirror of [`skip_kind_spec`].
pub fn is_skip_kind(lang: &str, kind: &str) -> (r: bool)
    ensures
        r == skip_kind_spec(lang@, kind@),
{
    str_eq(lang, "haskell") && str_eq(kind, "signature")
}

/// A comment node is documentation: its trimmed text starts with the
/// language's doc marker (`///` or `/**` for Rust, C# and F#; `/**` for
/// Java, JavaScript, TypeScript, TSX and Scala; Haddock kind or `{-|` for
/// Haskell).  For Go, Ruby and Python every preceding comment counts as
/// documentation.
pub open spec fn doc_comment_spec(raw: Seq<char>, lang: Seq<char>, kind: Seq<char>) -> bool {
    let t = trim_spec(raw);
    if lang == "rust"@ || lang == "csharp"@ || lang == "fsharp"@ {
        is_prefix_of("///"@, t) || is_prefix_of("/**"@, t) || kind == "xml_doc"@
    } else if lang == "java"@ || lang == "javascript"@ || lang == "typescript"@ || lang == "tsx"@
        || lang == "scala"@ {
        is_prefix_of("/**"@, t)
    } else if lang == "haskell"@ {
        kind == "haddock"@ || is_prefix_of("{-|"@, t)
    } else {
        true
    }
}

/// Executable mirror of [`doc_comment_spec`].
pub fn is_doc_comment(raw: &str, lang: &str, kind: &str) -> (r: bool)
    ensures
        r == doc_comment_spec(raw@, lang@, kind@),
{
    let t = trim(raw);
    if str_eq(lang, "rust") || str_eq(lang, "csharp") || str_eq(lang, "fsharp") {
        starts_with_str(t.as_str(), "///") || starts_with_str(t.as_str(), "/**") || str_eq(
            kind,
            "xml_doc",
        )
    } else if str_eq(lang, "java") || str_eq(lang, "javascript") || str_eq(lang, "typescript")
        || str_eq(lang, "tsx") || str_eq(lang, "scala") {
        starts_with_str(t.as_str(), "/**")
    } else if str_eq(lang, "haskell") {
        str_eq(kind, "haddock") || starts_with_str(t.as_str(), "{-|")
    } else {
        true
    }
}

} // verus!
