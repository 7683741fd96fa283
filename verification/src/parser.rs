//! The syntax-aware chunker: walk a parse tree, collect the nodes whose kind
//! is interesting for the language, name them, attach doc-comment summaries,
//! and window oversize spans.  Falls back to plain line windows when no
//! grammar applies or nothing was collected.

use vstd::prelude::*;
use vstd::string::*;
use crate::chunk::{
    chunk_line_ok, opt_str_view, opt_string_view, split_by_lines, window_count, window_ok,
    windows_over, Chunk,
};
use crate::clean::{strip_comment_markers, strip_comment_markers_spec, strip_python_docstring,
    strip_python_docstring_spec};
use crate::lang::{
    comment_kind_spec, doc_comment_spec, interesting_spec, is_comment_kind, is_doc_comment,
    is_interesting_kind, is_pruned_kind, is_skip_kind, is_summary_kind, lang_for_ext,
    lang_for_ext_spec, lang_tag, lang_tag_spec, pruned_spec, skip_kind_spec, summary_kind_spec,
    Lang,
};
use crate::strutil::{
    is_ws, is_ws_char, join_lines_spec, lead_ws, leading_ws_count, lemma_lead_ws, split_lines,
    split_lines_spec, str_eq, trim, trim_spec, trim_start_spec, views_of,
};
use crate::tree::{grammar_for, parse_nodes, tree_wf, SyntaxNode};

verus! {

// ─── file extensions ─────────────────────────────────────────────────────

/// Index of the last occurrence of `c` in `s`, or `-1`.
pub open spec fn last_index_of(s: Seq<char>, c: char) -> int
    decreases s.len(),
{
    if s.len() == 0 {
        -1
    } else if s[s.len() - 1] == c {
        s.len() - 1
    } else {
        last_index_of(s.drop_last(), c)
    }
}

pub proof fn lemma_last_index_of(s: Seq<char>, c: char)
    ensures
        -1 <= last_index_of(s, c) < s.len(),
        last_index_of(s, c) >= 0 ==> s[last_index_of(s, c)] == c,
        forall|j: int| last_index_of(s, c) < j < s.len() ==> s[j] != c,
    decreases s.len(),
{
    if s.len() == 0 {
    } else if s[s.len() - 1] == c {
    } else {
        lemma_last_index_of(s.drop_last(), c);
        assert forall|j: int| last_index_of(s, c) < j < s.len() implies s[j] != c by {
            if j < s.len() - 1 {
                assert(s.drop_last()[j] == s[j]);
            }
        }
        if last_index_of(s, c) >= 0 {
            assert(s.drop_last()[last_index_of(s.drop_last(), c)] == s[last_index_of(s, c)]);
        }
    }
}

/// Executable search for the last occurrence of `c`, as `Some(index)`.
#[verifier::loop_isolation(false)]
pub fn find_last(s: &str, c: char) -> (r: Option<usize>)
    ensures
        match r {
            Some(i) => i == last_index_of(s@, c),
            None => last_index_of(s@, c) == -1,
        },
{
    proof {
        lemma_last_index_of(s@, c);
    }
    let n = s.unicode_len();
    let mut i: usize = n;
    while i > 0
        invariant
            i <= n,
            forall|j: int| i <= j < n ==> s@[j] != c,
        decreases i,
    {
        if s.get_char(i - 1) == c {
            proof {
                if last_index_of(s@, c) > i - 1 {
                    assert(s@[last_index_of(s@, c)] == c);
                }
            }
            return Some(i - 1);
        }
        i -= 1;
    }
    proof {
        if last_index_of(s@, c) >= 0 {
            assert(s@[last_index_of(s@, c)] == c);
        }
    }
    None
}

/// The extension of a path: the text after the final `'.'`, provided that
/// dot stands after the final `'/'` and is not the first character of the
/// file name.  Empty otherwise.
pub open spec fn extension_spec(p: Seq<char>) -> Seq<char> {
    let d = last_index_of(p, '.');
    let sl = last_index_of(p, '/');
    if d > sl + 1 {
        p.subrange(d + 1, p.len() as int)
    } else {
        Seq::empty()
    }
}

/// Executable mirror of [`extension_spec`].
pub fn extension_of(path: &str) -> (r: String)
    ensures
        r@ == extension_spec(path@),
{
    proof {
        lemma_last_index_of(path@, '.');
        lemma_last_index_of(path@, '/');
    }
    let n = path.unicode_len();
    let d = find_last(path, '.');
    let sl = find_last(path, '/');
    match d {
        None => String::new(),
        Some(di) => {
            let ok = di >= 1 && (match sl {
                None => true,
                Some(s) => di >= 2 && di - 2 >= s,
            });
            if ok {
                path.substring_char(di + 1, n).to_owned()
            } else {
                String::new()
            }
        },
    }
}

// ─── tokens ──────────────────────────────────────────────────────────────

/// Length of the leading run of non-whitespace characters.
pub open spec fn first_ws(s: Seq<char>) -> nat
    decreases s.len(),
{
    if s.len() == 0 {
        0
    } else if is_ws(s[0]) {
        0
    } else {
        1 + first_ws(s.drop_first())
    }
}

pub proof fn lemma_first_ws(s: Seq<char>)
    ensures
        first_ws(s) <= s.len(),
        forall|j: int| 0 <= j < first_ws(s) ==> !is_ws(s[j]),
        first_ws(s) < s.len() ==> is_ws(s[first_ws(s) as int]),
    decreases s.len(),
{
    if s.len() == 0 || is_ws(s[0]) {
    } else {
        lemma_first_ws(s.drop_first());
        assert forall|j: int| 0 <= j < first_ws(s) implies !is_ws(s[j]) by {
            if j > 0 {
                assert(s.drop_first()[j - 1] == s[j]);
            }
        }
        if first_ws(s) < s.len() {
            assert(s.drop_first()[first_ws(s.drop_first()) as int] == s[first_ws(s) as int]);
        }
    }
}

/// The first whitespace-delimited token of `s`, or empty.
pub open spec fn first_token_spec(s: Seq<char>) -> Seq<char> {
    let u = trim_start_spec(s);
    u.subrange(0, first_ws(u) as int)
}

/// Executable mirror of [`first_token_spec`].
#[verifier::loop_isolation(false)]
pub fn first_token(s: &str) -> (r: String)
    ensures
        r@ == first_token_spec(s@),
{
    let a = leading_ws_count(s);
    proof {
        lemma_lead_ws(s@);
        crate::strutil::lemma_trim_start_at(s@, a as int);
    }
    let n = s.unicode_len();
    let ghost u = trim_start_spec(s@);
    proof {
        lemma_first_ws(u);
    }
    let mut b: usize = a;
    while b < n && !is_ws_char(s.get_char(b))
        invariant
            a <= b <= n,
            forall|j: int| a <= j < b ==> !is_ws(s@[j]),
        decreases n - b,
    {
        b += 1;
    }
    proof {
        assert(u =~= s@.subrange(a as int, n as int));
        assert forall|j: int| 0 <= j < b - a implies !is_ws(u[j]) by {
            assert(u[j] == s@[a + j]);
        }
        if b < n {
            assert(u[b - a] == s@[b as int]);
        }
        if first_ws(u) < b - a {
            assert(is_ws(u[first_ws(u) as int]));
        }
        if first_ws(u) > b - a {
            assert(!is_ws(u[(b - a) as int]));
        }
        assert(first_ws(u) == b - a);
        assert(u.subrange(0, (b - a) as int) =~= s@.subrange(a as int, b as int));
    }
    s.substring_char(a, b).to_owned()
}

// ─── siblings, ancestors, children ───────────────────────────────────────

/// The nearest index `q` at or below `from` that is a named sibling under
/// parent `p` (never the root).
pub open spec fn pns_scan(ns: Seq<SyntaxNode>, p: int, from: int) -> Option<int>
    decreases
            if from >= 0 {
                from
            } else {
                0
            },
{
    if from <= 0 || from >= ns.len() {
        None
    } else if ns[from].parent == p && ns[from].named {
        Some(from)
    } else {
        pns_scan(ns, p, from - 1)
    }
}

pub proof fn lemma_pns_scan(ns: Seq<SyntaxNode>, p: int, from: int)
    ensures
        pns_scan(ns, p, from) matches Some(q) ==> 1 <= q <= from && q < ns.len(),
    decreases
            if from >= 0 {
                from
            } else {
                0
            },
{
    if from <= 0 || from >= ns.len() {
    } else if ns[from].parent == p && ns[from].named {
    } else {
        lemma_pns_scan(ns, p, from - 1);
    }
}

/// Executable mirror of [`pns_scan`]: the previous named sibling.
pub fn prev_named_sibling(ns: &Vec<SyntaxNode>, p: usize, from: usize) -> (r: Option<usize>)
    requires
        from < ns@.len(),
    ensures
        pns_scan(ns@, p as int, from as int) == match r {
            Some(q) => Some(q as int),
            None => None::<int>,
        },
        r matches Some(q) ==> 1 <= q <= from,
    decreases from,
{
    if from == 0 {
        return None;
    }
    let node = &ns[from];
    if node.parent == p && node.named {
        Some(from)
    } else {
        prev_named_sibling(ns, p, from - 1)
    }
}

/// A node kind at which descent stops: one that is itself collected, or one
/// whose subtree is pruned for the language.
pub open spec fn stops_descent(l: Lang, k: Seq<char>) -> bool {
    interesting_spec(l, k) || pruned_spec(l, k)
}

/// The node has an ancestor at which descent stops, so the walk never
/// reaches it.
pub open spec fn blocked(ns: Seq<SyntaxNode>, i: int, l: Lang) -> bool
    decreases
            if i >= 0 {
                i
            } else {
                0
            },
{
    if i <= 0 || i >= ns.len() {
        false
    } else {
        let p = ns[i].parent as int;
        if p < i {
            stops_descent(l, ns[p].kind@) || blocked(ns, p, l)
        } else {
            false
        }
    }
}

/// Executable mirror of [`blocked`].
pub fn is_blocked(ns: &Vec<SyntaxNode>, i: usize, l: Lang) -> (r: bool)
    requires
        tree_wf(ns@),
        i < ns@.len(),
    ensures
        r == blocked(ns@, i as int, l),
    decreases i,
{
    if i == 0 {
        return false;
    }
    let p = ns[i].parent;
    let pk = &ns[p].kind;
    if is_interesting_kind(l, pk.as_str()) || is_pruned_kind(l, pk.as_str()) {
        true
    } else {
        is_blocked(ns, p, l)
    }
}

/// A node that the walk collects: interesting and not inside another
/// collected or pruned node.
pub open spec fn matched(ns: Seq<SyntaxNode>, i: int, l: Lang) -> bool {
    interesting_spec(l, ns[i].kind@) && !blocked(ns, i, l)
}

/// The first child of `i` at or after `j` whose kind is `k` (named nodes
/// only).
pub open spec fn child_scan(ns: Seq<SyntaxNode>, i: int, j: int, k: Seq<char>) -> Option<int>
    decreases ns.len() - j,
{
    if j >= ns.len() || j < 0 {
        None
    } else if ns[j].parent == i && j != 0 && ns[j].named && ns[j].kind@ == k {
        Some(j)
    } else {
        child_scan(ns, i, j + 1, k)
    }
}

/// Executable mirror of [`child_scan`].
pub fn find_child_of_kind(ns: &Vec<SyntaxNode>, i: usize, j: usize, k: &str) -> (r: Option<usize>)
    ensures
        child_scan(ns@, i as int, j as int, k@) == match r {
            Some(q) => Some(q as int),
            None => None::<int>,
        },
        r matches Some(q) ==> j <= q < ns@.len(),
    decreases ns@.len() - j,
{
    if j >= ns.len() {
        return None;
    }
    let node = &ns[j];
    if node.parent == i && j != 0 && node.named && str_eq(node.kind.as_str(), k) {
        Some(j)
    } else {
        find_child_of_kind(ns, i, j + 1, k)
    }
}

/// The first named child of `i` at or after `j`.
pub open spec fn named_child_scan(ns: Seq<SyntaxNode>, i: int, j: int) -> Option<int>
    decreases ns.len() - j,
{
    if j >= ns.len() || j < 0 {
        None
    } else if ns[j].parent == i && j != 0 && ns[j].named {
        Some(j)
    } else {
        named_child_scan(ns, i, j + 1)
    }
}

/// Executable mirror of [`named_child_scan`].
pub fn find_named_child(ns: &Vec<SyntaxNode>, i: usize, j: usize) -> (r: Option<usize>)
    ensures
        named_child_scan(ns@, i as int, j as int) == match r {
            Some(q) => Some(q as int),
            None => None::<int>,
        },
        r matches Some(q) ==> j <= q < ns@.len(),
    decreases ns@.len() - j,
{
    if j >= ns.len() {
        return None;
    }
    let node = &ns[j];
    if node.parent == i && j != 0 && node.named {
        Some(j)
    } else {
        find_named_child(ns, i, j + 1)
    }
}

// ─── symbol names ────────────────────────────────────────────────────────

/// The declaration name of node `i`: the text of its first identifier-like
/// child, the first token of an F# declaration left-hand side, or the name
/// found one level down a wrapped F# value definition.  Empty if none.
pub open spec fn node_name_spec(ns: Seq<SyntaxNode>, i: int, j: int) -> Seq<char>
    decreases ns.len() - j, 1int,
{
    if j >= ns.len() || j < 0 {
        Seq::empty()
    } else if ns[j].parent == i && j != 0 {
        let k = ns[j].kind@;
        if k == "identifier"@ || k == "type_identifier"@ || k == "simple_identifier"@ || k
            == "name"@ || k == "constant"@ || k == "variable"@ {
            ns[j].text@
        } else if k == "function_declaration_left"@ || k == "value_declaration_left"@ {
            first_token_spec(ns[j].text@)
        } else if k == "function_or_value_defn"@ {
            let nested = node_name_spec(ns, j, j + 1);
            if nested.len() > 0 {
                nested
            } else {
                node_name_spec(ns, i, j + 1)
            }
        } else {
            node_name_spec(ns, i, j + 1)
        }
    } else {
        node_name_spec(ns, i, j + 1)
    }
}

/// Executable mirror of [`node_name_spec`]: scan the children of `i`
/// starting at index `j`.
pub fn get_node_name(ns: &Vec<SyntaxNode>, i: usize, j: usize) -> (r: String)
    ensures
        r@ == node_name_spec(ns@, i as int, j as int),
    decreases ns@.len() - j, 1int,
{
    if j >= ns.len() {
        return String::new();
    }
    let node = &ns[j];
    if node.parent == i && j != 0 {
        let k = node.kind.as_str();
        if str_eq(k, "identifier") || str_eq(k, "type_identifier") || str_eq(k, "simple_identifier")
            || str_eq(k, "name") || str_eq(k, "constant") || str_eq(k, "variable") {
            node.text.clone()
        } else if str_eq(k, "function_declaration_left") || str_eq(k, "value_declaration_left") {
            first_token(node.text.as_str())
        } else if str_eq(k, "function_or_value_defn") {
            let nested = get_node_name(ns, j, j + 1);
            if nested.as_str().unicode_len() > 0 {
                nested
            } else {
                get_node_name(ns, i, j + 1)
            }
        } else {
            get_node_name(ns, i, j + 1)
        }
    } else {
        get_node_name(ns, i, j + 1)
    }
}

// ─── summaries ───────────────────────────────────────────────────────────

/// The raw text of the docstring node of a Python definition: the first
/// string expression opening the definition's body block.
pub open spec fn py_doc_spec(ns: Seq<SyntaxNode>, i: int) -> Option<Seq<char>> {
    match child_scan(ns, i, i + 1, "block"@) {
        None => None,
        Some(b) => match named_child_scan(ns, b, b + 1) {
            None => None,
            Some(s1) => if ns[s1].kind@ == "expression_statement"@ {
                match child_scan(ns, s1, s1 + 1, "string"@) {
                    None => None,
                    Some(st) => Some(ns[st].text@),
                }
            } else {
                None
            },
        },
    }
}

/// Executable mirror of [`py_doc_spec`].
pub fn extract_python_docstring(ns: &Vec<SyntaxNode>, i: usize) -> (r: Option<String>)
    requires
        i < ns@.len(),
    ensures
        opt_string_view(r) == py_doc_spec(ns@, i as int),
{
    let nlen = ns.len();
    match find_child_of_kind(ns, i, i + 1, "block") {
        None => None,
        Some(b) => match find_named_child(ns, b, b + 1) {
            None => None,
            Some(s1) => {
                if str_eq(ns[s1].kind.as_str(), "expression_statement") {
                    match find_child_of_kind(ns, s1, s1 + 1, "string") {
                        None => None,
                        Some(st) => Some(ns[st].text.clone()),
                    }
                } else {
                    None
                }
            },
        },
    }
}

/// Walk the preceding named siblings of `j`, stepping over skippable kinds,
/// collecting the cleaned texts of consecutive documentation comments in
/// source order.  The flag tells whether the walk exhausted the siblings
/// (`true`) or stopped against a non-skippable, non-doc sibling (`false`).
pub open spec fn collect_comments_spec(ns: Seq<SyntaxNode>, j: int, lang: Seq<char>) -> (Seq<
    Seq<char>,
>, bool)
    decreases
            if j >= 0 {
                j
            } else {
                0
            },
{
    if j <= 0 || j >= ns.len() {
        (Seq::empty(), true)
    } else {
        match pns_scan(ns, ns[j].parent as int, j - 1) {
            None => (Seq::empty(), true),
            Some(q) => {
                if 0 < q < j {
                    if comment_kind_spec(lang, ns[q].kind@) {
                        if doc_comment_spec(ns[q].text@, lang, ns[q].kind@) {
                            let (cs, ex) = collect_comments_spec(ns, q, lang);
                            (cs.push(strip_comment_markers_spec(ns[q].text@, lang)), ex)
                        } else {
                            (Seq::empty(), false)
                        }
                    } else if skip_kind_spec(lang, ns[q].kind@) {
                        collect_comments_spec(ns, q, lang)
                    } else {
                        (Seq::empty(), false)
                    }
                } else {
                    (Seq::empty(), true)
                }
            },
        }
    }
}

/// Executable mirror of [`collect_comments_spec`].
pub fn collect_comments(ns: &Vec<SyntaxNode>, j: usize, lang: &str) -> (r: (Vec<String>, bool))
    requires
        j < ns@.len(),
    ensures
        views_of(r.0@) == collect_comments_spec(ns@, j as int, lang@).0,
        r.1 == collect_comments_spec(ns@, j as int, lang@).1,
    decreases j,
{
    if j == 0 {
        let e: Vec<String> = Vec::new();
        proof {
            assert(views_of(e@) =~= Seq::<Seq<char>>::empty());
        }
        return (e, true);
    }
    let p = ns[j].parent;
    match prev_named_sibling(ns, p, j - 1) {
        None => {
            let e: Vec<String> = Vec::new();
            proof {
                assert(views_of(e@) =~= Seq::<Seq<char>>::empty());
            }
            (e, true)
        },
        Some(q) => {
            let qk = &ns[q];
            if is_comment_kind(lang, qk.kind.as_str()) {
                if is_doc_comment(qk.text.as_str(), lang, qk.kind.as_str()) {
                    let (mut cs, ex) = collect_comments(ns, q, lang);
                    let ghost old_cs = cs@;
                    cs.push(strip_comment_markers(qk.text.as_str(), lang));
                    proof {
                        assert(views_of(cs@) =~= views_of(old_cs).push(
                            strip_comment_markers_spec(ns@[q as int].text@, lang@),
                        ));
                    }
                    (cs, ex)
                } else {
                    let e: Vec<String> = Vec::new();
                    proof {
                        assert(views_of(e@) =~= Seq::<Seq<char>>::empty());
                    }
                    (e, false)
                }
            } else if is_skip_kind(lang, qk.kind.as_str()) {
                collect_comments(ns, q, lang)
            } else {
                let e: Vec<String> = Vec::new();
                proof {
                    assert(views_of(e@) =~= Seq::<Seq<char>>::empty());
                }
                (e, false)
            }
        },
    }
}

/// Walk the preceding named siblings of a wrapping declarations block,
/// collecting consecutive documentation comments in source order.
pub open spec fn collect_wrap_spec(ns: Seq<SyntaxNode>, j: int, lang: Seq<char>) -> Seq<Seq<char>>
    decreases
            if j >= 0 {
                j
            } else {
                0
            },
{
    if j <= 0 || j >= ns.len() {
        Seq::empty()
    } else {
        match pns_scan(ns, ns[j].parent as int, j - 1) {
            None => Seq::empty(),
            Some(q) => {
                if 0 < q < j && comment_kind_spec(lang, ns[q].kind@) && doc_comment_spec(
                    ns[q].text@,
                    lang,
                    ns[q].kind@,
                ) {
                    collect_wrap_spec(ns, q, lang).push(
                        strip_comment_markers_spec(ns[q].text@, lang),
                    )
                } else {
                    Seq::empty()
                }
            },
        }
    }
}

/// Executable mirror of [`collect_wrap_spec`].
pub fn collect_wrap(ns: &Vec<SyntaxNode>, j: usize, lang: &str) -> (r: Vec<String>)
    requires
        j < ns@.len(),
    ensures
        views_of(r@) == collect_wrap_spec(ns@, j as int, lang@),
    decreases j,
{
    if j == 0 {
        let e: Vec<String> = Vec::new();
        proof {
            assert(views_of(e@) =~= Seq::<Seq<char>>::empty());
        }
        return e;
    }
    let p = ns[j].parent;
    match prev_named_sibling(ns, p, j - 1) {
        None => {
            let e: Vec<String> = Vec::new();
            proof {
                assert(views_of(e@) =~= Seq::<Seq<char>>::empty());
            }
            e
        },
        Some(q) => {
            let qk = &ns[q];
            if is_comment_kind(lang, qk.kind.as_str()) && is_doc_comment(
                qk.text.as_str(),
                lang,
                qk.kind.as_str(),
            ) {
                let mut cs = collect_wrap(ns, q, lang);
                let ghost old_cs = cs@;
                cs.push(strip_comment_markers(qk.text.as_str(), lang));
                proof {
                    assert(views_of(cs@) =~= views_of(old_cs).push(
                        strip_comment_markers_spec(ns@[q as int].text@, lang@),
                    ));
                }
                cs
            } else {
                let e: Vec<String> = Vec::new();
                proof {
                    assert(views_of(e@) =~= Seq::<Seq<char>>::empty());
                }
                e
            }
        },
    }
}

/// Group inheritance: when the sibling walk of a node exhausts naturally
/// with nothing found, and the node sits in a wrapping declarations block,
/// the documentation collected before the block becomes the summary.
pub proof fn lemma_group_inheritance(ns: Seq<SyntaxNode>, i: int, lang: Seq<char>)
    requires
        lang == "haskell"@,
        lang != "python"@,
        0 < i < ns.len(),
        collect_comments_spec(ns, i, lang) == (Seq::<Seq<char>>::empty(), true),
        ns[ns[i].parent as int].kind@ == "declarations"@,
    ensures
        summary_of_node(ns, i, lang) == ({
            let joined = trim_spec(
                join_lines_spec(collect_wrap_spec(ns, ns[i].parent as int, lang)),
            );
            if joined.len() == 0 {
                None
            } else {
                Some(joined)
            }
        }),
{
}

/// A node whose nearest preceding named sibling is neither a documentation
/// comment nor skippable gets no summary from its siblings: a following
/// declaration never inherits the group's documentation.
pub proof fn lemma_blocked_sibling_no_summary(ns: Seq<SyntaxNode>, i: int, lang: Seq<char>)
    requires
        lang != "python"@,
        0 < i < ns.len(),
        collect_comments_spec(ns, i, lang) == (Seq::<Seq<char>>::empty(), false),
    ensures
        summary_of_node(ns, i, lang) is None,
{
    assert(join_lines_spec(Seq::<Seq<char>>::empty()).len() == 0);
    assert(trim_spec(Seq::<char>::empty()) == Seq::<char>::empty());
}

/// The summary of node `i`: a Python docstring when one opens the body;
/// otherwise the preceding documentation comments, inherited from before a
/// wrapping declarations block when the sibling walk exhausted naturally
/// and found nothing.  `None` when everything is empty.
pub open spec fn summary_of_node(ns: Seq<SyntaxNode>, i: int, lang: Seq<char>) -> Option<
    Seq<char>,
> {
    let pyd = py_doc_spec(ns, i);
    if lang == "python"@ && pyd is Some && strip_python_docstring_spec(pyd->Some_0).len() > 0 {
        Some(strip_python_docstring_spec(pyd->Some_0))
    } else {
        let (cs, ex) = collect_comments_spec(ns, i, lang);
        let cs2 = if lang == "haskell"@ && cs.len() == 0 && ex && 0 < i < ns.len()
            && ns[ns[i].parent as int].kind@ == "declarations"@ {
            collect_wrap_spec(ns, ns[i].parent as int, lang)
        } else {
            cs
        };
        let joined = trim_spec(join_lines_spec(cs2));
        if joined.len() == 0 {
            None
        } else {
            Some(joined)
        }
    }
}

/// Extract the docstring or preceding doc-comment block of node `i`.
pub fn extract_comment(ns: &Vec<SyntaxNode>, i: usize, lang: &str) -> (r: Option<String>)
    requires
        tree_wf(ns@),
        i < ns@.len(),
    ensures
        opt_string_view(r) == summary_of_node(ns@, i as int, lang@),
{
    if str_eq(lang, "python") {
        match extract_python_docstring(ns, i) {
            Some(doc) => {
                let stripped = strip_python_docstring(doc.as_str());
                if stripped.as_str().unicode_len() > 0 {
                    return Some(stripped);
                }
            },
            None => {},
        }
    }
    let (cs, ex) = collect_comments(ns, i, lang);
    let p = ns[i].parent;
    let cs2: Vec<String> = if str_eq(lang, "haskell") && cs.len() == 0 && ex && i > 0 && str_eq(
        ns[p].kind.as_str(),
        "declarations",
    ) {
        collect_wrap(ns, p, lang)
    } else {
        cs
    };
    let n2 = cs2.len();
    let joined = crate::strutil::join_range(&cs2, 0, n2);
    proof {
        assert(views_of(cs2@).subrange(0, cs2@.len() as int) =~= views_of(cs2@));
    }
    let trimmed = trim(joined.as_str());
    if trimmed.as_str().unicode_len() == 0 {
        None
    } else {
        Some(trimmed)
    }
}

// ─── chunk collection ────────────────────────────────────────────────────

/// End row of node `i` clamped into the file's lines.
pub open spec fn crow_e(ns: Seq<SyntaxNode>, i: int, nlines: int) -> int {
    if ns[i].end_row <= nlines - 1 {
        ns[i].end_row as int
    } else {
        nlines - 1
    }
}

/// Start row of node `i` clamped at its end row.
pub open spec fn crow_s(ns: Seq<SyntaxNode>, i: int, nlines: int) -> int {
    if ns[i].start_row <= crow_e(ns, i, nlines) {
        ns[i].start_row as int
    } else {
        crow_e(ns, i, nlines)
    }
}

/// The number of chunks node `i` yields: one window per `max` lines.
pub open spec fn node_group_len(ns: Seq<SyntaxNode>, i: int, nlines: int, max: int) -> nat {
    window_count((crow_e(ns, i, nlines) + 1 - crow_s(ns, i, nlines)) as nat, max as nat)
}

/// The summary chunk `i` carries: only for summary-eligible kinds.
pub open spec fn node_summary_spec(ns: Seq<SyntaxNode>, i: int, l: Lang) -> Option<Seq<char>> {
    if summary_kind_spec(lang_tag_spec(l), ns[i].kind@) {
        summary_of_node(ns, i, lang_tag_spec(l))
    } else {
        None
    }
}

/// Chunk `c` is window `w` of collected node `i`.
pub open spec fn chunk_from_node(
    c: Chunk,
    ns: Seq<SyntaxNode>,
    i: int,
    li: Seq<Seq<char>>,
    l: Lang,
    max: int,
    w: int,
) -> bool {
    let sr = crow_s(ns, i, li.len() as int);
    let er = crow_e(ns, i, li.len() as int);
    &&& c.language@ == lang_tag_spec(l)
    &&& c.node_kind@ == ns[i].kind@
    &&& c.symbol@ == node_name_spec(ns, i, i + 1)
    &&& opt_string_view(c.summary) == node_summary_spec(ns, i, l)
    &&& window_ok(c, li, sr, er + 1, sr, max, w)
}

/// Chunks contributed by the collected nodes among `ns[..i]`.
pub open spec fn chunks_upto(
    ns: Seq<SyntaxNode>,
    l: Lang,
    nlines: int,
    max: int,
    i: int,
) -> nat
    decreases
            if i >= 0 {
                i
            } else {
                0
            },
{
    if i <= 0 {
        0
    } else {
        chunks_upto(ns, l, nlines, max, i - 1) + if matched(ns, i - 1, l) {
            node_group_len(ns, i - 1, nlines, max)
        } else {
            0
        }
    }
}

/// The chunk list `cs` is exactly what walking tree `ns` over the file's
/// lines `li` collects: the groups of windows of the collected nodes, in
/// tree (source) order.
pub open spec fn collected_chunks(
    cs: Seq<Chunk>,
    ns: Seq<SyntaxNode>,
    li: Seq<Seq<char>>,
    l: Lang,
    max: int,
) -> bool {
    &&& cs.len() == chunks_upto(ns, l, li.len() as int, max, ns.len() as int)
    &&& forall|i: int, w: int|
        0 <= i < ns.len() && matched(ns, i, l) && 0 <= w < node_group_len(
            ns,
            i,
            li.len() as int,
            max,
        ) ==> chunk_from_node(
            #[trigger] cs[chunks_upto(ns, l, li.len() as int, max, i) + w],
            ns,
            i,
            li,
            l,
            max,
            w,
        )
}

/// Walk the tree and collect one chunk group per matched node.
#[verifier::loop_isolation(false)]
pub fn collect_chunks(ns: &Vec<SyntaxNode>, lines: &Vec<String>, l: Lang, max: usize) -> (r: Vec<
    Chunk,
>)
    requires
        tree_wf(ns@),
        max >= 1,
        1 <= lines@.len() <= u32::MAX,
    ensures
        collected_chunks(r@, ns@, views_of(lines@), l, max as int),
        forall|k: int|
            0 <= k < r@.len() ==> chunk_line_ok(#[trigger] r@[k], views_of(lines@), max as int),
        forall|k: int| 0 <= k < r@.len() ==> (#[trigger] r@[k]).language@ == lang_tag_spec(l),
{
    let nlen = ns.len();
    let llen = lines.len();
    let ghost lv = views_of(lines@);
    let tag = lang_tag(l);
    let mut r: Vec<Chunk> = Vec::new();
    let mut i: usize = 0;
    while i < nlen
        invariant
            i <= nlen,
            r@.len() == chunks_upto(ns@, l, lv.len() as int, max as int, i as int),
            forall|i2: int, w: int|
                0 <= i2 < i && matched(ns@, i2, l) && 0 <= w < node_group_len(
                    ns@,
                    i2,
                    lv.len() as int,
                    max as int,
                ) ==> chunk_from_node(
                    #[trigger] r@[chunks_upto(ns@, l, lv.len() as int, max as int, i2) + w],
                    ns@,
                    i2,
                    lv,
                    l,
                    max as int,
                    w,
                ),
            forall|k: int|
                0 <= k < r@.len() ==> chunk_line_ok(#[trigger] r@[k], lv, max as int),
            forall|k: int| 0 <= k < r@.len() ==> (#[trigger] r@[k]).language@ == lang_tag_spec(l),
        decreases nlen - i,
    {
        let interesting = is_interesting_kind(l, ns[i].kind.as_str());
        if interesting && !is_blocked(ns, i, l) {
            let er = if ns[i].end_row <= llen - 1 {
                ns[i].end_row
            } else {
                llen - 1
            };
            let sr = if ns[i].start_row <= er {
                ns[i].start_row
            } else {
                er
            };
            let symbol = get_node_name(ns, i, i + 1);
            let summary: Option<String> = if is_summary_kind(tag, ns[i].kind.as_str()) {
                extract_comment(ns, i, tag)
            } else {
                None
            };
            let sum_ref: Option<&str> = match &summary {
                Some(s) => Some(s.as_str()),
                None => None,
            };
            let kind_str = ns[i].kind.as_str();
            let mut group = windows_over(
                lines,
                sr,
                er + 1,
                symbol.as_str(),
                tag,
                sr as u32,
                max,
                kind_str,
                sum_ref,
            );
            let ghost old_r = r@;
            let ghost gview = group@;
            r.append(&mut group);
            proof {
                let nsv = ns@;
                let ii = i as int;
                let maxi = max as int;
                let nl = lv.len() as int;
                let cb = chunks_upto(nsv, l, nl, maxi, ii);
                let sri = crow_s(nsv, ii, nl);
                let eri = crow_e(nsv, ii, nl);
                assert(opt_str_view(sum_ref) == node_summary_spec(nsv, ii, l));
                assert(cb == old_r.len());
                assert(gview.len() == node_group_len(nsv, ii, nl, maxi));
                assert(chunks_upto(nsv, l, nl, maxi, ii + 1) == cb + node_group_len(
                    nsv,
                    ii,
                    nl,
                    maxi,
                ));
                assert forall|i2: int, w: int|
                    0 <= i2 < ii + 1 && matched(nsv, i2, l) && 0 <= w < node_group_len(
                        nsv,
                        i2,
                        nl,
                        maxi,
                    ) implies chunk_from_node(
                    #[trigger] r@[chunks_upto(nsv, l, nl, maxi, i2) + w],
                    nsv,
                    i2,
                    lv,
                    l,
                    maxi,
                    w,
                ) by {
                    if i2 < ii {
                        lemma_chunks_upto_mono(nsv, l, nl, maxi, i2 + 1, ii);
                        assert(chunks_upto(nsv, l, nl, maxi, i2) + w < chunks_upto(
                            nsv,
                            l,
                            nl,
                            maxi,
                            i2 + 1,
                        ));
                        assert(r@[chunks_upto(nsv, l, nl, maxi, i2) + w] == old_r[chunks_upto(
                            nsv,
                            l,
                            nl,
                            maxi,
                            i2,
                        ) + w]);
                    } else {
                        assert(r@[cb + w] == gview[w]);
                        assert(window_ok(gview[w], lv, sri, eri + 1, sri, maxi, w));
                    }
                }
                assert forall|k: int| old_r.len() <= k < r@.len() implies chunk_line_ok(
                    #[trigger] r@[k],
                    lv,
                    maxi,
                ) by {
                    let w = k - old_r.len();
                    assert(r@[k] == gview[w]);
                    assert(window_ok(r@[k], lv, sri, eri + 1, sri, maxi, w));
                    assert(lv.subrange(sri + w * maxi, (r@[k].end_line + 1) as int) =~= lv.subrange(
                        r@[k].start_line as int,
                        r@[k].end_line as int + 1,
                    ));
                }
            }
        } else {
            proof {
                assert(chunks_upto(ns@, l, lv.len() as int, max as int, i as int + 1)
                    == chunks_upto(ns@, l, lv.len() as int, max as int, i as int));
            }
        }
        i += 1;
    }
    r
}

/// Collected chunk counts grow with the walk.
pub proof fn lemma_chunks_upto_mono(
    ns: Seq<SyntaxNode>,
    l: Lang,
    nlines: int,
    max: int,
    a: int,
    b: int,
)
    requires
        a <= b,
    ensures
        chunks_upto(ns, l, nlines, max, a) <= chunks_upto(ns, l, nlines, max, b),
    decreases b - a,
{
    if a < b {
        lemma_chunks_upto_mono(ns, l, nlines, max, a, b - 1);
    }
}

/// The shape of whole-file fallback chunking: plain line windows with empty
/// symbol and node kind and no summary.
pub open spec fn fallback_shape(
    cs: Seq<Chunk>,
    li: Seq<Seq<char>>,
    tag: Seq<char>,
    max: int,
) -> bool {
    &&& cs.len() == window_count(li.len(), max as nat)
    &&& forall|w: int|
        0 <= w < cs.len() ==> window_ok(#[trigger] cs[w], li, 0, li.len() as int, 0, max, w)
    &&& forall|w: int|
        0 <= w < cs.len() ==> (#[trigger] cs[w]).language@ == tag && cs[w].symbol@
            == Seq::<char>::empty() && cs[w].node_kind@ == Seq::<char>::empty() && cs[w].summary
            is None
}

/// Parse `content` with the grammar of `l` and collect chunks; fall back to
/// line windows of the whole file when the parse fails or collects nothing.
#[verifier::loop_isolation(false)]
fn parse_with_grammar(content: &str, l: Lang, max_chunk_lines: usize) -> (r: Vec<Chunk>)
    requires
        max_chunk_lines >= 1,
        split_lines_spec(content@).len() <= u32::MAX,
    ensures
        (exists|nsv: Seq<SyntaxNode>|
            tree_wf(nsv) && collected_chunks(
                r@,
                nsv,
                split_lines_spec(content@),
                l,
                max_chunk_lines as int,
            ) && r@.len() > 0) || fallback_shape(
            r@,
            split_lines_spec(content@),
            lang_tag_spec(l),
            max_chunk_lines as int,
        ),
        forall|k: int|
            0 <= k < r@.len() ==> chunk_line_ok(
                #[trigger] r@[k],
                split_lines_spec(content@),
                max_chunk_lines as int,
            ),
        forall|k: int| 0 <= k < r@.len() ==> (#[trigger] r@[k]).language@ == lang_tag_spec(l),
{
    let tag = lang_tag(l);
    let lines = split_lines(content);
    let llen = lines.len();
    let grammar = grammar_for(l);
    if llen >= 1 {
        match parse_nodes(&grammar, content) {
            Some(nodes) => {
                let chunks = collect_chunks(&nodes, &lines, l, max_chunk_lines);
                if chunks.len() > 0 {
                    proof {
                        assert(tree_wf(nodes@));
                        assert(collected_chunks(
                            chunks@,
                            nodes@,
                            split_lines_spec(content@),
                            l,
                            max_chunk_lines as int,
                        ));
                    }
                    return chunks;
                }
            },
            None => {},
        }
    }
    let fb = split_by_lines(content, "", tag, 0, max_chunk_lines, "", None);
    proof {
        reveal_strlit("");
        assert(""@ =~= Seq::<char>::empty());
        assert(fallback_shape(
            fb@,
            split_lines_spec(content@),
            lang_tag_spec(l),
            max_chunk_lines as int,
        ));
        assert forall|k: int| 0 <= k < fb@.len() implies chunk_line_ok(
            #[trigger] fb@[k],
            split_lines_spec(content@),
            max_chunk_lines as int,
        ) by {
            let li = split_lines_spec(content@);
            let maxi = max_chunk_lines as int;
            assert(window_ok(fb@[k], li, 0, li.len() as int, 0, maxi, k));
            assert(li.subrange(k * maxi, (fb@[k].end_line + 1) as int) =~= li.subrange(
                fb@[k].start_line as int,
                fb@[k].end_line as int + 1,
            ));
        }
    }
    fb
}

/// The chunk-list position of window `w` of node `i`.
pub open spec fn group_slot(
    ns: Seq<SyntaxNode>,
    l: Lang,
    nlines: int,
    max: int,
    i: int,
    w: int,
) -> int {
    chunks_upto(ns, l, nlines, max, i) + w
}

/// Every position of a collected chunk list belongs to the window group of
/// some collected node.
pub proof fn lemma_chunk_index_decompose(
    ns: Seq<SyntaxNode>,
    l: Lang,
    nlines: int,
    max: int,
    u: int,
    t: int,
)
    requires
        0 <= u <= ns.len(),
        0 <= t < chunks_upto(ns, l, nlines, max, u),
    ensures
        exists|i: int, w: int|
            #![trigger group_slot(ns, l, nlines, max, i, w)]
            0 <= i < u && matched(ns, i, l) && 0 <= w < node_group_len(ns, i, nlines, max) && t
                == group_slot(ns, l, nlines, max, i, w),
    decreases u,
{
    if t < chunks_upto(ns, l, nlines, max, u - 1) {
        lemma_chunk_index_decompose(ns, l, nlines, max, u - 1, t);
    } else {
        assert(matched(ns, u - 1, l));
        let w = t - chunks_upto(ns, l, nlines, max, u - 1);
        assert(0 <= w < node_group_len(ns, u - 1, nlines, max));
        assert(t == group_slot(ns, l, nlines, max, u - 1, w));
    }
}

/// Chunk identity: when the collected declarations of a file occupy
/// pairwise disjoint line ranges, no two emitted chunks share a start line
/// (and so no two share both a start line and a symbol).  Split windows of
/// one oversize declaration advance by the window size, so they never
/// collide either.
#[verifier::rlimit(30)]
pub proof fn lemma_chunk_identity(
    cs: Seq<Chunk>,
    ns: Seq<SyntaxNode>,
    li: Seq<Seq<char>>,
    l: Lang,
    max: int,
)
    requires
        max >= 1,
        collected_chunks(cs, ns, li, l, max),
        forall|i: int, j: int|
            0 <= i < j < ns.len() && matched(ns, i, l) && matched(ns, j, l) ==> crow_e(
                ns,
                i,
                li.len() as int,
            ) < crow_s(ns, j, li.len() as int),
    ensures
        forall|a: int, b: int|
            0 <= a < b < cs.len() ==> (#[trigger] cs[a]).start_line != (#[trigger] cs[b]).start_line,
{
    let nl = li.len() as int;
    assert forall|a: int, b: int|
        0 <= a < b < cs.len() implies (#[trigger] cs[a]).start_line != (
    #[trigger] cs[b]).start_line by {
        lemma_chunk_index_decompose(ns, l, nl, max, ns.len() as int, a);
        lemma_chunk_index_decompose(ns, l, nl, max, ns.len() as int, b);
        let (i1, w1) = choose|i1: int, w1: int|
            #![trigger group_slot(ns, l, nl, max, i1, w1)]
            0 <= i1 < ns.len() && matched(ns, i1, l) && 0 <= w1 < node_group_len(ns, i1, nl, max)
                && a == group_slot(ns, l, nl, max, i1, w1);
        let (i2, w2) = choose|i2: int, w2: int|
            #![trigger group_slot(ns, l, nl, max, i2, w2)]
            0 <= i2 < ns.len() && matched(ns, i2, l) && 0 <= w2 < node_group_len(ns, i2, nl, max)
                && b == group_slot(ns, l, nl, max, i2, w2);
        assert(a == chunks_upto(ns, l, nl, max, i1) + w1);
        assert(b == chunks_upto(ns, l, nl, max, i2) + w2);
        assert(chunk_from_node(cs[a], ns, i1, li, l, max, w1));
        assert(chunk_from_node(cs[b], ns, i2, li, l, max, w2));
        let s1 = crow_s(ns, i1, nl);
        let e1 = crow_e(ns, i1, nl);
        let s2 = crow_s(ns, i2, nl);
        let e2 = crow_e(ns, i2, nl);
        if i1 == i2 {
            assert(w1 != w2);
            assert(cs[a].start_line == s1 + w1 * max);
            assert(cs[b].start_line == s1 + w2 * max);
            assert(w1 * max != w2 * max) by (nonlinear_arith)
                requires
                    w1 != w2,
                    max >= 1,
                    w1 >= 0,
                    w2 >= 0,
            ;
        } else {
            lemma_start_within(cs[a], ns, i1, li, l, max, w1);
            lemma_start_within(cs[b], ns, i2, li, l, max, w2);
            if i1 < i2 {
                assert(e1 < s2);
            } else {
                assert(e2 < s1);
            }
        }
    }
}

/// A window of a node starts and ends inside the node's clamped row range.
proof fn lemma_start_within(
    c: Chunk,
    ns: Seq<SyntaxNode>,
    i: int,
    li: Seq<Seq<char>>,
    l: Lang,
    max: int,
    w: int,
)
    requires
        max >= 1,
        0 <= w < node_group_len(ns, i, li.len() as int, max),
        chunk_from_node(c, ns, i, li, l, max, w),
    ensures
        crow_s(ns, i, li.len() as int) <= c.start_line <= c.end_line <= crow_e(
            ns,
            i,
            li.len() as int,
        ),
{
    let s = crow_s(ns, i, li.len() as int);
    let e = crow_e(ns, i, li.len() as int);
    assert(c.start_line == s + w * max);
    assert(w * max >= 0) by (nonlinear_arith)
        requires
            w >= 0,
            max >= 1,
    ;
    lemma_window_count_start(((e + 1) - s) as nat, max as nat, w);
}

/// Window `w` of a `count(n, max)`-window cover starts inside the `n` lines.
proof fn lemma_window_count_start(n: nat, max: nat, w: int)
    requires
        max >= 1,
        0 <= w < window_count(n, max),
    ensures
        w * max < n,
    decreases n,
{
    if n == 0 {
    } else if n <= max {
        assert(w == 0);
        assert(w * max == 0) by (nonlinear_arith)
            requires
                w == 0,
        ;
    } else {
        if w > 0 {
            lemma_window_count_start((n - max) as nat, max, w - 1);
            assert((w - 1) * max == w * max - max) by (nonlinear_arith);
        } else {
            assert(w * max == 0) by (nonlinear_arith)
                requires
                    w == 0,
            ;
        }
    }
}

/// Parse one source file into chunks.  The grammar is chosen by the file
/// extension; unknown extensions yield no chunks.  Every emitted chunk is
/// line-faithful (its content is exactly its lines of the file) and holds
/// at most `max_chunk_lines` lines; the chunks are the collected groups of
/// some well-formed parse tree, or whole-file line windows as fallback.
pub fn parse_file(path: &str, content: &str, max_chunk_lines: usize) -> (r: Vec<Chunk>)
    requires
        max_chunk_lines >= 1,
        split_lines_spec(content@).len() <= u32::MAX,
    ensures
        forall|k: int|
            0 <= k < r@.len() ==> chunk_line_ok(
                #[trigger] r@[k],
                split_lines_spec(content@),
                max_chunk_lines as int,
            ),
        lang_for_ext_spec(extension_spec(path@)) is None ==> r@.len() == 0,
        match lang_for_ext_spec(extension_spec(path@)) {
            None => r@.len() == 0,
            Some(l) => ((exists|nsv: Seq<SyntaxNode>|
                tree_wf(nsv) && collected_chunks(
                    r@,
                    nsv,
                    split_lines_spec(content@),
                    l,
                    max_chunk_lines as int,
                ) && r@.len() > 0) || fallback_shape(
                r@,
                split_lines_spec(content@),
                lang_tag_spec(l),
                max_chunk_lines as int,
            )) && forall|k: int|
                0 <= k < r@.len() ==> (#[trigger] r@[k]).language@ == lang_tag_spec(l),
        },
{
    let ext = extension_of(path);
    match lang_for_ext(ext.as_str()) {
        None => Vec::new(),
        Some(l) => parse_with_grammar(content, l, max_chunk_lines),
    }
}

} // verus!
