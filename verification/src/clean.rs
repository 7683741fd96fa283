//! Cleaning of raw comment and docstring text: marker stripping for block
//! and line comments, XML-tag removal for C# doc comments, and Python
//! docstring delimiter stripping with dedenting.

use vstd::prelude::*;
use vstd::string::*;
use crate::strutil::{
    ends_with_str, is_prefix_of, is_suffix_of, is_ws, is_ws_char, join_lines_spec, join_range, lead_ws,
    leading_ws_count, push_char, split_lines, split_lines_spec, starts_with_str, str_eq,
    strip_prefix_if, strip_prefix_if_str, strip_suffix_if, strip_suffix_if_str, trim,
    trim_end_spec, trim_spec, trim_start_spec, views_of,
};

verus! {

/// One pass of XML-tag removal over a line: characters between `'<'` and
/// `'>'` are dropped, the delimiters themselves too.
pub open spec fn strip_tags_chars(s: Seq<char>, in_tag: bool) -> Seq<char>
    decreases s.len(),
{
    if s.len() == 0 {
        seq![]
    } else {
        let c = s[0];
        let rest = s.drop_first();
        if c == '<' {
            strip_tags_chars(rest, true)
        } else if c == '>' {
            strip_tags_chars(rest, false)
        } else if !in_tag {
            seq![c] + strip_tags_chars(rest, in_tag)
        } else {
            strip_tags_chars(rest, in_tag)
        }
    }
}

/// A cleaned line of a C# doc comment: tags removed, then trimmed.
pub open spec fn strip_xml_line(l: Seq<char>) -> Seq<char> {
    trim_spec(strip_tags_chars(l, false))
}

/// Clean every line with [`strip_xml_line`] and drop the lines that become
/// empty.
pub open spec fn xml_lines(ls: Seq<Seq<char>>) -> Seq<Seq<char>>
    decreases ls.len(),
{
    if ls.len() == 0 {
        seq![]
    } else {
        let h = strip_xml_line(ls[0]);
        let rest = xml_lines(ls.drop_first());
        if h.len() > 0 {
            seq![h] + rest
        } else {
            rest
        }
    }
}

/// The text with all `<`…`>` spans removed per line, tag-emptied lines
/// dropped, and the rest joined with newlines.
pub open spec fn strip_xml_spec(s: Seq<char>) -> Seq<char> {
    join_lines_spec(xml_lines(split_lines_spec(s)))
}

pub proof fn lemma_strip_tags_clean(s: Seq<char>, in_tag: bool)
    ensures
        forall|i: int|
            0 <= i < strip_tags_chars(s, in_tag).len() ==> #[trigger] strip_tags_chars(s, in_tag)[i]
                != '<' && strip_tags_chars(s, in_tag)[i] != '>',
    decreases s.len(),
{
    if s.len() == 0 {
    } else {
        let c = s[0];
        let rest = s.drop_first();
        lemma_strip_tags_clean(rest, true);
        lemma_strip_tags_clean(rest, false);
        let r = strip_tags_chars(s, in_tag);
        assert forall|i: int| 0 <= i < r.len() implies #[trigger] r[i] != '<' && r[i] != '>' by {
            if c == '<' {
                assert(r[i] == strip_tags_chars(rest, true)[i]);
            } else if c == '>' {
                assert(r[i] == strip_tags_chars(rest, false)[i]);
            } else if !in_tag {
                if i == 0 {
                    assert(r[i] == c);
                } else {
                    assert(r[i] == strip_tags_chars(rest, in_tag)[i - 1]);
                }
            } else {
                assert(r[i] == strip_tags_chars(rest, in_tag)[i]);
            }
        }
    }
}

/// Characters survive a trim only if they stood in the text before.
pub proof fn lemma_trim_start_chars(s: Seq<char>, c: char)
    requires
        forall|i: int| 0 <= i < s.len() ==> s[i] != c,
    ensures
        forall|i: int|
            0 <= i < trim_start_spec(s).len() ==> #[trigger] trim_start_spec(s)[i] != c,
    decreases s.len(),
{
    if s.len() > 0 && is_ws(s[0]) {
        assert forall|i: int| 0 <= i < s.drop_first().len() implies s.drop_first()[i] != c by {
            assert(s.drop_first()[i] == s[i + 1]);
        }
        lemma_trim_start_chars(s.drop_first(), c);
        assert forall|i: int| 0 <= i < trim_start_spec(s).len() implies #[trigger] trim_start_spec(
            s,
        )[i] != c by {
            assert(trim_start_spec(s)[i] == trim_start_spec(s.drop_first())[i]);
        }
    }
}

pub proof fn lemma_trim_end_chars(s: Seq<char>, c: char)
    requires
        forall|i: int| 0 <= i < s.len() ==> s[i] != c,
    ensures
        forall|i: int| 0 <= i < trim_end_spec(s).len() ==> #[trigger] trim_end_spec(s)[i] != c,
    decreases s.len(),
{
    if s.len() > 0 && is_ws(s[s.len() - 1]) {
        lemma_trim_end_chars(s.drop_last(), c);
        assert forall|i: int| 0 <= i < trim_end_spec(s).len() implies #[trigger] trim_end_spec(
            s,
        )[i] != c by {
            assert(trim_end_spec(s)[i] == trim_end_spec(s.drop_last())[i]);
        }
    }
}

/// No `'<'` or `'>'` survives [`strip_xml_spec`].
pub proof fn lemma_strip_xml_clean_lines(ls: Seq<Seq<char>>, c: char)
    requires
        c == '<' || c == '>',
    ensures
        forall|k: int, i: int|
            0 <= k < xml_lines(ls).len() && 0 <= i < xml_lines(ls)[k].len() ==> #[trigger] (
            xml_lines(ls)[k][i]) != c,
    decreases ls.len(),
{
    if ls.len() == 0 {
    } else {
        let raw = strip_tags_chars(ls[0], false);
        let h = strip_xml_line(ls[0]);
        lemma_strip_tags_clean(ls[0], false);
        lemma_trim_start_chars(raw, c);
        lemma_trim_end_chars(trim_start_spec(raw), c);
        lemma_strip_xml_clean_lines(ls.drop_first(), c);
        let rest = xml_lines(ls.drop_first());
        if h.len() > 0 {
            assert forall|k: int, i: int|
                0 <= k < xml_lines(ls).len() && 0 <= i < xml_lines(ls)[k].len() implies #[trigger] (
            xml_lines(ls)[k][i]) != c by {
                if k == 0 {
                    assert(xml_lines(ls)[0] == h);
                } else {
                    assert(xml_lines(ls)[k] == rest[k - 1]);
                }
            }
        }
    }
}

pub proof fn lemma_join_clean(ls: Seq<Seq<char>>, c: char)
    requires
        c != '\n',
        forall|k: int, i: int|
            0 <= k < ls.len() && 0 <= i < ls[k].len() ==> #[trigger] (ls[k][i]) != c,
    ensures
        forall|i: int| 0 <= i < join_lines_spec(ls).len() ==> #[trigger] join_lines_spec(ls)[i]
            != c,
    decreases ls.len(),
{
    if ls.len() == 0 {
    } else if ls.len() == 1 {
        assert forall|i: int| 0 <= i < join_lines_spec(ls).len() implies #[trigger] join_lines_spec(
            ls,
        )[i] != c by {
            assert(join_lines_spec(ls)[i] == ls[0][i]);
        }
    } else {
        assert forall|k: int, i: int|
            0 <= k < ls.drop_first().len() && 0 <= i < ls.drop_first()[k].len() implies #[trigger] (
        ls.drop_first()[k][i]) != c by {
            assert(ls.drop_first()[k] == ls[k + 1]);
        }
        lemma_join_clean(ls.drop_first(), c);
        let j = join_lines_spec(ls);
        let rest = join_lines_spec(ls.drop_first());
        assert forall|i: int| 0 <= i < j.len() implies #[trigger] j[i] != c by {
            if i < ls[0].len() {
                assert(j[i] == ls[0][i]);
            } else if i == ls[0].len() {
                assert(j[i] == '\n');
            } else {
                assert(j[i] == rest[i - ls[0].len() - 1]);
            }
        }
    }
}

/// Remove XML tags (`<`…`>`) from each line of `s`, trim the lines, drop
/// the lines that become empty, and join the rest with newlines.  The
/// result never contains `'<'` or `'>'`.
#[verifier::loop_isolation(false)]
pub fn strip_xml_tags(s: &str) -> (r: String)
    ensures
        r@ == strip_xml_spec(s@),
        forall|i: int| 0 <= i < r@.len() ==> r@[i] != '<' && r@[i] != '>',
{
    let lines = split_lines(s);
    let n = lines.len();
    let ghost lsv = views_of(lines@);
    let mut out: Vec<String> = Vec::new();
    let mut k: usize = 0;
    proof {
        assert(views_of(out@) =~= Seq::<Seq<char>>::empty());
        assert(lsv.subrange(0, n as int) =~= lsv);
        assert(Seq::<Seq<char>>::empty() + xml_lines(lsv) =~= xml_lines(lsv));
    }
    while k < n
        invariant
            k <= n,
            xml_lines(lsv) == views_of(out@) + xml_lines(lsv.subrange(k as int, n as int)),
        decreases n - k,
    {
        let line = &lines[k];
        let m = line.as_str().unicode_len();
        let mut acc = String::new();
        let mut in_tag = false;
        let mut i: usize = 0;
        proof {
            assert(line@.subrange(0, m as int) =~= line@);
        }
        while i < m
            invariant
                i <= m,
                m == line@.len(),
                strip_tags_chars(line@, false) == acc@ + strip_tags_chars(
                    line@.subrange(i as int, m as int),
                    in_tag,
                ),
            decreases m - i,
        {
            let ghost pre = line@.subrange(i as int, m as int);
            let c = line.as_str().get_char(i);
            proof {
                assert(pre[0] == c);
                assert(pre.drop_first() =~= line@.subrange(i as int + 1, m as int));
            }
            if c == '<' {
                in_tag = true;
            } else if c == '>' {
                in_tag = false;
            } else if !in_tag {
                let ghost old_acc = acc@;
                push_char(&mut acc, c);
                proof {
                    assert(acc@ =~= old_acc + seq![c]);
                    assert((old_acc + seq![c]) + strip_tags_chars(pre.drop_first(), in_tag)
                        =~= old_acc + (seq![c] + strip_tags_chars(pre.drop_first(), in_tag)));
                }
            }
            i += 1;
        }
        proof {
            assert(line@.subrange(m as int, m as int) =~= Seq::<char>::empty());
            assert(acc@ + Seq::<char>::empty() =~= acc@);
            assert(acc@ == strip_tags_chars(line@, false));
        }
        let cleaned = trim(acc.as_str());
        let ghost tail = lsv.subrange(k as int, n as int);
        proof {
            assert(tail[0] == line@);
            assert(tail.drop_first() =~= lsv.subrange(k as int + 1, n as int));
        }
        let ghost old_out = out@;
        if cleaned.as_str().unicode_len() > 0 {
            out.push(cleaned);
            proof {
                assert(views_of(out@) =~= views_of(old_out).push(strip_xml_line(line@)));
                assert(views_of(old_out) + xml_lines(tail) =~= views_of(out@) + xml_lines(
                    tail.drop_first(),
                ));
            }
        }
        k += 1;
    }
    let olen = out.len();
    let r = join_range(&out, 0, olen);
    proof {
        assert(xml_lines(lsv.subrange(n as int, n as int)) =~= Seq::<Seq<char>>::empty());
        assert(views_of(out@) + Seq::<Seq<char>>::empty() =~= views_of(out@));
        assert(views_of(out@).subrange(0, olen as int) =~= views_of(out@));
        assert(r@ == join_lines_spec(xml_lines(lsv)));
        lemma_strip_xml_clean_lines(lsv, '<');
        lemma_strip_xml_clean_lines(lsv, '>');
        lemma_join_clean(xml_lines(lsv), '<');
        lemma_join_clean(xml_lines(lsv), '>');
        assert forall|i: int| 0 <= i < r@.len() implies r@[i] != '<' && r@[i] != '>' by {
            assert(r@[i] == join_lines_spec(xml_lines(lsv))[i]);
        }
    }
    r
}

/// A cleaned line of a block comment: trimmed, a leading `'*'` removed,
/// trimmed again.
pub open spec fn block_line_clean(l: Seq<char>) -> Seq<char> {
    trim_spec(strip_prefix_if(trim_spec(l), seq!['*']))
}

/// Clean every line of a block comment body and drop emptied lines.
pub open spec fn block_lines(ls: Seq<Seq<char>>) -> Seq<Seq<char>>
    decreases ls.len(),
{
    if ls.len() == 0 {
        seq![]
    } else {
        let h = block_line_clean(ls[0]);
        let rest = block_lines(ls.drop_first());
        if h.len() > 0 {
            seq![h] + rest
        } else {
            rest
        }
    }
}

/// A cleaned line of a line comment: trimmed, the marker `p` removed,
/// trimmed again.
pub open spec fn line_clean(l: Seq<char>, p: Seq<char>) -> Seq<char> {
    trim_spec(strip_prefix_if(trim_spec(l), p))
}

/// The line-comment marker stripped for a language: the most specific one
/// that applies (`///` preferred over `//`, `-- |` preferred over `--`).
pub open spec fn line_prefix_spec(t: Seq<char>, lang: Seq<char>) -> Seq<char> {
    if lang == "rust"@ || lang == "csharp"@ || lang == "fsharp"@ {
        if is_prefix_of("///"@, t) {
            "///"@
        } else {
            "//"@
        }
    } else if lang == "python"@ || lang == "ruby"@ {
        "#"@
    } else if lang == "haskell"@ {
        if is_prefix_of("-- |"@, t) {
            "-- |"@
        } else {
            "--"@
        }
    } else {
        "//"@
    }
}

/// The comment text with its delimiters stripped, per language.
pub open spec fn strip_comment_markers_spec(raw: Seq<char>, lang: Seq<char>) -> Seq<char> {
    let t = trim_spec(raw);
    if is_prefix_of("/*"@, t) {
        let inner0 = if is_prefix_of("/**"@, t) {
            strip_prefix_if(t, "/**"@)
        } else {
            strip_prefix_if(t, "/*"@)
        };
        let inner = strip_suffix_if(inner0, "*/"@);
        join_lines_spec(block_lines(split_lines_spec(inner)))
    } else {
        let p = line_prefix_spec(t, lang);
        let joined = join_lines_spec(
            split_lines_spec(t).map_values(|l: Seq<char>| line_clean(l, p)),
        );
        if lang == "csharp"@ {
            strip_xml_spec(joined)
        } else {
            joined
        }
    }
}

/// Strip comment delimiters from a raw comment node's text: block comments
/// lose `/*`/`/**`, `*/` and the per-line `*` gutter; line comments lose
/// the per-line marker; C# additionally loses XML doc tags.
#[verifier::loop_isolation(false)]
pub fn strip_comment_markers(raw: &str, lang: &str) -> (r: String)
    ensures
        r@ == strip_comment_markers_spec(raw@, lang@),
{
    let t = trim(raw);
    if starts_with_str(t.as_str(), "/*") {
        let inner0 = if starts_with_str(t.as_str(), "/**") {
            strip_prefix_if_str(t.as_str(), "/**")
        } else {
            strip_prefix_if_str(t.as_str(), "/*")
        };
        let inner = strip_suffix_if_str(inner0.as_str(), "*/");
        let lines = split_lines(inner.as_str());
        let n = lines.len();
        let ghost lsv = views_of(lines@);
        let mut out: Vec<String> = Vec::new();
        let mut k: usize = 0;
        proof {
            assert(views_of(out@) =~= Seq::<Seq<char>>::empty());
            assert(lsv.subrange(0, n as int) =~= lsv);
            assert(Seq::<Seq<char>>::empty() + block_lines(lsv) =~= block_lines(lsv));
        }
        while k < n
            invariant
                k <= n,
                block_lines(lsv) == views_of(out@) + block_lines(lsv.subrange(k as int, n as int)),
            decreases n - k,
        {
            let ghost tail = lsv.subrange(k as int, n as int);
            proof {
                assert(tail[0] == lsv[k as int]);
                assert(tail.drop_first() =~= lsv.subrange(k as int + 1, n as int));
            }
            let t1 = trim(lines[k].as_str());
            let s1 = strip_prefix_if_str(t1.as_str(), "*");
            let cleaned = trim(s1.as_str());
            proof {
                assert(seq!['*'] =~= "*"@) by {
                    reveal_strlit("*");
                }
            }
            let ghost old_out = out@;
            if cleaned.as_str().unicode_len() > 0 {
                out.push(cleaned);
                proof {
                    assert(views_of(out@) =~= views_of(old_out).push(block_line_clean(
                        lsv[k as int],
                    )));
                    assert(views_of(old_out) + block_lines(tail) =~= views_of(out@) + block_lines(
                        tail.drop_first(),
                    ));
                }
            }
            k += 1;
        }
        proof {
            assert(block_lines(lsv.subrange(n as int, n as int)) =~= Seq::<Seq<char>>::empty());
            assert(views_of(out@) + Seq::<Seq<char>>::empty() =~= views_of(out@));
            assert(views_of(out@).subrange(0, out@.len() as int) =~= views_of(out@));
        }
        let olen = out.len();
        join_range(&out, 0, olen)
    } else {
        let p: &str = if str_eq(lang, "rust") || str_eq(lang, "csharp") || str_eq(lang, "fsharp") {
            if starts_with_str(t.as_str(), "///") {
                "///"
            } else {
                "//"
            }
        } else if str_eq(lang, "python") || str_eq(lang, "ruby") {
            "#"
        } else if str_eq(lang, "haskell") {
            if starts_with_str(t.as_str(), "-- |") {
                "-- |"
            } else {
                "--"
            }
        } else {
            "//"
        };
        let ghost pv = line_prefix_spec(t@, lang@);
        proof {
            assert(p@ == pv);
        }
        let lines = split_lines(t.as_str());
        let n = lines.len();
        let ghost lsv = views_of(lines@);
        let mut out: Vec<String> = Vec::new();
        let mut k: usize = 0;
        while k < n
            invariant
                k <= n,
                out@.len() == k,
                forall|j: int| 0 <= j < k ==> (#[trigger] out@[j])@ == line_clean(lsv[j], pv),
            decreases n - k,
        {
            let t1 = trim(lines[k].as_str());
            let s1 = strip_prefix_if_str(t1.as_str(), p);
            let cleaned = trim(s1.as_str());
            out.push(cleaned);
            k += 1;
        }
        proof {
            assert(views_of(out@) =~= lsv.map_values(|l: Seq<char>| line_clean(l, pv)));
            assert(views_of(out@).subrange(0, out@.len() as int) =~= views_of(out@));
        }
        let olen = out.len();
        let joined = join_range(&out, 0, olen);
        if str_eq(lang, "csharp") {
            strip_xml_tags(joined.as_str())
        } else {
            joined
        }
    }
}

/// The smallest leading-whitespace width among lines whose trimmed text is
/// non-empty, if any.
pub open spec fn min_indent_opt(ls: Seq<Seq<char>>) -> Option<nat>
    decreases ls.len(),
{
    if ls.len() == 0 {
        None
    } else {
        let rest = min_indent_opt(ls.drop_first());
        if trim_spec(ls[0]).len() > 0 {
            match rest {
                None => Some(lead_ws(ls[0])),
                Some(m) => Some(
                    if lead_ws(ls[0]) <= m {
                        lead_ws(ls[0])
                    } else {
                        m
                    },
                ),
            }
        } else {
            rest
        }
    }
}

pub proof fn lemma_min_indent_push(ls: Seq<Seq<char>>, x: Seq<char>)
    ensures
        min_indent_opt(ls.push(x)) == if trim_spec(x).len() > 0 {
            match min_indent_opt(ls) {
                None => Some(lead_ws(x)),
                Some(m) => Some(
                    if lead_ws(x) <= m {
                        lead_ws(x)
                    } else {
                        m
                    },
                ),
            }
        } else {
            min_indent_opt(ls)
        },
    decreases ls.len(),
{
    if ls.len() == 0 {
        assert(ls.push(x) =~= seq![x]);
        assert(ls.push(x).drop_first() =~= Seq::<Seq<char>>::empty());
    } else {
        lemma_min_indent_push(ls.drop_first(), x);
        assert(ls.push(x).drop_first() =~= ls.drop_first().push(x));
        assert(ls.push(x)[0] == ls[0]);
        let rest = min_indent_opt(ls.drop_first());
        let restx = min_indent_opt(ls.drop_first().push(x));
        assert(min_indent_opt(ls.push(x).drop_first()) == restx);
        if trim_spec(x).len() > 0 {
            if trim_spec(ls[0]).len() > 0 {
                match rest {
                    None => {
                        assert(restx == Some(lead_ws(x)));
                        assert(min_indent_opt(ls) == Some(lead_ws(ls[0])));
                    },
                    Some(m) => {
                        assert(min_indent_opt(ls) == Some(
                            if lead_ws(ls[0]) <= m {
                                lead_ws(ls[0])
                            } else {
                                m
                            },
                        ));
                    },
                }
            } else {
                assert(min_indent_opt(ls) == rest);
            }
        } else {
            assert(restx == rest);
        }
    }
}

/// The dedented body of a docstring: the first line trimmed, empty
/// continuation lines blanked, the common leading-whitespace width removed
/// from the others, everything joined and trimmed.
pub open spec fn dedent_spec(s: Seq<char>) -> Seq<char> {
    let ls = split_lines_spec(s);
    if ls.len() <= 1 {
        trim_spec(s)
    } else {
        let m = match min_indent_opt(ls.drop_first()) {
            None => 0,
            Some(m) => m as int,
        };
        let out = Seq::new(
            ls.len(),
            |i: int|
                if i == 0 {
                    trim_spec(ls[0])
                } else if trim_spec(ls[i]).len() == 0 {
                    Seq::<char>::empty()
                } else {
                    ls[i].subrange(
                        if m <= ls[i].len() {
                            m
                        } else {
                            ls[i].len() as int
                        },
                        ls[i].len() as int,
                    )
                },
        );
        trim_spec(join_lines_spec(out))
    }
}

/// Dedent a docstring body: continuation lines lose the smallest common
/// leading-whitespace width found among the non-empty ones.
#[verifier::loop_isolation(false)]
pub fn dedent_docstring(s: &str) -> (r: String)
    ensures
        r@ == dedent_spec(s@),
{
    let lines = split_lines(s);
    let n = lines.len();
    let ghost lsv = views_of(lines@);
    if n <= 1 {
        return trim(s);
    }
    let mut min_found: Option<usize> = None;
    let mut k: usize = 1;
    proof {
        assert(lsv.drop_first().subrange(0, 0) =~= Seq::<Seq<char>>::empty());
    }
    while k < n
        invariant
            1 <= k <= n,
            min_indent_opt(lsv.drop_first().subrange(0, k - 1)) == match min_found {
                None => None::<nat>,
                Some(m) => Some(m as nat),
            },
        decreases n - k,
    {
        let ghost pre = lsv.drop_first().subrange(0, k - 1);
        let tl = trim(lines[k].as_str());
        proof {
            assert(lsv.drop_first()[k - 1] == lsv[k as int]);
        }
        if tl.as_str().unicode_len() > 0 {
            let w = leading_ws_count(lines[k].as_str());
            min_found = match min_found {
                None => Some(w),
                Some(m) => Some(
                    if w <= m {
                        w
                    } else {
                        m
                    },
                ),
            };
        }
        proof {
            lemma_min_indent_push(pre, lsv[k as int]);
            assert(lsv.drop_first().subrange(0, k as int) =~= pre.push(lsv[k as int]));
        }
        k += 1;
    }
    proof {
        assert(lsv.drop_first().subrange(0, n - 1) =~= lsv.drop_first());
    }
    let m: usize = match min_found {
        None => 0,
        Some(m) => m,
    };
    let ghost mspec: int = match min_indent_opt(lsv.drop_first()) {
        None => 0,
        Some(mm) => mm as int,
    };
    proof {
        assert(m as int == mspec);
    }
    let ghost outspec = Seq::new(
        lsv.len(),
        |i: int|
            if i == 0 {
                trim_spec(lsv[0])
            } else if trim_spec(lsv[i]).len() == 0 {
                Seq::<char>::empty()
            } else {
                lsv[i].subrange(
                    if mspec <= lsv[i].len() {
                        mspec
                    } else {
                        lsv[i].len() as int
                    },
                    lsv[i].len() as int,
                )
            },
    );
    let mut out: Vec<String> = Vec::new();
    let first = trim(lines[0].as_str());
    out.push(first);
    let mut k2: usize = 1;
    while k2 < n
        invariant
            1 <= k2 <= n,
            out@.len() == k2,
            forall|j: int| 0 <= j < k2 ==> (#[trigger] out@[j])@ == outspec[j],
        decreases n - k2,
    {
        let l = &lines[k2];
        let tl = trim(l.as_str());
        if tl.as_str().unicode_len() == 0 {
            out.push(String::new());
        } else {
            let len = l.as_str().unicode_len();
            let cut = if m <= len {
                m
            } else {
                len
            };
            out.push(l.as_str().substring_char(cut, len).to_owned());
        }
        k2 += 1;
    }
    proof {
        assert(views_of(out@) =~= outspec);
        assert(views_of(out@).subrange(0, out@.len() as int) =~= views_of(out@));
    }
    let olen = out.len();
    let joined = join_range(&out, 0, olen);
    trim(joined.as_str())
}

/// The docstring text inside its `"""`, `'''`, `"` or `'` delimiters,
/// dedented.
pub open spec fn strip_python_docstring_spec(s: Seq<char>) -> Seq<char> {
    let t = trim_spec(s);
    let q3 = "\"\"\""@;
    let a3 = "'''"@;
    let q1 = "\""@;
    let a1 = "'"@;
    let inner = if is_prefix_of(q3, t) && is_suffix_of(q3, t) && t.len() >= 6 {
        t.subrange(3, t.len() - 3)
    } else if is_prefix_of(a3, t) && is_suffix_of(a3, t) && t.len() >= 6 {
        t.subrange(3, t.len() - 3)
    } else if is_prefix_of(q1, t) && is_suffix_of(q1, t) && t.len() >= 2 {
        t.subrange(1, t.len() - 1)
    } else if is_prefix_of(a1, t) && is_suffix_of(a1, t) && t.len() >= 2 {
        t.subrange(1, t.len() - 1)
    } else {
        t
    };
    dedent_spec(inner)
}

/// Strip the quote delimiters from a Python string literal and dedent the
/// body.
pub fn strip_python_docstring(s: &str) -> (r: String)
    ensures
        r@ == strip_python_docstring_spec(s@),
{
    let t = trim(s);
    let ts = t.as_str();
    let n = ts.unicode_len();
    proof {
        reveal_strlit("\"\"\"");
        reveal_strlit("'''");
        reveal_strlit("\"");
        reveal_strlit("'");
    }
    let inner: String = if starts_with_str(ts, "\"\"\"") && ends_with_str(ts, "\"\"\"") && n >= 6 {
        ts.substring_char(3, n - 3).to_owned()
    } else if starts_with_str(ts, "'''") && ends_with_str(ts, "'''") && n >= 6 {
        ts.substring_char(3, n - 3).to_owned()
    } else if starts_with_str(ts, "\"") && ends_with_str(ts, "\"") && n >= 2 {
        ts.substring_char(1, n - 1).to_owned()
    } else if starts_with_str(ts, "'") && ends_with_str(ts, "'") && n >= 2 {
        ts.substring_char(1, n - 1).to_owned()
    } else {
        t
    };
    dedent_docstring(inner.as_str())
}

} // verus!
