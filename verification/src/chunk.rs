//! Chunks: one syntactically meaningful span of a source file plus its
//! metadata, and the oversize-split policy that windows a long span into
//! pieces of at most `max_lines` lines.

use vstd::prelude::*;
use crate::strutil::{join_lines_spec, join_range, split_lines, split_lines_spec, views_of};

verus! {

/// One span of a source file: a language tag, the declaration's symbol name
/// (or empty), the grammar node kind, the exact text of the span, zero-based
/// inclusive line bounds, and an optional cleaned doc-comment summary.
#[derive(Debug, Clone)]
pub struct Chunk {
    pub language: String,
    pub symbol: String,
    pub node_kind: String,
    pub content: String,
    pub start_line: u32,
    pub end_line: u32,
    pub summary: Option<String>,
}

/// View of an optional owned string.
pub open spec fn opt_string_view(o: Option<String>) -> Option<Seq<char>> {
    match o {
        Some(s) => Some(s@),
        None => None,
    }
}

/// View of an optional borrowed string.
pub open spec fn opt_str_view(o: Option<&str>) -> Option<Seq<char>> {
    match o {
        Some(s) => Some(s@),
        None => None,
    }
}

/// Number of windows of size at most `max` needed to cover `n` lines.
pub open spec fn window_count(n: nat, max: nat) -> nat
    decreases n,
{
    if max == 0 {
        0
    } else if n == 0 {
        0
    } else if n <= max {
        1
    } else {
        1 + window_count((n - max) as nat, max)
    }
}

/// The line-window shape of chunk `c` as window number `w` over the lines
/// `li[lo..hi]`, where line `lo` is line number `base` of the original file
/// and windows hold at most `max` lines.
pub open spec fn window_ok(
    c: Chunk,
    li: Seq<Seq<char>>,
    lo: int,
    hi: int,
    base: int,
    max: int,
    w: int,
) -> bool {
    let a = lo + w * max;
    let b = if a + max <= hi {
        a + max
    } else {
        hi
    };
    &&& c.start_line == base + w * max
    &&& c.end_line == base + (b - lo) - 1
    &&& c.start_line <= c.end_line
    &&& c.end_line - c.start_line + 1 <= max
    &&& c.content@ == join_lines_spec(li.subrange(a, b))
}

/// The line-faithfulness and size invariants of every emitted chunk: the
/// line bounds are ordered and inside the file, the chunk holds at most
/// `max` lines, and `content` is exactly the file's lines
/// `start_line..=end_line` joined with newlines.
pub open spec fn chunk_line_ok(c: Chunk, li: Seq<Seq<char>>, max: int) -> bool {
    &&& c.start_line <= c.end_line
    &&& (c.end_line as int) < li.len()
    &&& c.end_line - c.start_line + 1 <= max
    &&& c.content@ == join_lines_spec(li.subrange(c.start_line as int, c.end_line as int + 1))
}

/// Cover `lines[lo..hi]` with consecutive windows of at most `max` lines.
/// Window starts advance by the window size; every window inherits the
/// symbol, language, node kind and summary that are passed in.  `base` is
/// the file line number of `lines[lo]`.
#[verifier::loop_isolation(false)]
pub fn windows_over(
    lines: &Vec<String>,
    lo: usize,
    hi: usize,
    symbol: &str,
    language: &str,
    base: u32,
    max: usize,
    node_kind: &str,
    summary: Option<&str>,
) -> (r: Vec<Chunk>)
    requires
        lo <= hi <= lines@.len(),
        max >= 1,
        base + (hi - lo) <= u32::MAX,
    ensures
        r@.len() == window_count((hi - lo) as nat, max as nat),
        forall|w: int|
            0 <= w < r@.len() ==> window_ok(
                #[trigger] r@[w],
                views_of(lines@),
                lo as int,
                hi as int,
                base as int,
                max as int,
                w,
            ),
        forall|w: int|
            0 <= w < r@.len() ==> (#[trigger] r@[w]).language@ == language@ && r@[w].symbol@
                == symbol@ && r@[w].node_kind@ == node_kind@ && opt_string_view(r@[w].summary)
                == opt_str_view(summary),
{
    let total = hi - lo;
    let mut r: Vec<Chunk> = Vec::new();
    let mut off: usize = 0;
    proof {
        assert(r@.len() * max == 0) by (nonlinear_arith)
            requires
                r@.len() == 0,
        ;
    }
    while off < total
        invariant
            0 <= off <= total,
            off == if r@.len() * max <= total {
                r@.len() * max
            } else {
                total as int
            },
            window_count(total as nat, max as nat) == r@.len() + window_count(
                (total - off) as nat,
                max as nat,
            ),
            forall|w: int|
                0 <= w < r@.len() ==> window_ok(
                    #[trigger] r@[w],
                    views_of(lines@),
                    lo as int,
                    hi as int,
                    base as int,
                    max as int,
                    w,
                ),
            forall|w: int|
                0 <= w < r@.len() ==> (#[trigger] r@[w]).language@ == language@ && r@[w].symbol@
                    == symbol@ && r@[w].node_kind@ == node_kind@ && opt_string_view(r@[w].summary)
                    == opt_str_view(summary),
        decreases total - off,
    {
        proof {
            if r@.len() * max > total {
                assert(off == total);
                assert(false);
            }
        }
        let end = if max <= total && off <= total - max {
            off + max
        } else {
            total
        };
        proof {
            assert(end == if off + max <= total {
                off + max
            } else {
                total as int
            });
        }
        let content = join_range(lines, lo + off, lo + end);
        let sum: Option<String> = match summary {
            Some(s) => Some(s.to_owned()),
            None => None,
        };
        let c = Chunk {
            language: language.to_owned(),
            symbol: symbol.to_owned(),
            node_kind: node_kind.to_owned(),
            content,
            start_line: base + (off as u32),
            end_line: base + (end as u32) - 1,
            summary: sum,
        };
        let ghost w = r@.len() as int;
        r.push(c);
        proof {
            assert(w * (max as int) == off) by {
                assert(off == w * max);
            }
            assert((w + 1) * (max as int) == w * (max as int) + max) by (nonlinear_arith);
            assert(window_ok(
                r@[w],
                views_of(lines@),
                lo as int,
                hi as int,
                base as int,
                max as int,
                w,
            ));
        }
        off = if end < total {
            end
        } else {
            total
        };
        proof {
            if (w + 1) * (max as int) <= total {
                assert(off == (w + 1) * (max as int));
            } else {
                assert(off == total);
            }
        }
    }
    proof {
        assert(window_count((total - off) as nat, max as nat) == 0);
    }
    r
}

/// Split `content` into consecutive windows of at most `max_lines` lines.
/// `start_offset` is the file line number of the first line of `content`;
/// every window carries the given symbol, language, node kind and summary.
/// Empty content yields no chunks.
pub fn split_by_lines(
    content: &str,
    symbol: &str,
    language: &str,
    start_offset: u32,
    max_lines: usize,
    node_kind: &str,
    summary: Option<&str>,
) -> (r: Vec<Chunk>)
    requires
        max_lines >= 1,
        start_offset + split_lines_spec(content@).len() <= u32::MAX,
    ensures
        r@.len() == window_count(split_lines_spec(content@).len(), max_lines as nat),
        forall|w: int|
            0 <= w < r@.len() ==> window_ok(
                #[trigger] r@[w],
                split_lines_spec(content@),
                0,
                split_lines_spec(content@).len() as int,
                start_offset as int,
                max_lines as int,
                w,
            ),
        forall|w: int|
            0 <= w < r@.len() ==> (#[trigger] r@[w]).language@ == language@ && r@[w].symbol@
                == symbol@ && r@[w].node_kind@ == node_kind@ && opt_string_view(r@[w].summary)
                == opt_str_view(summary),
{
    let lines = split_lines(content);
    let n = lines.len();
    windows_over(&lines, 0, n, symbol, language, start_offset, max_lines, node_kind, summary)
}

} // verus!
