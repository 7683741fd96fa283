//! Incremental-indexing decisions: content hashing, the skip / replace /
//! insert choice per file, persisted-record construction, the filter-string
//! escaping of the store, and path deduplication.

use vstd::prelude::*;
use vstd::string::*;
use crate::chunk::{opt_string_view, Chunk};
use crate::retriever::{distinct_ids, idx_from};
use crate::strutil::{push_char, str_eq, views_of};
use sha2::Digest;

verus! {

/// The SHA-256 digest of a byte string: a function of the bytes alone.
pub uninterp spec fn sha256_of(data: Seq<u8>) -> Seq<u8>;

/// Relies on `sha2::Sha256` (`new`, `update`, `finalize`): the SHA-256
/// digest, 32 bytes, determined by the input bytes alone.
#[verifier::external_body]
fn sha256_digest(data: &[u8]) -> (r: Vec<u8>)
    ensures
        r@ == sha256_of(data@),
        r@.len() == 32,
{
    let mut hasher = sha2::Sha256::new();
    hasher.update(data);
    hasher.finalize().to_vec()
}

/// The lowercase hex digit of a value below 16.
pub open spec fn hex_digit(n: int) -> char {
    if n == 0 {
        '0'
    } else if n == 1 {
        '1'
    } else if n == 2 {
        '2'
    } else if n == 3 {
        '3'
    } else if n == 4 {
        '4'
    } else if n == 5 {
        '5'
    } else if n == 6 {
        '6'
    } else if n == 7 {
        '7'
    } else if n == 8 {
        '8'
    } else if n == 9 {
        '9'
    } else if n == 10 {
        'a'
    } else if n == 11 {
        'b'
    } else if n == 12 {
        'c'
    } else if n == 13 {
        'd'
    } else if n == 14 {
        'e'
    } else {
        'f'
    }
}

/// Executable mirror of [`hex_digit`].
pub fn hex_digit_char(n: u8) -> (r: char)
    requires
        n < 16,
    ensures
        r == hex_digit(n as int),
{
    if n == 0 {
        '0'
    } else if n == 1 {
        '1'
    } else if n == 2 {
        '2'
    } else if n == 3 {
        '3'
    } else if n == 4 {
        '4'
    } else if n == 5 {
        '5'
    } else if n == 6 {
        '6'
    } else if n == 7 {
        '7'
    } else if n == 8 {
        '8'
    } else if n == 9 {
        '9'
    } else if n == 10 {
        'a'
    } else if n == 11 {
        'b'
    } else if n == 12 {
        'c'
    } else if n == 13 {
        'd'
    } else if n == 14 {
        'e'
    } else {
        'f'
    }
}

/// Two lowercase hex digits per byte.
pub open spec fn hex_of(bytes: Seq<u8>) -> Seq<char>
    decreases bytes.len(),
{
    if bytes.len() == 0 {
        Seq::empty()
    } else {
        seq![
            hex_digit(bytes[0] as int / 16),
            hex_digit(bytes[0] as int % 16),
        ] + hex_of(bytes.drop_first())
    }
}

/// Hex-encode a byte vector, lowercase.
#[verifier::loop_isolation(false)]
pub fn bytes_to_hex(bytes: &Vec<u8>) -> (r: String)
    ensures
        r@ == hex_of(bytes@),
        r@.len() == 2 * bytes@.len(),
{
    proof {
        lemma_hex_len(bytes@);
    }
    let n = bytes.len();
    let mut r = String::new();
    let mut i: usize = 0;
    proof {
        assert(bytes@.subrange(0, n as int) =~= bytes@);
        assert(r@ + hex_of(bytes@.subrange(0, n as int)) =~= hex_of(bytes@));
    }
    while i < n
        invariant
            i <= n,
            hex_of(bytes@) == r@ + hex_of(bytes@.subrange(i as int, n as int)),
            r@.len() == 2 * i,
        decreases n - i,
    {
        let ghost pre = bytes@.subrange(i as int, n as int);
        let b = bytes[i];
        proof {
            assert(pre[0] == b);
            assert(pre.drop_first() =~= bytes@.subrange(i as int + 1, n as int));
        }
        let ghost old_r = r@;
        push_char(&mut r, hex_digit_char(b / 16));
        push_char(&mut r, hex_digit_char(b % 16));
        proof {
            assert(r@ =~= old_r + seq![hex_digit(b as int / 16), hex_digit(b as int % 16)]);
            assert((old_r + seq![hex_digit(b as int / 16), hex_digit(b as int % 16)]) + hex_of(
                pre.drop_first(),
            ) =~= old_r + (seq![hex_digit(b as int / 16), hex_digit(b as int % 16)] + hex_of(
                pre.drop_first(),
            )));
        }
        i += 1;
    }
    proof {
        assert(hex_of(bytes@.subrange(n as int, n as int)) =~= Seq::<char>::empty());
        assert(r@ + Seq::<char>::empty() =~= r@);
    }
    r
}

pub proof fn lemma_hex_len(bytes: Seq<u8>)
    ensures
        hex_of(bytes).len() == 2 * bytes.len(),
    decreases bytes.len(),
{
    if bytes.len() > 0 {
        lemma_hex_len(bytes.drop_first());
    }
}

/// The stored content hash of a file's bytes: lowercase hex of the SHA-256
/// digest, 64 characters.
pub fn compute_hash(data: &[u8]) -> (r: String)
    ensures
        r@ == hex_of(sha256_of(data@)),
        r@.len() == 64,
{
    let digest = sha256_digest(data);
    proof {
        lemma_hex_len(digest@);
    }
    bytes_to_hex(&digest)
}

/// What the indexer does with a file, judged by its stored hash.
#[derive(Debug, PartialEq, Eq, Structural, Clone, Copy)]
pub enum FileAction {
    /// The stored hash equals the current one: count the file as skipped.
    Skip,
    /// Stale rows exist: delete them, then insert the new rows.
    Replace,
    /// Nothing is stored for the file: insert the new rows.
    Insert,
}

/// The refresh decision: on reindex everything is inserted afresh; else an
/// unchanged hash skips the file, a changed one replaces its rows, and an
/// unknown file is inserted.
pub open spec fn refresh_action_spec(
    reindex: bool,
    stored: Option<Seq<char>>,
    current: Seq<char>,
) -> FileAction {
    if reindex {
        FileAction::Insert
    } else {
        match stored {
            Some(h) => if h == current {
                FileAction::Skip
            } else {
                FileAction::Replace
            },
            None => FileAction::Insert,
        }
    }
}

/// Executable mirror of [`refresh_action_spec`].
pub fn file_refresh_action(reindex: bool, stored: Option<&String>, current: &str) -> (r: FileAction)
    ensures
        r == refresh_action_spec(
            reindex,
            match stored {
                Some(h) => Some(h@),
                None => None,
            },
            current@,
        ),
{
    if reindex {
        FileAction::Insert
    } else {
        match stored {
            Some(h) => {
                if str_eq(h.as_str(), current) {
                    FileAction::Skip
                } else {
                    FileAction::Replace
                }
            },
            None => FileAction::Insert,
        }
    }
}

/// A file that has not changed is always skipped: running a refresh twice
/// with no change in between re-indexes nothing.
pub proof fn lemma_refresh_idempotent(stored: Seq<char>)
    ensures
        refresh_action_spec(false, Some(stored), stored) == FileAction::Skip,
{
}

/// Decimal digits of `n`.
pub open spec fn dec_of(n: nat) -> Seq<char>
    decreases n,
{
    if n < 10 {
        seq![hex_digit(n as int)]
    } else {
        dec_of(n / 10).push(hex_digit((n % 10) as int))
    }
}

/// Render a line number in decimal.
pub fn u32_to_dec(n: u32) -> (r: String)
    ensures
        r@ == dec_of(n as nat),
    decreases n,
{
    if n < 10 {
        let mut s = String::new();
        push_char(&mut s, hex_digit_char(n as u8));
        proof {
            assert(s@ =~= seq![hex_digit(n as int)]);
        }
        s
    } else {
        let mut s = u32_to_dec(n / 10);
        push_char(&mut s, hex_digit_char((n % 10) as u8));
        s
    }
}

/// One persisted row of the store, without its embedding vectors: those are
/// fixed-size lists of single-precision floats and live with the store's
/// backend, outside the verified library.
#[derive(Debug, Clone)]
pub struct ChunkRecord {
    pub id: String,
    pub file_path: String,
    pub file_hash: String,
    pub language: String,
    pub symbol: String,
    pub content: String,
    pub start_line: u32,
    pub end_line: u32,
    pub summary: Option<String>,
}

/// The row id of a chunk: `<relative path>:<start line>`.
pub open spec fn chunk_id_spec(rel_path: Seq<char>, start_line: nat) -> Seq<char> {
    rel_path + seq![':'] + dec_of(start_line)
}

/// Executable mirror of [`chunk_id_spec`].
pub fn make_chunk_id(rel_path: &str, start_line: u32) -> (r: String)
    ensures
        r@ == chunk_id_spec(rel_path@, start_line as nat),
{
    let mut s = rel_path.to_owned();
    push_char(&mut s, ':');
    let d = u32_to_dec(start_line);
    s.append(d.as_str());
    proof {
        assert(s@ =~= rel_path@ + seq![':'] + dec_of(start_line as nat));
    }
    s
}

/// Turn the chunks of one file into persisted rows: ids built from the
/// relative path and start line, the file's hash on every row, and all
/// chunk fields carried over unchanged.
#[verifier::loop_isolation(false)]
pub fn build_records(chunks: Vec<Chunk>, rel_path: &str, file_hash: &str) -> (r: Vec<ChunkRecord>)
    ensures
        r@.len() == chunks@.len(),
        forall|k: int|
            0 <= k < r@.len() ==> {
                let c = chunks@[k];
                let rec = #[trigger] r@[k];
                &&& rec.id@ == chunk_id_spec(rel_path@, c.start_line as nat)
                &&& rec.file_path@ == rel_path@
                &&& rec.file_hash@ == file_hash@
                &&& rec.language@ == c.language@
                &&& rec.symbol@ == c.symbol@
                &&& rec.content@ == c.content@
                &&& rec.start_line == c.start_line
                &&& rec.end_line == c.end_line
                &&& opt_string_view(rec.summary) == opt_string_view(c.summary)
            },
{
    let mut r: Vec<ChunkRecord> = Vec::new();
    let mut src = chunks;
    let n = src.len();
    let ghost cv = src@;
    let mut k: usize = 0;
    while k < n
        invariant
            k <= n,
            src@ == cv.subrange(k as int, n as int),
            r@.len() == k,
            forall|t: int|
                0 <= t < k ==> {
                    let c = cv[t];
                    let rec = #[trigger] r@[t];
                    &&& rec.id@ == chunk_id_spec(rel_path@, c.start_line as nat)
                    &&& rec.file_path@ == rel_path@
                    &&& rec.file_hash@ == file_hash@
                    &&& rec.language@ == c.language@
                    &&& rec.symbol@ == c.symbol@
                    &&& rec.content@ == c.content@
                    &&& rec.start_line == c.start_line
                    &&& rec.end_line == c.end_line
                    &&& opt_string_view(rec.summary) == opt_string_view(c.summary)
                },
        decreases n - k,
    {
        let c = src.remove(0);
        proof {
            assert(c == cv[k as int]);
            assert(src@ =~= cv.subrange(k as int + 1, n as int));
        }
        let id = make_chunk_id(rel_path, c.start_line);
        r.push(
            ChunkRecord {
                id,
                file_path: rel_path.to_owned(),
                file_hash: file_hash.to_owned(),
                language: c.language,
                symbol: c.symbol,
                content: c.content,
                start_line: c.start_line,
                end_line: c.end_line,
                summary: c.summary,
            },
        );
        k += 1;
    }
    r
}

/// A filter value with every single quote doubled.
pub open spec fn escape_quotes_spec(s: Seq<char>) -> Seq<char>
    decreases s.len(),
{
    if s.len() == 0 {
        Seq::empty()
    } else {
        (if s[0] == '\'' {
            seq!['\'', '\'']
        } else {
            seq![s[0]]
        }) + escape_quotes_spec(s.drop_first())
    }
}

/// Escape a file path for a store filter predicate: embedded single quotes
/// are doubled.
#[verifier::loop_isolation(false)]
pub fn escape_single_quotes(s: &str) -> (r: String)
    ensures
        r@ == escape_quotes_spec(s@),
{
    let n = s.unicode_len();
    let mut r = String::new();
    let mut i: usize = 0;
    proof {
        assert(s@.subrange(0, n as int) =~= s@);
        assert(r@ + escape_quotes_spec(s@.subrange(0, n as int)) =~= escape_quotes_spec(s@));
    }
    while i < n
        invariant
            i <= n,
            escape_quotes_spec(s@) == r@ + escape_quotes_spec(s@.subrange(i as int, n as int)),
        decreases n - i,
    {
        let ghost pre = s@.subrange(i as int, n as int);
        let c = s.get_char(i);
        proof {
            assert(pre[0] == c);
            assert(pre.drop_first() =~= s@.subrange(i as int + 1, n as int));
        }
        let ghost old_r = r@;
        if c == '\'' {
            push_char(&mut r, '\'');
            push_char(&mut r, '\'');
            proof {
                assert(r@ =~= old_r + seq!['\'', '\'']);
                assert((old_r + seq!['\'', '\'']) + escape_quotes_spec(pre.drop_first()) =~= old_r
                    + (seq!['\'', '\''] + escape_quotes_spec(pre.drop_first())));
            }
        } else {
            push_char(&mut r, c);
            proof {
                assert(r@ =~= old_r + seq![c]);
                assert((old_r + seq![c]) + escape_quotes_spec(pre.drop_first()) =~= old_r + (
                seq![c] + escape_quotes_spec(pre.drop_first())));
            }
        }
        i += 1;
    }
    proof {
        assert(escape_quotes_spec(s@.subrange(n as int, n as int)) =~= Seq::<char>::empty());
        assert(r@ + Seq::<char>::empty() =~= r@);
    }
    r
}

/// Membership survives appending.
proof fn lemma_idx_from_push(s: Seq<Seq<char>>, x: Seq<char>, y: Seq<char>, j: int)
    requires
        0 <= j,
        idx_from(s, x, j) is Some,
    ensures
        idx_from(s.push(y), x, j) is Some,
    decreases s.len() - j,
{
    if j < s.len() {
        assert(s.push(y)[j] == s[j]);
        if s[j] == x {
        } else {
            lemma_idx_from_push(s, x, y, j + 1);
        }
    }
}

/// A value standing at some index is found.
proof fn lemma_idx_from_present(s: Seq<Seq<char>>, x: Seq<char>, j: int, i: int)
    requires
        0 <= j <= i < s.len(),
        s[i] == x,
    ensures
        idx_from(s, x, j) is Some,
    decreases i - j,
{
    if s[j] == x {
    } else {
        lemma_idx_from_present(s, x, j + 1, i);
    }
}

/// The distinct paths of a row listing, in first-appearance order: the
/// result holds no duplicates, every input path is found in it, and every
/// result path is found in the input.
#[verifier::loop_isolation(false)]
pub fn dedup_paths(paths: &Vec<String>) -> (r: Vec<String>)
    ensures
        distinct_ids(views_of(r@)),
        forall|k: int|
            0 <= k < paths@.len() ==> idx_from(views_of(r@), #[trigger] views_of(paths@)[k], 0)
                is Some,
        forall|j: int|
            0 <= j < r@.len() ==> idx_from(views_of(paths@), #[trigger] views_of(r@)[j], 0)
                is Some,
{
    let n = paths.len();
    let mut r: Vec<String> = Vec::new();
    let mut k: usize = 0;
    while k < n
        invariant
            k <= n,
            distinct_ids(views_of(r@)),
            forall|t: int|
                0 <= t < k ==> idx_from(views_of(r@), #[trigger] views_of(paths@)[t], 0) is Some,
            forall|j: int|
                0 <= j < r@.len() ==> idx_from(views_of(paths@), #[trigger] views_of(r@)[j], 0)
                    is Some,
        decreases n - k,
    {
        let ghost old_r = r@;
        proof {
            assert(views_of(paths@)[k as int] == paths@[k as int]@);
        }
        match crate::retriever::find_id(&r, paths[k].as_str(), 0) {
            Some(_) => {
            },
            None => {
                proof {
                    crate::retriever::lemma_idx_from_bounds(views_of(r@), paths@[k as int]@, 0);
                }
                r.push(paths[k].clone());
                proof {
                    assert(views_of(r@) =~= views_of(old_r).push(paths@[k as int]@));
                    assert forall|a: int, b: int|
                        0 <= a < b < views_of(r@).len() implies views_of(r@)[a] != views_of(
                        r@,
                    )[b] by {
                        if b < old_r.len() {
                            assert(views_of(r@)[a] == views_of(old_r)[a]);
                            assert(views_of(r@)[b] == views_of(old_r)[b]);
                        } else {
                            assert(views_of(r@)[a] == views_of(old_r)[a]);
                            assert(views_of(r@)[b] == paths@[k as int]@);
                        }
                    }
                    assert forall|t: int| 0 <= t < k implies idx_from(
                        views_of(r@),
                        #[trigger] views_of(paths@)[t],
                        0,
                    ) is Some by {
                        lemma_idx_from_push(
                            views_of(old_r),
                            views_of(paths@)[t],
                            paths@[k as int]@,
                            0,
                        );
                    }
                    assert forall|j: int| 0 <= j < r@.len() implies idx_from(
                        views_of(paths@),
                        #[trigger] views_of(r@)[j],
                        0,
                    ) is Some by {
                        if j < old_r.len() {
                            assert(views_of(r@)[j] == views_of(old_r)[j]);
                        } else {
                            assert(views_of(r@)[j] == views_of(paths@)[k as int]);
                            lemma_idx_from_present(
                                views_of(paths@),
                                views_of(paths@)[k as int],
                                0,
                                k as int,
                            );
                        }
                    }
                    lemma_idx_from_present(
                        views_of(r@),
                        views_of(paths@)[k as int],
                        0,
                        old_r.len() as int,
                    );
                }
            },
        }
        k += 1;
    }
    r
}

} // verus!
