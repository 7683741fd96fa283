//! Verified string utilities: character classes, prefix and suffix tests,
//! line splitting and joining, and whitespace trimming.  All contracts are
//! stated over `Seq<char>` views.

use vstd::prelude::*;
use vstd::string::*;

verus! {

/// The whitespace characters this library recognizes.
pub open spec fn is_ws(c: char) -> bool {
    c == ' ' || c == '\t' || c == '\r' || c == '\n'
}

/// Executable mirror of [`is_ws`].
pub fn is_ws_char(c: char) -> (r: bool)
    ensures
        r == is_ws(c),
{
    c == ' ' || c == '\t' || c == '\r' || c == '\n'
}

/// Relies on `String::push`: appends one character at the end of the string.
#[verifier::external_body]
pub fn push_char(s: &mut String, c: char)
    ensures
        final(s)@ == old(s)@.push(c),
{
    s.push(c);
}

/// The views of a sequence of strings.
pub open spec fn views_of(v: Seq<String>) -> Seq<Seq<char>> {
    Seq::new(v.len(), |i: int| v[i]@)
}

/// Character-wise string equality.
#[verifier::loop_isolation(false)]
pub fn str_eq(a: &str, b: &str) -> (r: bool)
    ensures
        r == (a@ == b@),
{
    let n = a.unicode_len();
    if n != b.unicode_len() {
        return false;
    }
    let mut i: usize = 0;
    while i < n
        invariant
            i <= n,
            forall|j: int| 0 <= j < i ==> a@[j] == b@[j],
        decreases n - i,
    {
        if a.get_char(i) != b.get_char(i) {
            return false;
        }
        i += 1;
    }
    proof {
        assert(a@ =~= b@);
    }
    true
}

/// `p` is a prefix of `s`.
pub open spec fn is_prefix_of(p: Seq<char>, s: Seq<char>) -> bool {
    p.len() <= s.len() && forall|i: int| 0 <= i < p.len() ==> p[i] == s[i]
}

/// `p` is a suffix of `s`.
pub open spec fn is_suffix_of(p: Seq<char>, s: Seq<char>) -> bool {
    p.len() <= s.len() && forall|i: int| 0 <= i < p.len() ==> p[i] == s[s.len() - p.len() + i]
}

/// Executable prefix test.
#[verifier::loop_isolation(false)]
pub fn starts_with_str(s: &str, p: &str) -> (r: bool)
    ensures
        r == is_prefix_of(p@, s@),
{
    let np = p.unicode_len();
    let ns = s.unicode_len();
    if np > ns {
        return false;
    }
    let mut i: usize = 0;
    while i < np
        invariant
            i <= np,
            forall|j: int| 0 <= j < i ==> p@[j] == s@[j],
        decreases np - i,
    {
        if p.get_char(i) != s.get_char(i) {
            return false;
        }
        i += 1;
    }
    true
}

/// Executable suffix test.
#[verifier::loop_isolation(false)]
pub fn ends_with_str(s: &str, p: &str) -> (r: bool)
    ensures
        r == is_suffix_of(p@, s@),
{
    let np = p.unicode_len();
    let ns = s.unicode_len();
    if np > ns {
        return false;
    }
    let mut i: usize = 0;
    while i < np
        invariant
            i <= np,
            np <= ns,
            forall|j: int| 0 <= j < i ==> p@[j] == s@[ns - np + j],
        decreases np - i,
    {
        if p.get_char(i) != s.get_char(ns - np + i) {
            return false;
        }
        i += 1;
    }
    true
}

/// Index of the first occurrence of `c` in `s`, or `s.len()` if absent.
pub open spec fn first_index_of(s: Seq<char>, c: char) -> nat
    decreases s.len(),
{
    if s.len() == 0 {
        0
    } else if s[0] == c {
        0
    } else {
        1 + first_index_of(s.drop_first(), c)
    }
}

pub proof fn lemma_first_index_of(s: Seq<char>, c: char)
    ensures
        first_index_of(s, c) <= s.len(),
        first_index_of(s, c) < s.len() ==> s[first_index_of(s, c) as int] == c,
        forall|j: int| 0 <= j < first_index_of(s, c) ==> s[j] != c,
    decreases s.len(),
{
    if s.len() == 0 {
    } else if s[0] == c {
    } else {
        lemma_first_index_of(s.drop_first(), c);
        assert forall|j: int| 0 <= j < first_index_of(s, c) implies s[j] != c by {
            if j > 0 {
                assert(s.drop_first()[j - 1] == s[j]);
            }
        }
        if first_index_of(s, c) < s.len() {
            assert(s.drop_first()[first_index_of(s.drop_first(), c) as int]
                == s[first_index_of(s, c) as int]);
        }
    }
}

/// Index of the first occurrence of `c` at or after `from`, or `s.len()`.
#[verifier::loop_isolation(false)]
pub fn find_char_from(s: &str, from: usize, c: char) -> (i: usize)
    requires
        from <= s@.len(),
    ensures
        from <= i <= s@.len(),
        i - from == first_index_of(s@.subrange(from as int, s@.len() as int), c),
{
    let ghost tail = s@.subrange(from as int, s@.len() as int);
    proof {
        lemma_first_index_of(tail, c);
    }
    let n = s.unicode_len();
    let mut i: usize = from;
    while i < n
        invariant
            from <= i <= n,
            forall|j: int| from <= j < i ==> s@[j] != c,
        decreases n - i,
    {
        if s.get_char(i) == c {
            proof {
                assert(tail[i - from] == c);
                assert forall|j: int| 0 <= j < i - from implies tail[j] != c by {
                    assert(tail[j] == s@[from + j]);
                }
                if first_index_of(tail, c) < i - from {
                    assert(s@[from + first_index_of(tail, c)] == c);
                }
            }
            return i;
        }
        i += 1;
    }
    proof {
        if first_index_of(tail, c) < tail.len() {
            assert(s@[from + first_index_of(tail, c)] == c);
        }
    }
    n
}

/// The lines of `s`: pieces between `'\n'` characters.  A final piece that
/// would be empty (text ending in a newline) yields no extra line; the empty
/// text has no lines.
pub open spec fn split_lines_spec(s: Seq<char>) -> Seq<Seq<char>>
    decreases s.len(),
{
    if s.len() == 0 {
        seq![]
    } else {
        let i = first_index_of(s, '\n');
        if i >= s.len() {
            seq![s]
        } else {
            seq![s.subrange(0, i as int)] + split_lines_spec(
                s.subrange(i as int + 1, s.len() as int),
            )
        }
    }
}

/// Executable line splitting.
#[verifier::loop_isolation(false)]
pub fn split_lines(s: &str) -> (r: Vec<String>)
    ensures
        views_of(r@) == split_lines_spec(s@),
{
    let n = s.unicode_len();
    let mut r: Vec<String> = Vec::new();
    let mut pos: usize = 0;
    proof {
        assert(s@.subrange(0, n as int) =~= s@);
        assert(views_of(r@) =~= Seq::<Seq<char>>::empty());
        assert(views_of(r@) + split_lines_spec(s@.subrange(0, n as int)) =~= split_lines_spec(s@));
    }
    while pos < n
        invariant
            pos <= n,
            split_lines_spec(s@) == views_of(r@) + split_lines_spec(
                s@.subrange(pos as int, n as int),
            ),
        decreases n - pos,
    {
        let ghost tail = s@.subrange(pos as int, n as int);
        let j = find_char_from(s, pos, '\n');
        let piece = s.substring_char(pos, j).to_owned();
        proof {
            lemma_first_index_of(tail, '\n');
            assert(piece@ =~= tail.subrange(0, (j - pos) as int));
        }
        let ghost old_r = r@;
        r.push(piece);
        proof {
            assert(views_of(r@) =~= views_of(old_r).push(piece@));
        }
        if j < n {
            proof {
                assert(tail.subrange((j - pos) as int + 1, tail.len() as int) =~= s@.subrange(
                    j as int + 1,
                    n as int,
                ));
                assert(views_of(old_r) + split_lines_spec(tail) =~= views_of(r@)
                    + split_lines_spec(s@.subrange(j as int + 1, n as int)));
            }
            pos = j + 1;
        } else {
            proof {
                assert(tail =~= s@.subrange(pos as int, n as int));
                assert(split_lines_spec(tail) =~= seq![tail]);
                assert(views_of(old_r) + split_lines_spec(tail) =~= views_of(r@)
                    + split_lines_spec(s@.subrange(n as int, n as int)));
            }
            pos = n;
        }
    }
    proof {
        assert(split_lines_spec(s@.subrange(n as int, n as int)) =~= Seq::<Seq<char>>::empty());
        assert(views_of(r@) + Seq::<Seq<char>>::empty() =~= views_of(r@));
    }
    r
}

/// Join a sequence of lines with `'\n'` between them.
pub open spec fn join_lines_spec(ls: Seq<Seq<char>>) -> Seq<char>
    decreases ls.len(),
{
    if ls.len() == 0 {
        seq![]
    } else if ls.len() == 1 {
        ls[0]
    } else {
        ls[0] + seq!['\n'] + join_lines_spec(ls.drop_first())
    }
}

pub proof fn lemma_join_push(ls: Seq<Seq<char>>, x: Seq<char>)
    ensures
        join_lines_spec(ls.push(x)) == if ls.len() == 0 {
            x
        } else {
            join_lines_spec(ls) + seq!['\n'] + x
        },
    decreases ls.len(),
{
    if ls.len() == 0 {
        assert(ls.push(x) =~= seq![x]);
        assert(join_lines_spec(seq![x]) == x);
    } else if ls.len() == 1 {
        assert(ls.push(x).drop_first() =~= seq![x]);
        assert(join_lines_spec(seq![x]) == x);
        assert(join_lines_spec(ls.push(x)) == ls[0] + seq!['\n'] + x);
    } else {
        lemma_join_push(ls.drop_first(), x);
        assert(ls.push(x).drop_first() =~= ls.drop_first().push(x));
        assert(join_lines_spec(ls) + seq!['\n'] + x =~= ls[0] + seq!['\n'] + (join_lines_spec(
            ls.drop_first(),
        ) + seq!['\n'] + x));
    }
}

/// Join the lines `lines[lo..hi]` with `'\n'`.
#[verifier::loop_isolation(false)]
pub fn join_range(lines: &Vec<String>, lo: usize, hi: usize) -> (r: String)
    requires
        lo <= hi <= lines@.len(),
    ensures
        r@ == join_lines_spec(views_of(lines@).subrange(lo as int, hi as int)),
{
    let mut r = String::new();
    let mut k: usize = lo;
    while k < hi
        invariant
            lo <= k <= hi,
            r@ == join_lines_spec(views_of(lines@).subrange(lo as int, k as int)),
        decreases hi - k,
    {
        let ghost pre = views_of(lines@).subrange(lo as int, k as int);
        if k > lo {
            push_char(&mut r, '\n');
        }
        r.append(lines[k].as_str());
        proof {
            lemma_join_push(pre, lines@[k as int]@);
            assert(views_of(lines@).subrange(lo as int, k as int + 1) =~= pre.push(
                lines@[k as int]@,
            ));
            if k == lo {
                assert(r@ =~= lines@[k as int]@);
            } else {
                assert(r@ =~= join_lines_spec(pre) + seq!['\n'] + lines@[k as int]@);
            }
        }
        k += 1;
    }
    proof {
        if lo == hi {
            assert(views_of(lines@).subrange(lo as int, lo as int) =~= Seq::<Seq<char>>::empty());
        }
    }
    r
}

/// `s` without the prefix `p`, or `s` itself where `p` is no prefix.
pub open spec fn strip_prefix_if(s: Seq<char>, p: Seq<char>) -> Seq<char> {
    if is_prefix_of(p, s) {
        s.subrange(p.len() as int, s.len() as int)
    } else {
        s
    }
}

/// `s` without the suffix `p`, or `s` itself where `p` is no suffix.
pub open spec fn strip_suffix_if(s: Seq<char>, p: Seq<char>) -> Seq<char> {
    if is_suffix_of(p, s) {
        s.subrange(0, s.len() - p.len())
    } else {
        s
    }
}

/// Executable mirror of [`strip_prefix_if`].
pub fn strip_prefix_if_str(s: &str, p: &str) -> (r: String)
    ensures
        r@ == strip_prefix_if(s@, p@),
{
    if starts_with_str(s, p) {
        s.substring_char(p.unicode_len(), s.unicode_len()).to_owned()
    } else {
        s.to_owned()
    }
}

/// Executable mirror of [`strip_suffix_if`].
pub fn strip_suffix_if_str(s: &str, p: &str) -> (r: String)
    ensures
        r@ == strip_suffix_if(s@, p@),
{
    if ends_with_str(s, p) {
        s.substring_char(0, s.unicode_len() - p.unicode_len()).to_owned()
    } else {
        s.to_owned()
    }
}

/// `s` with leading whitespace removed.
pub open spec fn trim_start_spec(s: Seq<char>) -> Seq<char>
    decreases s.len(),
{
    if s.len() > 0 && is_ws(s[0]) {
        trim_start_spec(s.drop_first())
    } else {
        s
    }
}

/// `s` with trailing whitespace removed.
pub open spec fn trim_end_spec(s: Seq<char>) -> Seq<char>
    decreases s.len(),
{
    if s.len() > 0 && is_ws(s[s.len() - 1]) {
        trim_end_spec(s.drop_last())
    } else {
        s
    }
}

/// `s` with whitespace removed on both sides.
pub open spec fn trim_spec(s: Seq<char>) -> Seq<char> {
    trim_end_spec(trim_start_spec(s))
}

pub proof fn lemma_trim_start_at(s: Seq<char>, a: int)
    requires
        0 <= a <= s.len(),
        forall|j: int| 0 <= j < a ==> is_ws(s[j]),
        a < s.len() ==> !is_ws(s[a]),
    ensures
        trim_start_spec(s) == s.subrange(a, s.len() as int),
    decreases a,
{
    if a == 0 {
        if s.len() > 0 && is_ws(s[0]) {
            assert(false);
        }
        assert(s.subrange(0, s.len() as int) =~= s);
    } else {
        assert(is_ws(s[0]));
        let t = s.drop_first();
        assert forall|j: int| 0 <= j < a - 1 implies is_ws(t[j]) by {
            assert(t[j] == s[j + 1]);
        }
        lemma_trim_start_at(t, a - 1);
        assert(t.subrange(a - 1, t.len() as int) =~= s.subrange(a, s.len() as int));
    }
}

pub proof fn lemma_trim_end_at(s: Seq<char>, b: int)
    requires
        0 <= b <= s.len(),
        forall|j: int| b <= j < s.len() ==> is_ws(s[j]),
        b > 0 ==> !is_ws(s[b - 1]),
    ensures
        trim_end_spec(s) == s.subrange(0, b),
    decreases s.len() - b,
{
    if b == s.len() {
        if s.len() > 0 && is_ws(s[s.len() - 1]) {
            assert(false);
        }
        assert(s.subrange(0, s.len() as int) =~= s);
    } else {
        assert(is_ws(s[s.len() - 1]));
        let t = s.drop_last();
        assert forall|j: int| b <= j < t.len() implies is_ws(t[j]) by {
            assert(t[j] == s[j]);
        }
        lemma_trim_end_at(t, b);
        assert(t.subrange(0, b) =~= s.subrange(0, b));
    }
}

/// Number of leading whitespace characters.
pub open spec fn lead_ws(s: Seq<char>) -> nat
    decreases s.len(),
{
    if s.len() > 0 && is_ws(s[0]) {
        1 + lead_ws(s.drop_first())
    } else {
        0
    }
}

pub proof fn lemma_lead_ws(s: Seq<char>)
    ensures
        lead_ws(s) <= s.len(),
        forall|j: int| 0 <= j < lead_ws(s) ==> is_ws(s[j]),
        lead_ws(s) < s.len() ==> !is_ws(s[lead_ws(s) as int]),
    decreases s.len(),
{
    if s.len() > 0 && is_ws(s[0]) {
        lemma_lead_ws(s.drop_first());
        assert forall|j: int| 0 <= j < lead_ws(s) implies is_ws(s[j]) by {
            if j > 0 {
                assert(s.drop_first()[j - 1] == s[j]);
            }
        }
        if lead_ws(s) < s.len() {
            assert(s.drop_first()[lead_ws(s.drop_first()) as int] == s[lead_ws(s) as int]);
        }
    }
}

/// Executable count of leading whitespace characters.
#[verifier::loop_isolation(false)]
pub fn leading_ws_count(s: &str) -> (r: usize)
    ensures
        r == lead_ws(s@),
{
    proof {
        lemma_lead_ws(s@);
    }
    let n = s.unicode_len();
    let mut i: usize = 0;
    while i < n
        invariant
            i <= n,
            forall|j: int| 0 <= j < i ==> is_ws(s@[j]),
        decreases n - i,
    {
        if !is_ws_char(s.get_char(i)) {
            proof {
                if lead_ws(s@) > i {
                    assert(is_ws(s@[i as int]));
                }
                if lead_ws(s@) < i {
                    assert(!is_ws(s@[lead_ws(s@) as int]));
                }
            }
            return i;
        }
        i += 1;
    }
    proof {
        if lead_ws(s@) < n {
            assert(!is_ws(s@[lead_ws(s@) as int]));
        }
    }
    n
}

/// Executable whitespace trim on both sides.
#[verifier::loop_isolation(false)]
pub fn trim(s: &str) -> (r: String)
    ensures
        r@ == trim_spec(s@),
{
    let n = s.unicode_len();
    let a = leading_ws_count(s);
    proof {
        lemma_lead_ws(s@);
        lemma_trim_start_at(s@, a as int);
    }
    if a == n {
        proof {
            assert(s@.subrange(a as int, n as int) =~= Seq::<char>::empty());
            assert(trim_end_spec(Seq::<char>::empty()) =~= Seq::<char>::empty());
        }
        return String::new();
    }
    let mut b: usize = n;
    while b > a && is_ws_char(s.get_char(b - 1))
        invariant
            a <= b <= n,
            forall|j: int| b <= j < n ==> is_ws(s@[j]),
        decreases b,
    {
        b -= 1;
    }
    proof {
        let t = s@.subrange(a as int, n as int);
        assert(!is_ws(t[0]));
        assert(b > a);
        assert forall|j: int| b - a <= j < t.len() implies is_ws(t[j]) by {
            assert(t[j] == s@[a + j]);
        }
        assert(t[b - a - 1] == s@[b as int - 1]);
        lemma_trim_end_at(t, b as int - a as int);
        assert(t.subrange(0, b - a) =~= s@.subrange(a as int, b as int));
    }
    s.substring_char(a, b).to_owned()
}

} // verus!
