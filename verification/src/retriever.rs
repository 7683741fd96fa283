//! Reciprocal Rank Fusion of two ranked result lists.
//!
//! Both search arms return rows ordered by ascending distance; fusion is
//! rank-based: a row at rank `r` (starting at 1) in a list contributes
//! `1/(K + r)` with `K = 60`, and a row's fused score is the sum of its
//! contributions over the two lists.  Scores are kept as exact fractions
//! (`score_num / score_den`), rows are ordered by descending fused score
//! with ties broken by first appearance, and the list is cut to `limit`.

use vstd::prelude::*;
use vstd::string::*;
use crate::strutil::{str_eq, views_of};

verus! {

/// The fusion constant `K`.
pub open spec fn rrf_k() -> int {
    60
}

/// The default number of rows a search returns.
pub fn default_limit() -> (r: usize)
    ensures
        r == 10,
{
    10
}

/// First position of `id` in `ids` at or after `j`.
pub open spec fn idx_from(ids: Seq<Seq<char>>, id: Seq<char>, j: int) -> Option<int>
    decreases ids.len() - j,
{
    if j < 0 || j >= ids.len() {
        None
    } else if ids[j] == id {
        Some(j)
    } else {
        idx_from(ids, id, j + 1)
    }
}

/// Executable mirror of [`idx_from`].
pub fn find_id(ids: &Vec<String>, id: &str, j: usize) -> (r: Option<usize>)
    ensures
        idx_from(views_of(ids@), id@, j as int) == match r {
            Some(q) => Some(q as int),
            None => None::<int>,
        },
        r matches Some(q) ==> j <= q < ids@.len(),
    decreases ids@.len() - j,
{
    if j >= ids.len() {
        return None;
    }
    proof {
        assert(views_of(ids@)[j as int] == ids@[j as int]@);
    }
    if str_eq(ids[j].as_str(), id) {
        Some(j)
    } else {
        find_id(ids, id, j + 1)
    }
}

pub proof fn lemma_idx_from_bounds(ids: Seq<Seq<char>>, id: Seq<char>, j: int)
    requires
        j >= 0,
    ensures
        idx_from(ids, id, j) matches Some(q) ==> j <= q < ids.len() && ids[q] == id,
        idx_from(ids, id, j) is None ==> forall|q: int| j <= q < ids.len() ==> ids[q] != id,
    decreases ids.len() - j,
{
    if j < 0 || j >= ids.len() {
    } else if ids[j] == id {
    } else {
        lemma_idx_from_bounds(ids, id, j + 1);
    }
}

pub proof fn lemma_idx_from_first(ids: Seq<Seq<char>>, id: Seq<char>, j: int, i: int)
    requires
        0 <= j <= i < ids.len(),
        ids[i] == id,
        forall|q: int| j <= q < i ==> ids[q] != id,
    ensures
        idx_from(ids, id, j) == Some(i),
    decreases i - j,
{
    if j < i {
        lemma_idx_from_first(ids, id, j + 1, i);
    }
}

/// No id occurs twice.
pub open spec fn distinct_ids(ids: Seq<Seq<char>>) -> bool {
    forall|i: int, j: int| 0 <= i < j < ids.len() ==> ids[i] != ids[j]
}

pub proof fn lemma_idx_from_distinct(ids: Seq<Seq<char>>, i: int)
    requires
        distinct_ids(ids),
        0 <= i < ids.len(),
    ensures
        idx_from(ids, ids[i], 0) == Some(i),
{
    lemma_idx_from_first(ids, ids[i], 0, i);
}

/// Numerator of the fused score of `id` over content ids `c` and summary
/// ids `s`.
pub open spec fn fused_num(c: Seq<Seq<char>>, s: Seq<Seq<char>>, id: Seq<char>) -> int {
    match (idx_from(c, id, 0), idx_from(s, id, 0)) {
        (Some(a), Some(b)) => (rrf_k() + a + 1) + (rrf_k() + b + 1),
        (Some(_), None) => 1,
        (None, Some(_)) => 1,
        (None, None) => 0,
    }
}

/// Denominator of the fused score of `id`.
pub open spec fn fused_den(c: Seq<Seq<char>>, s: Seq<Seq<char>>, id: Seq<char>) -> int {
    match (idx_from(c, id, 0), idx_from(s, id, 0)) {
        (Some(a), Some(b)) => (rrf_k() + a + 1) * (rrf_k() + b + 1),
        (Some(a), None) => rrf_k() + a + 1,
        (None, Some(b)) => rrf_k() + b + 1,
        (None, None) => 1,
    }
}

/// The reciprocal-rank-fusion law: a row ranked first in both lists has the
/// fused score `2 / (K + 1)`; a row at rank `r` in exactly one list has the
/// fused score `1 / (K + r)`.  Scores are exact fractions, so equality with
/// the stated value is by cross-multiplication.
pub proof fn lemma_rrf_law(c: Seq<Seq<char>>, s: Seq<Seq<char>>, id: Seq<char>)
    ensures
        idx_from(c, id, 0) == Some(0int) && idx_from(s, id, 0) == Some(0int) ==> fused_num(c, s, id)
            * (rrf_k() + 1) == 2 * fused_den(c, s, id),
        idx_from(c, id, 0) matches Some(a) ==> (idx_from(s, id, 0) is None ==> fused_num(c, s, id)
            == 1 && fused_den(c, s, id) == rrf_k() + (a + 1)),
        idx_from(s, id, 0) matches Some(b) ==> (idx_from(c, id, 0) is None ==> fused_num(c, s, id)
            == 1 && fused_den(c, s, id) == rrf_k() + (b + 1)),
{
    if idx_from(c, id, 0) == Some(0int) && idx_from(s, id, 0) == Some(0int) {
        assert(fused_den(c, s, id) == 61 * 61);
        assert(fused_num(c, s, id) == 122);
    }
}

/// Fused denominators are positive.
pub proof fn lemma_fused_den_pos(c: Seq<Seq<char>>, s: Seq<Seq<char>>, id: Seq<char>)
    ensures
        fused_den(c, s, id) >= 1,
{
    lemma_idx_from_bounds(c, id, 0);
    lemma_idx_from_bounds(s, id, 0);
    match (idx_from(c, id, 0), idx_from(s, id, 0)) {
        (Some(a), Some(b)) => {
            assert((rrf_k() + a + 1) * (rrf_k() + b + 1) >= 1) by (nonlinear_arith)
                requires
                    a >= 0,
                    b >= 0,
            ;
        },
        _ => {},
    }
}

/// The extra fused ids contributed by the first `j` summary rows: those not
/// already in the content list, in order.
pub open spec fn extras_upto(c: Seq<Seq<char>>, s: Seq<Seq<char>>, j: int) -> Seq<Seq<char>>
    decreases
            if j >= 0 {
                j
            } else {
                0
            },
{
    if j <= 0 {
        Seq::empty()
    } else {
        extras_upto(c, s, j - 1) + (if idx_from(c, s[j - 1], 0) is None {
            seq![s[j - 1]]
        } else {
            Seq::empty()
        })
    }
}

/// All fused ids in first-appearance order: the content list, then the
/// summary rows that the content list does not hold.
pub open spec fn merged_ids(c: Seq<Seq<char>>, s: Seq<Seq<char>>) -> Seq<Seq<char>> {
    c + extras_upto(c, s, s.len() as int)
}

/// Earlier extras are a prefix of later ones.
pub proof fn lemma_extras_prefix(c: Seq<Seq<char>>, s: Seq<Seq<char>>, j: int, k: int)
    requires
        0 <= j <= k,
    ensures
        extras_upto(c, s, j).len() <= extras_upto(c, s, k).len(),
        forall|t: int|
            0 <= t < extras_upto(c, s, j).len() ==> #[trigger] extras_upto(c, s, k)[t]
                == extras_upto(c, s, j)[t],
    decreases k - j,
{
    if j < k {
        lemma_extras_prefix(c, s, j, k - 1);
    }
}

/// One fused row: the row id, its exact fused score, and its position in
/// first-appearance order (the tie-break key of the stable sort).
#[derive(Debug)]
pub struct FusedHit {
    pub id: String,
    pub score_num: u64,
    pub score_den: u64,
    pub order: usize,
}

/// `a` stands before `b`: strictly greater fused score, or an equal score
/// and earlier first appearance.
#[verifier::opaque]
pub open spec fn hit_before(a: FusedHit, b: FusedHit) -> bool {
    ||| a.score_num * b.score_den > b.score_num * a.score_den
    ||| (a.score_num * b.score_den == b.score_num * a.score_den && a.order < b.order)
}

/// `h` ranks before the fused entry whose first-appearance position is
/// `ord`.
#[verifier::opaque]
pub open spec fn hit_before_entry(
    h: FusedHit,
    c: Seq<Seq<char>>,
    s: Seq<Seq<char>>,
    ord: int,
) -> bool {
    let id = merged_ids(c, s)[ord];
    let num = fused_num(c, s, id);
    let den = fused_den(c, s, id);
    ||| h.score_num * den > num * h.score_den
    ||| (h.score_num * den == num * h.score_den && h.order < ord)
}

/// The row is a faithful fused entry of the two lists.
pub open spec fn entry_ok(h: FusedHit, c: Seq<Seq<char>>, s: Seq<Seq<char>>) -> bool {
    &&& 0 <= h.order < merged_ids(c, s).len()
    &&& h.id@ == merged_ids(c, s)[h.order as int]
    &&& h.score_num == fused_num(c, s, h.id@)
    &&& h.score_den == fused_den(c, s, h.id@)
}

/// Executable comparison mirroring [`hit_before`].
fn hit_lt(a: &FusedHit, b: &FusedHit) -> (r: bool)
    ensures
        r == hit_before(*a, *b),
{
    proof {
        reveal(hit_before);
        assert((a.score_num as u128) * (b.score_den as u128) < 0x100000000000000000000000000000000)
            by (nonlinear_arith)
            requires
                a.score_num <= u64::MAX,
                b.score_den <= u64::MAX,
        ;
        assert((b.score_num as u128) * (a.score_den as u128) < 0x100000000000000000000000000000000)
            by (nonlinear_arith)
            requires
                b.score_num <= u64::MAX,
                a.score_den <= u64::MAX,
        ;
    }
    let left = (a.score_num as u128) * (b.score_den as u128);
    let right = (b.score_num as u128) * (a.score_den as u128);
    left > right || (left == right && a.order < b.order)
}

/// Build one faithful fused entry per id, in first-appearance order.
#[verifier::loop_isolation(false)]
#[verifier::rlimit(100)]
fn build_entries(content_ids: &Vec<String>, summary_ids: &Vec<String>) -> (r: Vec<FusedHit>)
    requires
        distinct_ids(views_of(content_ids@)),
        distinct_ids(views_of(summary_ids@)),
        content_ids@.len() <= 0x10000000,
        summary_ids@.len() <= 0x10000000,
    ensures
        ({
            let c = views_of(content_ids@);
            let s = views_of(summary_ids@);
            &&& r@.len() == merged_ids(c, s).len()
            &&& forall|j: int| 0 <= j < r@.len() ==> entry_ok(#[trigger] r@[j], c, s)
            &&& forall|j: int| 0 <= j < r@.len() ==> (#[trigger] r@[j]).order == j
        }),
{
    let ghost c = views_of(content_ids@);
    let ghost s = views_of(summary_ids@);
    let nc = content_ids.len();
    let nsu = summary_ids.len();
    let mut r: Vec<FusedHit> = Vec::new();
    let mut i: usize = 0;
    while i < nc
        invariant
            i <= nc,
            r@.len() == i,
            forall|j: int| 0 <= j < r@.len() ==> entry_ok(#[trigger] r@[j], c, s),
            forall|j: int| 0 <= j < r@.len() ==> (#[trigger] r@[j]).order == j,
        decreases nc - i,
    {
        proof {
            assert(c[i as int] == content_ids@[i as int]@);
            lemma_idx_from_distinct(c, i as int);
            assert(merged_ids(c, s)[i as int] == c[i as int]);
        }
        let si = find_id(summary_ids, content_ids[i].as_str(), 0);
        let num: u64;
        let den: u64;
        match si {
            Some(b) => {
                proof {
                    assert((61 + (i as int)) * (61 + (b as int)) <= 0x20000001 * 0x20000001)
                        by (nonlinear_arith)
                        requires
                            0 <= i <= 0x10000000,
                            0 <= b <= 0x10000000,
                    ;
                }
                num = 122 + (i as u64) + (b as u64);
                den = (61 + (i as u64)) * (61 + (b as u64));
            },
            None => {
                num = 1;
                den = 61 + (i as u64);
            },
        }
        let hit = FusedHit { id: content_ids[i].clone(), score_num: num, score_den: den, order: i };
        proof {
            assert(hit.id@ == c[i as int]);
            assert(entry_ok(hit, c, s));
        }
        r.push(hit);
        i += 1;
    }
    let mut j: usize = 0;
    proof {
        assert(merged_ids(c, s).len() == nc + extras_upto(c, s, s.len() as int).len());
    }
    while j < nsu
        invariant
            j <= nsu,
            r@.len() == nc + extras_upto(c, s, j as int).len(),
            r@.len() <= nc + j,
            forall|k: int| 0 <= k < r@.len() ==> entry_ok(#[trigger] r@[k], c, s),
            forall|k: int| 0 <= k < r@.len() ==> (#[trigger] r@[k]).order == k,
        decreases nsu - j,
    {
        proof {
            assert(s[j as int] == summary_ids@[j as int]@);
            lemma_extras_prefix(c, s, j as int, j as int + 1);
        }
        let ci = find_id(content_ids, summary_ids[j].as_str(), 0);
        match ci {
            Some(_) => {
            },
            None => {
                proof {
                    lemma_idx_from_distinct(s, j as int);
                    lemma_extras_prefix(c, s, j as int + 1, s.len() as int);
                    assert(extras_upto(c, s, j as int + 1)[extras_upto(c, s, j as int).len() as int]
                        == s[j as int]);
                    assert(merged_ids(c, s)[r@.len() as int] == s[j as int]);
                }
                let ord = r.len();
                let hit = FusedHit {
                    id: summary_ids[j].clone(),
                    score_num: 1,
                    score_den: 61 + (j as u64),
                    order: ord,
                };
                proof {
                    assert(entry_ok(hit, c, s));
                }
                r.push(hit);
            },
        }
        j += 1;
    }
    r
}

/// Fused rows with different tie-break keys always compare one way or the
/// other.
proof fn lemma_not_before_total(a: FusedHit, b: FusedHit)
    requires
        a.order != b.order,
        !hit_before(a, b),
    ensures
        hit_before(b, a),
{
    reveal(hit_before);
}

/// The list is sorted by [`hit_before`].
#[verifier::opaque]
pub open spec fn sorted_hits(s: Seq<FusedHit>) -> bool {
    forall|i: int, j: int| 0 <= i < j < s.len() ==> hit_before(s[i], s[j])
}

/// Every input row with index at least `lo` occurs in `out`.
#[verifier::opaque]
pub open spec fn covers_suffix(out: Seq<FusedHit>, iv: Seq<FusedHit>, lo: int) -> bool {
    forall|k: int|
        lo <= k < iv.len() ==> exists|j: int|
            0 <= j < out.len() && (#[trigger] out[j]) == (#[trigger] iv[k])
}

/// Every row of `out` is an input row with index at least `lo`.
#[verifier::opaque]
pub open spec fn drawn_from_suffix(out: Seq<FusedHit>, iv: Seq<FusedHit>, lo: int) -> bool {
    forall|j: int|
        0 <= j < out.len() ==> exists|k: int|
            lo <= k < iv.len() && (#[trigger] out[j]) == (#[trigger] iv[k])
}

proof fn lemma_atoms_empty(iv: Seq<FusedHit>)
    ensures
        sorted_hits(Seq::<FusedHit>::empty()),
        covers_suffix(Seq::<FusedHit>::empty(), iv, iv.len() as int),
        drawn_from_suffix(Seq::<FusedHit>::empty(), iv, iv.len() as int),
{
    reveal(sorted_hits);
    reveal(covers_suffix);
    reveal(drawn_from_suffix);
}

proof fn lemma_sorted_at(s: Seq<FusedHit>, i: int, j: int)
    requires
        sorted_hits(s),
        0 <= i < j < s.len(),
    ensures
        hit_before(s[i], s[j]),
{
    reveal(sorted_hits);
}

proof fn lemma_drawn_entry(out: Seq<FusedHit>, iv: Seq<FusedHit>, lo: int, j: int)
    requires
        drawn_from_suffix(out, iv, lo),
        0 <= j < out.len(),
    ensures
        exists|k: int| lo <= k < iv.len() && (#[trigger] iv[k]) == out[j],
{
    reveal(drawn_from_suffix);
    let k = choose|k: int| lo <= k < iv.len() && (#[trigger] out[j]) == (#[trigger] iv[k]);
    assert(iv[k] == out[j]);
}

proof fn lemma_covers_at(out: Seq<FusedHit>, iv: Seq<FusedHit>, lo: int, k: int)
    requires
        covers_suffix(out, iv, lo),
        lo <= k < iv.len(),
    ensures
        exists|j: int| 0 <= j < out.len() && (#[trigger] out[j]) == iv[k],
{
    reveal(covers_suffix);
    let j = choose|j: int| 0 <= j < out.len() && (#[trigger] out[j]) == (#[trigger] iv[k]);
    assert(out[j] == iv[k]);
}

/// Inserting a row at its sorted position keeps the list sorted and keeps
/// it a rearrangement of the processed suffix of the input.
#[verifier::rlimit(100)]
proof fn lemma_insert_step(old_out: Seq<FusedHit>, x: FusedHit, p: int, iv: Seq<FusedHit>, m: int)
    requires
        0 <= p <= old_out.len(),
        0 <= m < iv.len(),
        x == iv[m],
        forall|k: int| 0 <= k < iv.len() ==> (#[trigger] iv[k]).score_den >= 1,
        sorted_hits(old_out),
        covers_suffix(old_out, iv, m + 1),
        drawn_from_suffix(old_out, iv, m + 1),
        forall|q: int| 0 <= q < p ==> hit_before(#[trigger] old_out[q], x),
        p < old_out.len() ==> hit_before(x, old_out[p]),
    ensures
        old_out.insert(p, x).len() == old_out.len() + 1,
        sorted_hits(old_out.insert(p, x)),
        covers_suffix(old_out.insert(p, x), iv, m),
        drawn_from_suffix(old_out.insert(p, x), iv, m),
{
    reveal(sorted_hits);
    reveal(covers_suffix);
    reveal(drawn_from_suffix);
    old_out.insert_ensures(p, x);
    let new = old_out.insert(p, x);
    assert forall|i: int, j: int| 0 <= i < j < new.len() implies hit_before(new[i], new[j]) by {
        if i < p && j < p {
            assert(new[i] == old_out[i] && new[j] == old_out[j]);
        } else if i < p && j == p {
            assert(new[i] == old_out[i]);
        } else if i < p && j > p {
            assert(new[i] == old_out[i] && new[j] == old_out[j - 1]);
            assert(hit_before(old_out[i], old_out[j - 1]));
        } else if i == p && j > p {
            assert(new[j] == old_out[j - 1]);
            if p < old_out.len() {
                assert(hit_before(x, old_out[p]));
                if j - 1 > p {
                    assert(hit_before(old_out[p], old_out[j - 1]));
                    let kp = choose|kp: int|
                        m + 1 <= kp < iv.len() && (#[trigger] old_out[p]) == (#[trigger] iv[kp]);
                    let kj = choose|kj: int|
                        m + 1 <= kj < iv.len() && (#[trigger] old_out[j - 1]) == (
                        #[trigger] iv[kj]);
                    assert(old_out[p].score_den >= 1);
                    assert(old_out[j - 1].score_den >= 1);
                    lemma_before_trans(x, old_out[p], old_out[j - 1]);
                }
            }
        } else {
            assert(new[i] == old_out[i - 1] && new[j] == old_out[j - 1]);
        }
    }
    assert forall|k: int| m <= k < iv.len() implies exists|j: int|
        0 <= j < new.len() && (#[trigger] new[j]) == (#[trigger] iv[k]) by {
        if k == m {
            assert(new[p] == iv[k]);
        } else {
            let j0 = choose|j0: int| 0 <= j0 < old_out.len() && old_out[j0] == iv[k];
            if j0 < p {
                assert(new[j0] == iv[k]);
            } else {
                assert(new[j0 + 1] == iv[k]);
            }
        }
    }
    assert forall|j: int| 0 <= j < new.len() implies exists|k: int|
        m <= k < iv.len() && (#[trigger] new[j]) == (#[trigger] iv[k]) by {
        if j == p {
            assert(new[j] == iv[m]);
        } else if j < p {
            assert(new[j] == old_out[j]);
        } else {
            assert(new[j] == old_out[j - 1]);
        }
    }
}

/// Ranking before is transitive (scores are fractions with positive
/// denominators).
proof fn lemma_before_trans(a: FusedHit, b: FusedHit, c: FusedHit)
    requires
        a.score_den >= 1,
        b.score_den >= 1,
        c.score_den >= 1,
        hit_before(a, b),
        hit_before(b, c),
    ensures
        hit_before(a, c),
{
    reveal(hit_before);
    let ab = a.score_num * b.score_den;
    let ba = b.score_num * a.score_den;
    let bc = b.score_num * c.score_den;
    let cb = c.score_num * b.score_den;
    if ab > ba && bc > cb {
        lemma_cross_trans_strict(
            a.score_num as int,
            a.score_den as int,
            b.score_num as int,
            b.score_den as int,
            c.score_num as int,
            c.score_den as int,
        );
    } else if ab > ba && bc == cb {
        lemma_cross_trans_right_eq(
            a.score_num as int,
            a.score_den as int,
            b.score_num as int,
            b.score_den as int,
            c.score_num as int,
            c.score_den as int,
        );
    } else if ab == ba && bc > cb {
        lemma_cross_trans_left_eq(
            a.score_num as int,
            a.score_den as int,
            b.score_num as int,
            b.score_den as int,
            c.score_num as int,
            c.score_den as int,
        );
    } else {
        lemma_cross_trans_both_eq(
            a.score_num as int,
            a.score_den as int,
            b.score_num as int,
            b.score_den as int,
            c.score_num as int,
            c.score_den as int,
        );
    }
}

proof fn lemma_cross_trans_strict(an: int, ad: int, bn: int, bd: int, cn: int, cd: int)
    by (nonlinear_arith)
    requires
        ad >= 1,
        bd >= 1,
        cd >= 1,
        an * bd > bn * ad,
        bn * cd > cn * bd,
    ensures
        an * cd > cn * ad,
{
}

proof fn lemma_cross_trans_right_eq(an: int, ad: int, bn: int, bd: int, cn: int, cd: int)
    by (nonlinear_arith)
    requires
        ad >= 1,
        bd >= 1,
        cd >= 1,
        an * bd > bn * ad,
        bn * cd == cn * bd,
    ensures
        an * cd > cn * ad,
{
}

proof fn lemma_cross_trans_left_eq(an: int, ad: int, bn: int, bd: int, cn: int, cd: int)
    by (nonlinear_arith)
    requires
        ad >= 1,
        bd >= 1,
        cd >= 1,
        an * bd == bn * ad,
        bn * cd > cn * bd,
    ensures
        an * cd > cn * ad,
{
}

proof fn lemma_cross_trans_both_eq(an: int, ad: int, bn: int, bd: int, cn: int, cd: int)
    by (nonlinear_arith)
    requires
        ad >= 1,
        bd >= 1,
        cd >= 1,
        an * bd == bn * ad,
        bn * cd == cn * bd,
    ensures
        an * cd == cn * ad,
{
}

/// A row ranking before a faithful entry ranks before that entry's
/// first-appearance position.
proof fn lemma_before_to_entry(a: FusedHit, b: FusedHit, c: Seq<Seq<char>>, s: Seq<Seq<char>>)
    requires
        hit_before(a, b),
        entry_ok(b, c, s),
    ensures
        hit_before_entry(a, c, s, b.order as int),
{
    reveal(hit_before);
    reveal(hit_before_entry);
}

/// The position where a new row belongs in a sorted list.
#[verifier::loop_isolation(false)]
fn find_insert_pos(out: &Vec<FusedHit>, x: &FusedHit) -> (p: usize)
    ensures
        p <= out@.len(),
        forall|q: int| 0 <= q < p ==> !hit_before(*x, #[trigger] out@[q]),
        p < out@.len() ==> hit_before(*x, out@[p as int]),
{
    let mut p: usize = 0;
    while p < out.len() && !hit_lt(x, &out[p])
        invariant
            p <= out@.len(),
            forall|q: int| 0 <= q < p ==> !hit_before(*x, #[trigger] out@[q]),
        decreases out@.len() - p,
    {
        p += 1;
    }
    p
}

/// Rows that the new row does not rank before rank before it: the tie-break
/// keys of rows drawn from one input are pairwise distinct.
proof fn lemma_flip_all(out: Seq<FusedHit>, x: FusedHit, p: int, iv: Seq<FusedHit>, m: int)
    requires
        0 <= p <= out.len(),
        0 <= m < iv.len(),
        x == iv[m],
        forall|i: int, j: int|
            0 <= i < j < iv.len() ==> (#[trigger] iv[i]).order != (#[trigger] iv[j]).order,
        drawn_from_suffix(out, iv, m + 1),
        forall|q: int| 0 <= q < p ==> !hit_before(x, #[trigger] out[q]),
    ensures
        forall|q: int| 0 <= q < p ==> hit_before(#[trigger] out[q], x),
{
    reveal(drawn_from_suffix);
    assert forall|q: int| 0 <= q < p implies hit_before(#[trigger] out[q], x) by {
        let kq = choose|kq: int|
            m + 1 <= kq < iv.len() && (#[trigger] out[q]) == (#[trigger] iv[kq]);
        assert(out[q].order != x.order);
        lemma_not_before_total(x, out[q]);
    }
}

/// Insert one row at its sorted position: the list stays sorted and now
/// also holds the new row.
fn insert_hit(out: &mut Vec<FusedHit>, x: FusedHit, Ghost(iv): Ghost<Seq<FusedHit>>, Ghost(m): Ghost<
    int,
>)
    requires
        0 <= m < iv.len(),
        x == iv[m],
        forall|k: int| 0 <= k < iv.len() ==> (#[trigger] iv[k]).score_den >= 1,
        forall|i: int, j: int|
            0 <= i < j < iv.len() ==> (#[trigger] iv[i]).order != (#[trigger] iv[j]).order,
        sorted_hits(old(out)@),
        covers_suffix(old(out)@, iv, m + 1),
        drawn_from_suffix(old(out)@, iv, m + 1),
    ensures
        final(out)@.len() == old(out)@.len() + 1,
        sorted_hits(final(out)@),
        covers_suffix(final(out)@, iv, m),
        drawn_from_suffix(final(out)@, iv, m),
{
    let p = find_insert_pos(out, &x);
    proof {
        lemma_flip_all(out@, x, p as int, iv, m);
        assert forall|q: int| 0 <= q < p implies hit_before(#[trigger] out@[q], x) by {}
        lemma_sorted_all(out@);
    }
    let ghost old_out = out@;
    out.insert(p, x);
    proof {
        lemma_insert_step(old_out, x, p as int, iv, m);
        assert(out@ == old_out.insert(p as int, x));
    }
}

/// A sorted list's pairs are all ordered (helper to expose the atom once).
proof fn lemma_sorted_all(s: Seq<FusedHit>)
    requires
        sorted_hits(s),
    ensures
        forall|i: int, j: int| 0 <= i < j < s.len() ==> hit_before(s[i], s[j]),
{
    reveal(sorted_hits);
}

/// Sort fused entries by [`hit_before`]: strictly descending score, ties by
/// first appearance.  The result is a rearrangement: it has the same length
/// and holds every input row.
#[verifier::loop_isolation(false)]
fn sort_hits(input: Vec<FusedHit>) -> (r: Vec<FusedHit>)
    requires
        forall|k: int| 0 <= k < input@.len() ==> (#[trigger] input@[k]).score_den >= 1,
        forall|i: int, j: int|
            0 <= i < j < input@.len() ==> (#[trigger] input@[i]).order != (
            #[trigger] input@[j]).order,
    ensures
        r@.len() == input@.len(),
        sorted_hits(r@),
        covers_suffix(r@, input@, 0),
        drawn_from_suffix(r@, input@, 0),
{
    let ghost iv = input@;
    let mut inp = input;
    let mut out: Vec<FusedHit> = Vec::new();
    proof {
        lemma_atoms_empty(iv);
        assert(out@ =~= Seq::<FusedHit>::empty());
    }
    while inp.len() > 0
        invariant
            inp@ == iv.subrange(0, inp@.len() as int),
            out@.len() + inp@.len() == iv.len(),
            sorted_hits(out@),
            covers_suffix(out@, iv, inp@.len() as int),
            drawn_from_suffix(out@, iv, inp@.len() as int),
        decreases inp@.len(),
    {
        let ghost m = inp@.len() - 1;
        let x = match inp.pop() {
            Some(x) => x,
            None => {
                proof {
                    assert(false);
                }
                unreached()
            },
        };
        proof {
            assert(x == iv[m]);
            assert(inp@ =~= iv.subrange(0, m));
        }
        insert_hit(&mut out, x, Ghost(iv), Ghost(m));
    }
    proof {
        assert(iv.subrange(0, 0) =~= Seq::<FusedHit>::empty());
    }
    out
}

/// Fuse two ranked id lists with Reciprocal Rank Fusion.  The result holds
/// at most `limit` rows: faithful fused entries, sorted by strictly
/// descending fused score with ties broken by first appearance; any fused
/// id left out ranks below every row returned.
#[verifier::rlimit(100)]
pub fn rrf_merge(content_ids: &Vec<String>, summary_ids: &Vec<String>, limit: usize) -> (r: Vec<
    FusedHit,
>)
    requires
        distinct_ids(views_of(content_ids@)),
        distinct_ids(views_of(summary_ids@)),
        content_ids@.len() <= 0x10000000,
        summary_ids@.len() <= 0x10000000,
    ensures
        ({
            let c = views_of(content_ids@);
            let s = views_of(summary_ids@);
            let n = merged_ids(c, s).len() as int;
            &&& r@.len() == (if limit <= n {
                limit as int
            } else {
                n
            })
            &&& forall|j: int| 0 <= j < r@.len() ==> entry_ok(#[trigger] r@[j], c, s)
            &&& forall|i: int, j: int| 0 <= i < j < r@.len() ==> hit_before(r@[i], r@[j])
            &&& forall|j: int, ord: int|
                #![trigger hit_before_entry(r@[j], c, s, ord)]
                0 <= j < r@.len() && 0 <= ord < n && !(exists|j2: int|
                    0 <= j2 < r@.len() && (#[trigger] r@[j2]).order == ord) ==> hit_before_entry(
                    r@[j],
                    c,
                    s,
                    ord,
                )
        }),
{
    let ghost c = views_of(content_ids@);
    let ghost s = views_of(summary_ids@);
    let merged = build_entries(content_ids, summary_ids);
    let ghost mv = merged@;
    proof {
        assert forall|k: int| 0 <= k < mv.len() implies (#[trigger] mv[k]).score_den >= 1 by {
            assert(entry_ok(mv[k], c, s));
            lemma_fused_den_pos(c, s, mv[k].id@);
        }
    }
    let sorted = sort_hits(merged);
    let ghost full = sorted@;
    let mut out = sorted;
    let n = out.len();
    if limit < n {
        out.truncate(limit);
        proof {
            assert(out@ =~= full.subrange(0, limit as int));
        }
    }
    proof {
        assert forall|j: int| 0 <= j < out@.len() implies entry_ok(#[trigger] out@[j], c, s) by {
            assert(out@[j] == full[j]);
            lemma_drawn_entry(full, mv, 0, j);
            let k = choose|k: int| 0 <= k < mv.len() && (#[trigger] mv[k]) == full[j];
            assert(entry_ok(mv[k], c, s));
        }
        assert forall|i: int, j: int| 0 <= i < j < out@.len() implies hit_before(
            out@[i],
            out@[j],
        ) by {
            assert(out@[i] == full[i] && out@[j] == full[j]);
            lemma_sorted_at(full, i, j);
        }
        assert forall|j: int, ord: int|
            #![trigger hit_before_entry(out@[j], c, s, ord)]
            0 <= j < out@.len() && 0 <= ord < merged_ids(c, s).len() && !(exists|j2: int|
                0 <= j2 < out@.len() && (#[trigger] out@[j2]).order == ord) implies hit_before_entry(
            out@[j],
            c,
            s,
            ord,
        ) by {
            assert(entry_ok(mv[ord], c, s));
            assert(mv[ord].order == ord);
            lemma_covers_at(full, mv, 0, ord);
            let jj = choose|jj: int| 0 <= jj < full.len() && (#[trigger] full[jj]) == mv[ord];
            assert(full[jj].order == ord);
            if jj < out@.len() {
                assert(out@[jj] == full[jj]);
                assert((out@[jj]).order == ord);
                assert(false);
            }
            assert(out@[j] == full[j]);
            lemma_sorted_at(full, j, jj);
            assert(entry_ok(full[jj], c, s));
            lemma_before_to_entry(full[j], full[jj], c, s);
        }
    }
    out
}

} // verus!
