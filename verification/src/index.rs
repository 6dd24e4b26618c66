//! Nearest-neighbour lookup over a frozen snapshot of positions.
//!
//! The index is rebuilt from the whole population each step; a query
//! returns the `k` closest points by squared Euclidean distance, ties
//! broken toward the lower index.  Results are a pure function of the
//! position snapshot, so two indexes built from equal snapshots answer
//! every query identically.

use vstd::prelude::*;
use crate::vec2::{V2, Gv2, gv_in, lemma_sq_nonneg};
use crate::fx::lemma_mul_range;

verus! {

/// Positions this far (in fixed-point thousandths) from the origin are
/// the largest the index accepts; far beyond any viewport, and small
/// enough that a squared distance fits a machine word.
pub const WORLD_BOUND: i64 = 0x1000_0000;

/// Squared Euclidean distance, exact.
pub open spec fn gsqd(a: Gv2, b: Gv2) -> int {
    (a.x - b.x) * (a.x - b.x) + (a.y - b.y) * (a.y - b.y)
}

/// Neighbour entries `(index, squared distance)` are ordered by
/// distance, ties by index.
pub open spec fn lex_le(a: (int, int), b: (int, int)) -> bool {
    a.1 < b.1 || (a.1 == b.1 && a.0 <= b.0)
}

pub open spec fn sorted_lex(s: Seq<(int, int)>) -> bool {
    forall|i: int, j: int| 0 <= i <= j < s.len() ==> lex_le(s[i], s[j])
}

/// The entry names a point of the snapshot prefix of length `n`, with
/// its true squared distance to `q`.
pub open spec fn valid_entry(e: (int, int), ps: Seq<Gv2>, q: Gv2, n: int) -> bool {
    0 <= e.0 < n && e.1 == gsqd(ps[e.0], q)
}

pub open spec fn entries_ok(s: Seq<(int, int)>, ps: Seq<Gv2>, q: Gv2, n: int) -> bool {
    forall|i: int| 0 <= i < s.len() ==> valid_entry(#[trigger] s[i], ps, q, n)
}

/// Insert an entry into a sorted run, keeping the order.
pub open spec fn insert_entry(s: Seq<(int, int)>, e: (int, int)) -> Seq<(int, int)>
    decreases s.len(),
{
    if s.len() == 0 {
        seq![e]
    } else if lex_le(s[0], e) {
        seq![s[0]] + insert_entry(s.drop_first(), e)
    } else {
        seq![e] + s
    }
}

pub open spec fn imin(a: int, b: int) -> int {
    if a <= b {
        a
    } else {
        b
    }
}

/// The `k` nearest among the first `n` points, built point by point.
pub open spec fn knn_upto(ps: Seq<Gv2>, q: Gv2, k: int, n: int) -> Seq<(int, int)>
    decreases n,
{
    if n <= 0 {
        Seq::empty()
    } else {
        let s = insert_entry(knn_upto(ps, q, k, n - 1), (n - 1, gsqd(ps[n - 1], q)));
        if s.len() > k {
            s.take(k)
        } else {
            s
        }
    }
}

/// The `k` nearest points of the snapshot to `q`: ordered by ascending
/// squared distance (ties by index), of length `min(k, |ps|)`.
pub open spec fn knn(ps: Seq<Gv2>, q: Gv2, k: int) -> Seq<(int, int)> {
    knn_upto(ps, q, k, ps.len() as int)
}

/// Inserting grows the run by one, keeps it sorted, and introduces no
/// entry beyond the old ones and `e`.
pub proof fn lemma_insert_entry_props(s: Seq<(int, int)>, e: (int, int))
    ensures
        insert_entry(s, e).len() == s.len() + 1,
        forall|i: int|
            0 <= i < insert_entry(s, e).len() ==> (#[trigger] insert_entry(s, e)[i] == e
                || s.contains(insert_entry(s, e)[i])),
        sorted_lex(s) ==> sorted_lex(insert_entry(s, e)),
    decreases s.len(),
{
    if s.len() == 0 {
    } else if lex_le(s[0], e) {
        let rest = s.drop_first();
        lemma_insert_entry_props(rest, e);
        let r = seq![s[0]] + insert_entry(rest, e);
        assert forall|i: int| 0 <= i < r.len() implies (#[trigger] r[i] == e || s.contains(r[i])) by {
            if i == 0 {
                assert(s.contains(s[0]));
            } else {
                let x = insert_entry(rest, e)[i - 1];
                if x != e {
                    let j = choose|j: int| 0 <= j < rest.len() && rest[j] == x;
                    assert(s[j + 1] == x);
                }
            }
        }
        if sorted_lex(s) {
            assert(sorted_lex(rest));
            assert forall|i: int, j: int| 0 <= i <= j < r.len() implies lex_le(r[i], r[j]) by {
                if i == 0 && j > 0 {
                    let x = insert_entry(rest, e)[j - 1];
                    if x == e {
                        assert(lex_le(s[0], e));
                    } else {
                        let m = choose|m: int| 0 <= m < rest.len() && rest[m] == x;
                        assert(lex_le(s[0], s[m + 1]));
                    }
                }
            }
        }
    } else {
        let r = seq![e] + s;
        assert forall|i: int| 0 <= i < r.len() implies (#[trigger] r[i] == e || s.contains(r[i])) by {
            if i > 0 {
                assert(s.contains(s[i - 1]));
            }
        }
        if sorted_lex(s) {
            assert forall|i: int, j: int| 0 <= i <= j < r.len() implies lex_le(r[i], r[j]) by {
                if i == 0 && j > 0 {
                    assert(lex_le(e, s[0]));
                    assert(lex_le(s[0], s[j - 1]));
                }
            }
        }
    }
}

/// Where the new entry lands: if everything before `j` precedes `e`
/// and `e` precedes the entry at `j`, inserting puts `e` at `j`.
pub proof fn lemma_insert_entry_at(s: Seq<(int, int)>, e: (int, int), j: int)
    requires
        0 <= j <= s.len(),
        forall|p: int| 0 <= p < j ==> lex_le(#[trigger] s[p], e),
        j < s.len() ==> !lex_le(s[j], e),
    ensures
        insert_entry(s, e) == s.insert(j, e),
    decreases j,
{
    if j == 0 {
        if s.len() == 0 {
            assert(insert_entry(s, e) =~= s.insert(0, e));
        } else {
            assert(!lex_le(s[0], e));
            assert(insert_entry(s, e) =~= s.insert(0, e));
        }
    } else {
        assert(lex_le(s[0], e));
        let rest = s.drop_first();
        assert forall|p: int| 0 <= p < j - 1 implies lex_le(#[trigger] rest[p], e) by {
            assert(rest[p] == s[p + 1]);
        }
        lemma_insert_entry_at(rest, e, j - 1);
        assert(insert_entry(s, e) =~= s.insert(j, e));
    }
}

/// The query result is sorted by ascending distance, has
/// `min(k, n)` entries, and each entry names a point of the prefix
/// with its true squared distance.
pub proof fn lemma_knn_upto_props(ps: Seq<Gv2>, q: Gv2, k: int, n: int)
    requires
        0 <= n <= ps.len(),
        0 <= k,
    ensures
        knn_upto(ps, q, k, n).len() == imin(k, n),
        sorted_lex(knn_upto(ps, q, k, n)),
        entries_ok(knn_upto(ps, q, k, n), ps, q, n),
    decreases n,
{
    if n <= 0 {
    } else {
        lemma_knn_upto_props(ps, q, k, n - 1);
        let prev = knn_upto(ps, q, k, n - 1);
        let e = (n - 1, gsqd(ps[n - 1], q));
        lemma_insert_entry_props(prev, e);
        let s = insert_entry(prev, e);
        assert forall|i: int| 0 <= i < s.len() implies valid_entry(#[trigger] s[i], ps, q, n) by {
            if s[i] != e {
                let j = choose|j: int| 0 <= j < prev.len() && prev[j] == s[i];
                assert(valid_entry(prev[j], ps, q, n - 1));
            }
        }
        let r = knn_upto(ps, q, k, n);
        if s.len() > k {
            assert(r == s.take(k));
            assert forall|i: int, j: int| 0 <= i <= j < r.len() implies lex_le(r[i], r[j]) by {
                assert(r[i] == s[i] && r[j] == s[j]);
            }
            assert forall|i: int| 0 <= i < r.len() implies valid_entry(#[trigger] r[i], ps, q, n) by {
                assert(r[i] == s[i]);
            }
        }
    }
}

/// Convenience form of the above for a whole snapshot.
pub proof fn lemma_knn_props(ps: Seq<Gv2>, q: Gv2, k: int)
    requires
        0 <= k,
    ensures
        knn(ps, q, k).len() == imin(k, ps.len() as int),
        sorted_lex(knn(ps, q, k)),
        entries_ok(knn(ps, q, k), ps, q, ps.len() as int),
{
    lemma_knn_upto_props(ps, q, k, ps.len() as int);
}

/// A query is a function of the snapshot alone: two indexes built from
/// the same positions answer every query identically.
pub proof fn lemma_knn_deterministic(ps1: Seq<Gv2>, ps2: Seq<Gv2>, q: Gv2, k: int)
    requires
        ps1 == ps2,
    ensures
        knn(ps1, q, k) == knn(ps2, q, k),
{
}

/// An immutable nearest-neighbour index over one step's positions.
pub struct SpatialIndex {
    pts: Vec<V2>,
}

impl View for SpatialIndex {
    type V = Seq<Gv2>;

    closed spec fn view(&self) -> Seq<Gv2> {
        self.pts@.map_values(|p: V2| p@)
    }
}

/// Exact squared distance between two in-bound points.
pub fn sqd(a: V2, b: V2) -> (r: u64)
    requires
        gv_in(a@, WORLD_BOUND as int),
        gv_in(b@, WORLD_BOUND as int),
    ensures
        r == gsqd(a@, b@),
{
    let dx = a.x - b.x;
    let dy = a.y - b.y;
    proof {
        lemma_mul_range(dx as int, dx as int, 0x2000_0000, 0x2000_0000);
        lemma_mul_range(dy as int, dy as int, 0x2000_0000, 0x2000_0000);
        lemma_sq_nonneg(dx as int);
        lemma_sq_nonneg(dy as int);
    }
    ((dx * dx) as u64) + ((dy * dy) as u64)
}

/// Whether `a` precedes `b` in the neighbour order.
fn lex_le_e(a: (usize, u64), b: (usize, u64)) -> (r: bool)
    ensures
        r == lex_le((a.0 as int, a.1 as int), (b.0 as int, b.1 as int)),
{
    a.1 < b.1 || (a.1 == b.1 && a.0 <= b.0)
}

/// Where `e` belongs in a run kept in neighbour order.
fn find_pos(best: &Vec<(usize, u64)>, e: (usize, u64)) -> (j: usize)
    ensures
        j <= best@.len(),
        forall|p: int|
            0 <= p < j ==> lex_le(
                (#[trigger] best@[p].0 as int, best@[p].1 as int),
                (e.0 as int, e.1 as int),
            ),
        j < best@.len() ==> !lex_le((best@[j as int].0 as int, best@[j as int].1 as int), (e.0 as int, e.1 as int)),
{
    let mut j: usize = 0;
    while j < best.len()
        invariant
            j <= best@.len(),
            forall|p: int|
                0 <= p < j ==> lex_le(
                    (#[trigger] best@[p].0 as int, best@[p].1 as int),
                    (e.0 as int, e.1 as int),
                ),
        decreases best@.len() - j,
    {
        if !lex_le_e(best[j], e) {
            return j;
        }
        j += 1;
    }
    j
}

impl SpatialIndex {
    /// An index over nothing: every query returns no neighbours.
    pub fn new() -> (r: SpatialIndex)
        ensures
            r@ == Seq::<Gv2>::empty(),
    {
        let r = SpatialIndex { pts: Vec::new() };
        proof {
            assert(r@ =~= Seq::<Gv2>::empty());
        }
        r
    }

    /// Freeze the given positions as this step's snapshot.
    pub fn build(positions: &Vec<V2>) -> (r: SpatialIndex)
        ensures
            r@ == positions@.map_values(|p: V2| p@),
    {
        let mut pts: Vec<V2> = Vec::new();
        let mut i: usize = 0;
        while i < positions.len()
            invariant
                i <= positions.len(),
                pts@ == positions@.take(i as int),
            decreases positions.len() - i,
        {
            pts.push(positions[i]);
            proof {
                assert(pts@ =~= positions@.take(i as int + 1));
            }
            i += 1;
        }
        proof {
            assert(positions@.take(positions@.len() as int) =~= positions@);
        }
        let r = SpatialIndex { pts };
        proof {
            assert(r@ =~= positions@.map_values(|p: V2| p@));
        }
        r
    }

    /// How many positions the snapshot holds.
    pub fn len(&self) -> (r: usize)
        ensures
            r == self@.len(),
    {
        self.pts.len()
    }

    /// The `k` nearest points to `query`, by ascending squared
    /// distance, ties toward the lower index: exactly `knn(self@,
    /// query@, k)`, entry by entry.
    pub fn k_nearest(&self, query: V2, k: usize) -> (r: Vec<(usize, u64)>)
        requires
            forall|i: int| 0 <= i < self@.len() ==> gv_in(#[trigger] self@[i], WORLD_BOUND as int),
            gv_in(query@, WORLD_BOUND as int),
        ensures
            r@.len() == knn(self@, query@, k as int).len(),
            forall|p: int|
                0 <= p < r@.len() ==> (#[trigger] r@[p].0 as int, r@[p].1 as int) == knn(
                    self@,
                    query@,
                    k as int,
                )[p],
    {
        let n = self.pts.len();
        let mut best: Vec<(usize, u64)> = Vec::new();
        let ghost ps = self@;
        let mut i: usize = 0;
        proof {
            assert(best@.len() == knn_upto(ps, query@, k as int, 0).len());
        }
        while i < n
            invariant
                n == self.pts.len(),
                ps == self@,
                forall|t: int| 0 <= t < ps.len() ==> gv_in(#[trigger] ps[t], WORLD_BOUND as int),
                gv_in(query@, WORLD_BOUND as int),
                i <= n,
                best@.len() == knn_upto(ps, query@, k as int, i as int).len(),
                forall|p: int|
                    0 <= p < best@.len() ==> (#[trigger] best@[p].0 as int, best@[p].1 as int)
                        == knn_upto(ps, query@, k as int, i as int)[p],
                best@.len() <= k,
            decreases n - i,
        {
            proof {
                assert(ps[i as int] == self.pts@[i as int]@);
            }
            let d = sqd(self.pts[i], query);
            let ghost spec_best = knn_upto(ps, query@, k as int, i as int);
            let ghost e = (i as int, d as int);
            let j = find_pos(&best, (i, d));
            proof {
                assert forall|p: int| 0 <= p < j implies lex_le(#[trigger] spec_best[p], e) by {
                    assert((best@[p].0 as int, best@[p].1 as int) == spec_best[p]);
                }
                if (j as int) < spec_best.len() {
                    let jj = j as int;
                    assert((best@[jj].0 as int, best@[jj].1 as int) == spec_best[jj]);
                }
                lemma_insert_entry_at(spec_best, e, j as int);
            }
            best.insert(j, (i, d));
            if best.len() > k {
                best.truncate(k);
            }
            proof {
                lemma_knn_upto_props(ps, query@, k as int, i as int);
                let s = insert_entry(spec_best, e);
                assert(s == spec_best.insert(j as int, e));
                let next = knn_upto(ps, query@, k as int, i as int + 1);
                if s.len() > k as int {
                    assert(next == s.take(k as int));
                    assert forall|p: int| 0 <= p < best@.len() implies (
                        #[trigger] best@[p].0 as int,
                        best@[p].1 as int,
                    ) == next[p] by {
                        assert(next[p] == s[p]);
                    }
                } else {
                    assert(next == s);
                }
            }
            i += 1;
        }
        proof {
            assert(knn_upto(ps, query@, k as int, n as int) == knn(ps, query@, k as int));
        }
        best
    }
}

} // verus!
