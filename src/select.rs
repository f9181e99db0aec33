use vstd::prelude::*;
use vstd::relations::{sorted_by, total_ordering};
use vstd::seq_lib::lemma_sorted_unique;
use crate::point::{Point, dist_sq, distance_sq};

verus! {

broadcast use vstd::seq_lib::group_to_multiset_ensures;

/// The order on squared distances.
pub open spec fn dist_le() -> spec_fn(u128, u128) -> bool {
    |a: u128, b: u128| a <= b
}

/// Squared distances from pixel `(x, y)` to each point, in the points' order.
pub open spec fn dists(x: int, y: int, pts: Seq<Point>) -> Seq<u128> {
    Seq::new(pts.len(), |i: int| dist_sq(x, y, pts[i]) as u128)
}

/// The smallest element of a non-empty sequence.
pub open spec fn min_of(s: Seq<u128>) -> u128
    decreases s.len(),
{
    if s.len() <= 1 {
        s[0]
    } else {
        let m = min_of(s.drop_last());
        if s.last() < m {
            s.last()
        } else {
            m
        }
    }
}

/// The element at index `k` once `s` is sorted in ascending order.
pub open spec fn kth_of(s: Seq<u128>, k: int) -> u128 {
    s.sort_by(dist_le())[k]
}

/// On pixel coordinates every squared distance fits in a `u128`, so the
/// elements of `dists` are the exact squared distances.
pub proof fn lemma_dists_exact(x: int, y: int, pts: Seq<Point>)
    requires
        0 <= x <= u32::MAX,
        0 <= y <= u32::MAX,
    ensures
        forall|i: int| 0 <= i < pts.len() ==> #[trigger] dists(x, y, pts)[i] as int == dist_sq(x, y, pts[i]),
{
    assert forall|i: int| 0 <= i < pts.len() implies #[trigger] dists(x, y, pts)[i] as int == dist_sq(x, y, pts[i]) by {
        let dx = x - pts[i].x;
        let dy = y - pts[i].y;
        assert(0 <= dx * dx + dy * dy < 0x8_0000_0000_0000_0000) by (nonlinear_arith)
            requires
                -0x2_0000_0000 < dx < 0x2_0000_0000,
                -0x2_0000_0000 < dy < 0x2_0000_0000,
        ;
    }
}

proof fn lemma_dist_le_total()
    ensures
        total_ordering(dist_le()),
{
}

/// The minimum of a non-empty sequence is one of its elements and no element
/// is smaller.
pub proof fn lemma_min_of_is_least(s: Seq<u128>)
    requires
        s.len() > 0,
    ensures
        s.contains(min_of(s)),
        forall|i: int| 0 <= i < s.len() ==> min_of(s) <= #[trigger] s[i],
    decreases s.len(),
{
    if s.len() > 1 {
        lemma_min_of_is_least(s.drop_last());
        let j = choose|j: int| 0 <= j < s.drop_last().len() && s.drop_last()[j] == min_of(s.drop_last());
        assert(s[j] == s.drop_last()[j]);
        assert forall|i: int| 0 <= i < s.len() implies min_of(s) <= #[trigger] s[i] by {
            if i < s.len() - 1 {
                assert(s[i] == s.drop_last()[i]);
            }
        }
    } else {
        assert(s[0] == min_of(s));
    }
}

/// The first element of the sorted order is the minimum.
pub proof fn lemma_kth_zero_is_min(s: Seq<u128>)
    requires
        s.len() > 0,
    ensures
        kth_of(s, 0) == min_of(s),
{
    lemma_dist_le_total();
    s.lemma_sort_by_ensures(dist_le());
    let t = s.sort_by(dist_le());
    lemma_min_of_is_least(s);
    assert(t.len() == t.to_multiset().len());
    assert(s.len() == s.to_multiset().len());
    assert(t.contains(t[0]));
    assert(t.to_multiset().count(t[0]) > 0);
    assert(s.contains(t[0]));
    let i = choose|i: int| 0 <= i < s.len() && s[i] == t[0];
    assert(min_of(s) <= s[i]);
    assert(t.to_multiset().count(min_of(s)) > 0);
    assert(t.contains(min_of(s)));
    let j = choose|j: int| 0 <= j < t.len() && t[j] == min_of(s);
    if j > 0 {
        assert(dist_le()(t[0], t[j]));
    }
}

/// Sorts squared distances in ascending order.
///
/// Relies on `slice::sort_unstable`: on return the slice holds the same
/// elements, in ascending order.
#[verifier::external_body]
fn sort_ascending(v: &mut Vec<u128>)
    ensures
        sorted_by(final(v)@, dist_le()),
        final(v)@.to_multiset() == old(v)@.to_multiset(),
{
    v.sort_unstable();
}

/// Squared distances from pixel `(x, y)` to each point.
pub fn distances_sq(x: u32, y: u32, points: &[Point]) -> (r: Vec<u128>)
    ensures
        r@ == dists(x as int, y as int, points@),
{
    let mut r: Vec<u128> = Vec::new();
    let mut i: usize = 0;
    while i < points.len()
        invariant
            0 <= i <= points@.len(),
            r@ == dists(x as int, y as int, points@).subrange(0, i as int),
        decreases points@.len() - i,
    {
        let d = distance_sq(x, y, points[i]);
        r.push(d);
        i = i + 1;
        assert(r@ =~= dists(x as int, y as int, points@).subrange(0, i as int));
    }
    assert(r@ =~= dists(x as int, y as int, points@));
    r
}

/// Squared distance from pixel `(x, y)` to the nearest point.
pub fn nearest_dist_sq(x: u32, y: u32, points: &[Point]) -> (r: u128)
    requires
        points@.len() > 0,
    ensures
        r == min_of(dists(x as int, y as int, points@)),
{
    let ghost ds = dists(x as int, y as int, points@);
    let mut best: u128 = distance_sq(x, y, points[0]);
    assert(ds.subrange(0, 1).drop_last().len() == 0);
    let mut i: usize = 1;
    while i < points.len()
        invariant
            1 <= i <= points@.len(),
            ds == dists(x as int, y as int, points@),
            best == min_of(ds.subrange(0, i as int)),
        decreases points@.len() - i,
    {
        let d = distance_sq(x, y, points[i]);
        assert(ds.subrange(0, i + 1).drop_last() =~= ds.subrange(0, i as int));
        if d < best {
            best = d;
        }
        i = i + 1;
    }
    assert(ds.subrange(0, points@.len() as int) =~= ds);
    best
}

/// Squared distance from pixel `(x, y)` to the point at index `k` once the
/// points are sorted by distance, nearest first.
pub fn kth_nearest_dist_sq(x: u32, y: u32, points: &[Point], k: usize) -> (r: u128)
    requires
        k < points@.len(),
    ensures
        r == kth_of(dists(x as int, y as int, points@), k as int),
{
    let mut v = distances_sq(x, y, points);
    let ghost ds = v@;
    sort_ascending(&mut v);
    proof {
        assert(v@.len() == v@.to_multiset().len());
        assert(ds.len() == ds.to_multiset().len());
        lemma_dist_le_total();
        ds.lemma_sort_by_ensures(dist_le());
        lemma_sorted_unique(v@, ds.sort_by(dist_le()), dist_le());
    }
    v[k]
}

} // verus!
