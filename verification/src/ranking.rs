//! Ranking the places of a frame by their distance to a query point, and
//! keeping the least entries of a stream.

use vstd::prelude::*;
use crate::point::Point;

verus! {

/// Squared distance between the point at place `p` and `q`.
pub open spec fn gap_at(points: Seq<Point>, q: Point, p: int) -> int {
    points[p].point_coord.gap2(q.point_coord)
}

/// Place `a` ranks before place `b`: its point is closer to `q`, or as
/// close and earlier in the frame.
pub open spec fn ranks_before(points: Seq<Point>, q: Point, a: int, b: int) -> bool {
    gap_at(points, q, a) < gap_at(points, q, b) || (gap_at(points, q, a) == gap_at(points, q, b) && a < b)
}

/// The number of neighbours that a frame of `len` points has to offer when
/// `k` are asked for.
pub open spec fn offered(k: int, len: int) -> int {
    if k <= len {
        k
    } else {
        len
    }
}

/// The place `p` is one of the places in `found`.
pub open spec fn holds_place(found: Seq<usize>, p: int) -> bool {
    exists|t: int| 0 <= t < found.len() && #[trigger] found[t] == p
}

/// `found` holds the places of the `k` points nearest to `q`, nearest
/// first: as many places as were asked for, or all if there are fewer, in
/// ascending rank, and every place that is left out ranks after every place
/// that is in.
pub open spec fn is_k_nearest(points: Seq<Point>, q: Point, k: int, found: Seq<usize>) -> bool {
    &&& found.len() == offered(k, points.len() as int)
    &&& forall|i: int| 0 <= i < found.len() ==> #[trigger] found[i] < points.len()
    &&& forall|i: int, j: int|
        0 <= i < j < found.len() ==> ranks_before(points, q, #[trigger] found[i] as int, #[trigger] found[j] as int)
    &&& forall|i: int, p: int|
        0 <= i < found.len() && 0 <= p < points.len() && !holds_place(found, p) ==> #[trigger] ranks_before(
            points,
            q,
            found[i] as int,
            p,
        )
}

/// The places of the `k` points nearest to `q`, nearest first; of equally
/// near points the one earlier in the frame comes first.
pub open spec fn k_nearest(points: Seq<Point>, q: Point, k: int) -> Seq<usize> {
    choose|found: Seq<usize>| is_k_nearest(points, q, k, found)
}

/// The points at the given places.
pub open spec fn picked(points: Seq<Point>, places: Seq<usize>) -> Seq<Point> {
    Seq::new(places.len(), |i: int| points[places[i] as int])
}

/// The `k` points nearest to `q`, nearest first.
pub open spec fn nearest_points(points: Seq<Point>, q: Point, k: int) -> Seq<Point> {
    picked(points, k_nearest(points, q, k))
}

/// There is only one list of the `k` nearest places.
pub proof fn lemma_k_nearest_unique(points: Seq<Point>, q: Point, k: int, a: Seq<usize>, b: Seq<usize>)
    requires
        is_k_nearest(points, q, k, a),
        is_k_nearest(points, q, k, b),
    ensures
        a == b,
{
    lemma_same_upto(points, q, k, a, b, a.len() as int);
    assert(a =~= b);
}

proof fn lemma_same_upto(points: Seq<Point>, q: Point, k: int, a: Seq<usize>, b: Seq<usize>, n: int)
    requires
        is_k_nearest(points, q, k, a),
        is_k_nearest(points, q, k, b),
        0 <= n <= a.len(),
    ensures
        forall|i: int| 0 <= i < n ==> a[i] == b[i],
    decreases n,
{
    if n > 0 {
        lemma_same_upto(points, q, k, a, b, n - 1);
        let i = n - 1;
        if a[i] != b[i] {
            lemma_left_out(points, q, k, a, b, i);
            lemma_left_out(points, q, k, b, a, i);
        }
    }
}

/// Where two lists of nearest places agree up to a place and differ there,
/// the place of the second list ranks before the place of the first.
proof fn lemma_left_out(points: Seq<Point>, q: Point, k: int, a: Seq<usize>, b: Seq<usize>, i: int)
    requires
        is_k_nearest(points, q, k, a),
        is_k_nearest(points, q, k, b),
        0 <= i < a.len(),
        forall|j: int| 0 <= j < i ==> a[j] == b[j],
        a[i] != b[i],
    ensures
        ranks_before(points, q, b[i] as int, a[i] as int),
{
    if holds_place(b, a[i] as int) {
        let j = choose|j: int| 0 <= j < b.len() && #[trigger] b[j] == a[i] as int;
        if j < i {
            assert(ranks_before(points, q, a[j] as int, a[i] as int));
        } else {
            assert(ranks_before(points, q, b[i] as int, b[j] as int));
        }
    } else {
        assert(ranks_before(points, q, b[i] as int, a[i] as int));
    }
}

/// The place that ranks first among the places below `upto` that `found`
/// leaves out, or -1 if it leaves none out.
pub open spec fn first_left(points: Seq<Point>, q: Point, found: Seq<usize>, upto: int) -> int
    decreases upto,
{
    if upto <= 0 {
        -1
    } else {
        let rest = first_left(points, q, found, upto - 1);
        if holds_place(found, upto - 1) {
            rest
        } else if rest < 0 || ranks_before(points, q, upto - 1, rest) {
            upto - 1
        } else {
            rest
        }
    }
}

/// `first_left` is a place that is left out and ranks before every other
/// such place, unless no place is left out.
proof fn lemma_first_left(points: Seq<Point>, q: Point, found: Seq<usize>, upto: int)
    requires
        0 <= upto <= points.len(),
    ensures
        -1 <= first_left(points, q, found, upto) < upto,
        first_left(points, q, found, upto) < 0 ==> forall|p: int| 0 <= p < upto ==> #[trigger] holds_place(found, p),
        first_left(points, q, found, upto) >= 0 ==> !holds_place(found, first_left(points, q, found, upto)),
        forall|p: int|
            0 <= p < upto && !holds_place(found, p) && p != first_left(points, q, found, upto)
                ==> #[trigger] ranks_before(points, q, first_left(points, q, found, upto), p),
    decreases upto,
{
    if upto > 0 {
        lemma_first_left(points, q, found, upto - 1);
        let rest = first_left(points, q, found, upto - 1);
        let best = first_left(points, q, found, upto);
        assert forall|p: int| 0 <= p < upto && !holds_place(found, p) && p != best implies #[trigger] ranks_before(
            points,
            q,
            best,
            p,
        ) by {
            if p < upto - 1 {
                assert(rest >= 0);
                if p != rest {
                    assert(ranks_before(points, q, rest, p));
                }
            }
        }
    }
}

/// A list that holds every place below `n` has at least `n` entries.
proof fn lemma_all_held(found: Seq<usize>, n: int)
    requires
        0 <= n,
        forall|p: int| 0 <= p < n ==> #[trigger] holds_place(found, p),
    ensures
        found.len() >= n,
    decreases n,
{
    if n > 0 {
        assert(holds_place(found, n - 1));
        let t = choose|t: int| 0 <= t < found.len() && #[trigger] found[t] == n - 1;
        let rest = found.remove(t);
        assert forall|p: int| 0 <= p < n - 1 implies #[trigger] holds_place(rest, p) by {
            assert(holds_place(found, p));
            let u = choose|u: int| 0 <= u < found.len() && #[trigger] found[u] == p;
            if u < t {
                assert(rest[u] == p);
            } else {
                assert(rest[u - 1] == p);
            }
        }
        lemma_all_held(rest, n - 1);
    }
}

/// Builds the list of the `k` nearest places, one place at a time.
proof fn lemma_k_nearest_list(points: Seq<Point>, q: Point, k: int) -> (found: Seq<usize>)
    requires
        0 <= k,
        points.len() <= usize::MAX,
    ensures
        is_k_nearest(points, q, k, found),
    decreases k,
{
    if k == 0 {
        let found = Seq::<usize>::empty();
        assert(is_k_nearest(points, q, k, found));
        found
    } else {
        let shorter = lemma_k_nearest_list(points, q, k - 1);
        if k - 1 >= points.len() {
            assert(is_k_nearest(points, q, k, shorter));
            shorter
        } else {
            let n = points.len() as int;
            lemma_first_left(points, q, shorter, n);
            let next = first_left(points, q, shorter, n);
            if next < 0 {
                lemma_all_held(shorter, n);
            }
            let found = shorter.push(next as usize);
            assert forall|i: int, j: int| 0 <= i < j < found.len() implies ranks_before(
                points,
                q,
                #[trigger] found[i] as int,
                #[trigger] found[j] as int,
            ) by {
                if j < k - 1 {
                    assert(ranks_before(points, q, shorter[i] as int, shorter[j] as int));
                } else {
                    assert(ranks_before(points, q, shorter[i] as int, next));
                }
            }
            assert forall|i: int, p: int|
                0 <= i < found.len() && 0 <= p < points.len() && !holds_place(
                    found,
                    p,
                ) implies #[trigger] ranks_before(points, q, found[i] as int, p) by {
                assert(found[k - 1] == next);
                if holds_place(shorter, p) {
                    let t = choose|t: int| 0 <= t < shorter.len() && #[trigger] shorter[t] == p;
                    assert(found[t] == p);
                }
                if i < k - 1 {
                    assert(ranks_before(points, q, shorter[i] as int, p));
                } else {
                    assert(ranks_before(points, q, next, p));
                }
            }
            assert(is_k_nearest(points, q, k, found));
            found
        }
    }
}

/// Every frame has its list of the `k` nearest places, and `k_nearest` is
/// that list.
pub proof fn lemma_k_nearest_exists(points: Seq<Point>, q: Point, k: int)
    requires
        0 <= k,
        points.len() <= usize::MAX,
    ensures
        is_k_nearest(points, q, k, k_nearest(points, q, k)),
{
    let found = lemma_k_nearest_list(points, q, k);
}

/// An entry of a ranking: a squared distance and a place.
pub open spec fn entry_before(a: (u128, usize), b: (u128, usize)) -> bool {
    a.0 < b.0 || (a.0 == b.0 && a.1 < b.1)
}

/// The entries stand in ascending order, none twice.
pub open spec fn ranked(best: Seq<(u128, usize)>) -> bool {
    forall|i: int, j: int| 0 <= i < j < best.len() ==> entry_before(#[trigger] best[i], #[trigger] best[j])
}

/// Whether the first entry comes before the second.
pub fn comes_before(a: &(u128, usize), b: &(u128, usize)) -> (yes: bool)
    ensures
        yes == entry_before(*a, *b),
{
    a.0 < b.0 || (a.0 == b.0 && a.1 < b.1)
}

/// Offers an entry to a list that keeps the `limit` least entries offered
/// so far, in ascending order. The entry goes in at its rank if the list
/// has room or the entry comes before the last of the list, which then
/// leaves.
pub fn offer(best: &mut Vec<(u128, usize)>, entry: (u128, usize), limit: usize)
    requires
        limit > 0,
        old(best)@.len() <= limit,
        ranked(old(best)@),
        forall|i: int| 0 <= i < old(best)@.len() ==> (#[trigger] old(best)@[i]).1 != entry.1,
    ensures
        ranked(final(best)@),
        old(best)@.len() < limit ==> final(best)@.len() == old(best)@.len() + 1,
        old(best)@.len() == limit ==> final(best)@.len() == limit,
        forall|i: int|
            0 <= i < final(best)@.len() ==> #[trigger] final(best)@[i] == entry || old(best)@.contains(
                final(best)@[i],
            ),
        final(best)@.contains(entry) || (final(best)@.len() == limit && entry_before(
            final(best)@.last(),
            entry,
        )),
        forall|i: int|
            0 <= i < old(best)@.len() ==> final(best)@.contains(#[trigger] old(best)@[i]) || (
            final(best)@.len() == limit && entry_before(final(best)@.last(), old(best)@[i])),
        old(best)@.len() == limit ==> final(best)@.last() == old(best)@.last() || entry_before(
            final(best)@.last(),
            old(best)@.last(),
        ),
{
    let ghost before = best@;
    if best.len() == limit {
        let last = best[best.len() - 1];
        if !comes_before(&entry, &last) {
            assert forall|i: int| 0 <= i < before.len() implies best@.contains(#[trigger] before[i]) by {
                assert(best@[i] == before[i]);
            }
            return ;
        }
        best.pop();
    }
    let ghost kept = best@;
    assert(forall|i: int| 0 <= i < kept.len() ==> kept[i] == before[i]);
    let mut pos: usize = 0;
    while pos < best.len() && comes_before(&best[pos], &entry)
        invariant
            pos <= best@.len(),
            best@ == kept,
            forall|i: int| 0 <= i < pos ==> entry_before(#[trigger] kept[i], entry),
        decreases best@.len() - pos,
    {
        pos += 1;
    }
    best.insert(pos, entry);
    proof {
        let after = best@;
        assert(after.len() == kept.len() + 1);
        assert(after[pos as int] == entry);
        assert(forall|i: int| 0 <= i < pos ==> after[i] == kept[i]);
        assert(forall|i: int| pos < i < after.len() ==> after[i] == kept[i - 1]);
        assert forall|i: int| pos <= i < kept.len() implies entry_before(entry, #[trigger] kept[i]) by {
            assert(!entry_before(kept[pos as int], entry));
            assert(kept[pos as int].1 != entry.1);
            if i > pos {
                assert(entry_before(kept[pos as int], kept[i]));
            }
        }
        assert forall|i: int, j: int| 0 <= i < j < after.len() implies entry_before(
            #[trigger] after[i],
            #[trigger] after[j],
        ) by {
            if j < pos {
                assert(entry_before(kept[i], kept[j]));
            } else if j == pos {
            } else if i < pos {
                assert(entry_before(kept[i], kept[j - 1]));
            } else if i == pos {
                assert(entry_before(entry, kept[j - 1]));
            } else {
                assert(entry_before(kept[i - 1], kept[j - 1]));
            }
        }
        assert forall|i: int| 0 <= i < after.len() implies #[trigger] after[i] == entry || before.contains(
            after[i],
        ) by {
            if i < pos {
                assert(before[i] == after[i]);
            } else if i > pos {
                assert(before[i - 1] == after[i]);
            }
        }
        assert(after.contains(entry));
        assert forall|i: int| 0 <= i < before.len() implies after.contains(#[trigger] before[i]) || (
        after.len() == limit && entry_before(after.last(), before[i])) by {
            if i < kept.len() {
                if i < pos {
                    assert(after[i] == before[i]);
                } else {
                    assert(after[i + 1] == before[i]);
                }
            } else {
                // The entry that left was the last of a full list.
                assert(before.len() == limit);
                assert(i == before.len() - 1);
                if pos == kept.len() {
                    assert(after.last() == entry);
                } else {
                    assert(after.last() == kept[kept.len() - 1]);
                    assert(entry_before(before[kept.len() - 1], before[i]));
                }
            }
        }
        if before.len() == limit {
            if pos == kept.len() {
                assert(after.last() == entry);
            } else {
                assert(after.last() == kept[kept.len() - 1]);
                assert(entry_before(before[kept.len() - 1], before[before.len() - 1]));
            }
        }
    }
}

} // verus!
