//! The spatial index: a three-dimensional k-d tree over the points of one
//! frame, answering nearest-neighbour queries by Euclidean distance.

use vstd::prelude::*;
use crate::coordinate::{lemma_gap2_bound, PointCoordinate};
use crate::numeric::{floor_root, lemma_floor_root_exists, square};
use crate::point::Point;
use crate::ranking::{
    entry_before, gap_at, holds_place, is_k_nearest, k_nearest, lemma_k_nearest_unique, offer, offered, ranked,
    ranks_before,
};

verus! {

/// A k-d tree of the `kd_tree` crate. Each of its items is a position,
/// widened so that squared distances cannot overflow, and the place in the
/// frame of the point that lies there.
#[verifier::external_body]
pub struct KdIndex {
    tree: kd_tree::KdTree<([i128; 3], usize)>,
}

/// The items that a tree holds, in the order in which the tree stores them.
pub uninterp spec fn index_items(index: KdIndex) -> Seq<([i128; 3], usize)>;

/// Every axis of the key lies in the 32-bit grid.
pub open spec fn in_grid(key: [i128; 3]) -> bool {
    &&& i32::MIN <= key[0] <= i32::MAX
    &&& i32::MIN <= key[1] <= i32::MAX
    &&& i32::MIN <= key[2] <= i32::MAX
}

/// Squared Euclidean distance between two keys.
pub open spec fn key_gap(a: [i128; 3], b: [i128; 3]) -> int {
    square(a[0] - b[0]) + square(a[1] - b[1]) + square(a[2] - b[2])
}

/// Calls `kd_tree::KdTree::build`, which arranges the items by repeated
/// median splits. The tree holds exactly the items given, each as often as
/// it was given; nothing is claimed about their arrangement.
#[verifier::external_body]
fn build_index(items: Vec<([i128; 3], usize)>) -> (index: KdIndex)
    ensures
        index_items(index).to_multiset() == items@.to_multiset(),
{
    KdIndex { tree: kd_tree::KdTree::build(items) }
}

/// Calls `nearest` of `kd_tree::KdTree`. It finds nothing exactly when the
/// tree is empty. What it finds is an item of the tree, and no item of the
/// tree lies closer to the query. Among several items at the least distance
/// any one may be found. The keys must lie in the grid, so that the crate's
/// arithmetic on squared distances stays within `i128`.
#[verifier::external_body]
fn index_nearest(index: &KdIndex, query: &[i128; 3]) -> (found: Option<([i128; 3], usize)>)
    requires
        in_grid(*query),
        forall|i: int| 0 <= i < index_items(*index).len() ==> in_grid(#[trigger] index_items(*index)[i].0),
    ensures
        found is None <==> index_items(*index).len() == 0,
        found is Some ==> index_items(*index).contains(found->0),
        found is Some ==> forall|i: int|
            0 <= i < index_items(*index).len() ==> key_gap((found->0).0, *query) <= key_gap(
                #[trigger] index_items(*index)[i].0,
                *query,
            ),
{
    index.tree.nearest(query).map(|hit| *hit.item)
}

/// Calls `nearests` of `kd_tree::KdTree`, asking for `num` neighbours. What
/// comes back are items of the tree; nothing more is claimed of them. The
/// keys must lie in the grid, so that the crate's arithmetic on squared
/// distances stays within `i128`, and no more neighbours may be asked for
/// than the tree holds items, since the crate sets memory aside for as many
/// as are asked for.
#[verifier::external_body]
fn index_nearests(index: &KdIndex, query: &[i128; 3], num: usize) -> (found: Vec<([i128; 3], usize)>)
    requires
        in_grid(*query),
        forall|i: int| 0 <= i < index_items(*index).len() ==> in_grid(#[trigger] index_items(*index)[i].0),
        num <= index_items(*index).len(),
    ensures
        forall|i: int| 0 <= i < found@.len() ==> index_items(*index).contains(#[trigger] found@[i]),
{
    index.tree.nearests(query, num).into_iter().map(|hit| *hit.item).collect()
}

/// Calls `within_radius` of `kd_tree::KdTree`. What comes back are the
/// items of the tree that lie closer to the query than `radius`, all of
/// them, and none more often than the tree holds it. The keys must lie in
/// the grid and the radius must be a natural number of at most 35 bits, so
/// that the crate's arithmetic on distances stays within `i128`.
#[verifier::external_body]
fn index_within(index: &KdIndex, query: &[i128; 3], radius: i128) -> (found: Vec<([i128; 3], usize)>)
    requires
        in_grid(*query),
        forall|i: int| 0 <= i < index_items(*index).len() ==> in_grid(#[trigger] index_items(*index)[i].0),
        0 <= radius <= 0x4_0000_0000,
    ensures
        found@.to_multiset().subset_of(index_items(*index).to_multiset()),
        forall|i: int| 0 <= i < found@.len() ==> key_gap((#[trigger] found@[i]).0, *query) < radius * radius,
        forall|i: int|
            0 <= i < index_items(*index).len() && key_gap(#[trigger] index_items(*index)[i].0, *query) < radius
                * radius ==> found@.contains(index_items(*index)[i]),
{
    index.tree.within_radius(query, radius).into_iter().map(|item| *item).collect()
}

/// The key stands for the position `c`.
pub open spec fn key_matches(key: [i128; 3], c: PointCoordinate) -> bool {
    key[0] == c.x && key[1] == c.y && key[2] == c.z
}

/// Some item carries the place `p`.
pub open spec fn has_place(items: Seq<([i128; 3], usize)>, p: int) -> bool {
    exists|i: int| 0 <= i < items.len() && (#[trigger] items[i]).1 == p
}

/// The items are the positions of `points`, each paired with its place, in
/// some order.
pub open spec fn keyed_by(items: Seq<([i128; 3], usize)>, points: Seq<Point>) -> bool {
    &&& items.len() == points.len()
    &&& forall|i: int|
        0 <= i < items.len() ==> (#[trigger] items[i]).1 < points.len() && key_matches(
            items[i].0,
            points[items[i].1 as int].point_coord,
        )
    &&& forall|p: int| 0 <= p < points.len() ==> #[trigger] has_place(items, p)
    &&& forall|i: int, j: int|
        0 <= i < j < items.len() ==> (#[trigger] items[i]).1 != (#[trigger] items[j]).1
}

/// The greatest radius that a search ever needs: every point of the grid
/// lies closer to every other than this.
pub const FULL_REACH: i128 = 0x2_0000_0000;

/// Every item names a place below `len`.
pub open spec fn names_places(items: Seq<([i128; 3], usize)>, len: int) -> bool {
    forall|k: int| 0 <= k < items.len() ==> (#[trigger] items[k]).1 < len
}

/// The greatest squared distance to `q` among the points whose places the
/// items name.
pub open spec fn farthest_gap(points: Seq<Point>, q: Point, items: Seq<([i128; 3], usize)>) -> int
    decreases items.len(),
{
    if items.len() == 0 {
        0
    } else {
        let rest = farthest_gap(points, q, items.drop_last());
        let gap = gap_at(points, q, items.last().1 as int);
        if gap >= rest {
            gap
        } else {
            rest
        }
    }
}

/// The radius that a list of found neighbours suggests for the `num`
/// nearest: one step more than the distance, in whole steps, of the
/// farthest of them, and the greatest radius if fewer than `num` or none
/// were found or that is less.
pub open spec fn reach_for(points: Seq<Point>, q: Point, hint: Seq<([i128; 3], usize)>, num: int) -> int {
    if hint.len() < num || hint.len() == 0 {
        FULL_REACH as int
    } else if floor_root(farthest_gap(points, q, hint)) + 1 > FULL_REACH {
        FULL_REACH as int
    } else {
        floor_root(farthest_gap(points, q, hint)) + 1
    }
}

/// The entry of a place in the ranking by distance to `q`.
pub open spec fn entry_at(points: Seq<Point>, q: Point, place: usize) -> (u128, usize) {
    (gap_at(points, q, place as int) as u128, place)
}

/// What was found within a radius names no place twice and nothing that
/// the tree does not hold.
proof fn lemma_near_distinct(
    stored: Seq<([i128; 3], usize)>,
    points: Seq<Point>,
    near: Seq<([i128; 3], usize)>,
)
    requires
        keyed_by(stored, points),
        near.to_multiset().subset_of(stored.to_multiset()),
    ensures
        near.len() <= stored.len(),
        forall|k: int| 0 <= k < near.len() ==> stored.contains(#[trigger] near[k]),
        forall|a: int, b: int| 0 <= a < b < near.len() ==> (#[trigger] near[a]).1 != (#[trigger] near[b]).1,
{
    stored.to_multiset_ensures();
    near.to_multiset_ensures();
    vstd::multiset::axiom_len_sub(stored.to_multiset(), near.to_multiset());
    assert forall|k: int| 0 <= k < near.len() implies stored.contains(#[trigger] near[k]) by {
        assert(near.contains(near[k]));
        assert(near.to_multiset().count(near[k]) > 0);
        assert(stored.to_multiset().count(near[k]) > 0);
    }
    assert(stored.no_duplicates());
    stored.lemma_multiset_has_no_duplicates();
    assert forall|x: ([i128; 3], usize)| near.to_multiset().contains(x) implies near.to_multiset().count(x)
        == 1 by {
        assert(near.to_multiset().count(x) <= stored.to_multiset().count(x));
        assert(stored.to_multiset().contains(x));
    }
    near.lemma_multiset_has_no_duplicates_conv();
    assert forall|a: int, b: int| 0 <= a < b < near.len() implies (#[trigger] near[a]).1 != (
    #[trigger] near[b]).1 by {
        if near[a].1 == near[b].1 {
            let i = choose|i: int| 0 <= i < stored.len() && stored[i] == near[a];
            let j = choose|j: int| 0 <= j < stored.len() && stored[j] == near[b];
            if i < j {
                assert(stored[i].1 != stored[j].1);
            } else if j < i {
                assert(stored[j].1 != stored[i].1);
            }
            assert(near[a] == near[b]);
        }
    }
}

/// A search that misses no item of the tree finds as many items as the
/// tree holds.
proof fn lemma_all_found(stored: Seq<([i128; 3], usize)>, points: Seq<Point>, near: Seq<([i128; 3], usize)>)
    requires
        keyed_by(stored, points),
        near.to_multiset().subset_of(stored.to_multiset()),
        forall|i: int| 0 <= i < stored.len() ==> near.contains(#[trigger] stored[i]),
    ensures
        near.len() == stored.len(),
{
    stored.to_multiset_ensures();
    near.to_multiset_ensures();
    assert(stored.no_duplicates());
    stored.lemma_multiset_has_no_duplicates();
    assert forall|x: ([i128; 3], usize)| near.to_multiset().count(x) == stored.to_multiset().count(x) by {
        assert(near.to_multiset().count(x) <= stored.to_multiset().count(x));
        if stored.to_multiset().count(x) > 0 {
            assert(stored.to_multiset().contains(x));
            assert(stored.contains(x));
            let i = choose|i: int| 0 <= i < stored.len() && stored[i] == x;
            assert(near.contains(stored[i]));
            assert(near.to_multiset().count(x) > 0);
        }
    }
    assert(near.to_multiset() =~= stored.to_multiset());
}

/// Place `c` of `points` holds a point that is as close to `q` as any.
pub open spec fn is_nearest(points: Seq<Point>, q: Point, c: int) -> bool {
    &&& 0 <= c < points.len()
    &&& forall|j: int|
        0 <= j < points.len() ==> points[c].point_coord.gap2(q.point_coord) <= (
        #[trigger] points[j]).point_coord.gap2(q.point_coord)
}

/// Place `c` of `points` holds a point that is as close to `q` as any, and
/// every place before it holds a point further away.
pub open spec fn is_first_nearest(points: Seq<Point>, q: Point, c: int) -> bool {
    &&& is_nearest(points, q, c)
    &&& forall|j: int|
        0 <= j < c ==> points[c].point_coord.gap2(q.point_coord) < (#[trigger] points[j]).point_coord.gap2(
            q.point_coord,
        )
}

/// The first place of `points` whose point is as close to `q` as any.
pub open spec fn first_nearest(points: Seq<Point>, q: Point) -> int
    decreases points.len(),
{
    if points.len() <= 1 {
        0
    } else {
        let c = first_nearest(points.drop_last(), q);
        if points.last().point_coord.gap2(q.point_coord) < points[c].point_coord.gap2(q.point_coord) {
            points.len() - 1
        } else {
            c
        }
    }
}

/// In a frame that is not empty, `first_nearest` is a place of a nearest
/// point, and the first such place.
pub proof fn lemma_first_nearest(points: Seq<Point>, q: Point)
    requires
        points.len() > 0,
    ensures
        is_first_nearest(points, q, first_nearest(points, q)),
    decreases points.len(),
{
    if points.len() > 1 {
        let front = points.drop_last();
        lemma_first_nearest(front, q);
        let c = first_nearest(front, q);
        let n = points.len() as int;
        assert(front[c] == points[c]);
        assert(points.last() == points[n - 1]);
        let found = first_nearest(points, q);
        assert forall|j: int| 0 <= j < n implies points[found].point_coord.gap2(q.point_coord) <= (
        #[trigger] points[j]).point_coord.gap2(q.point_coord) by {
            if j < n - 1 {
                assert(front[j] == points[j]);
            }
        }
        assert forall|j: int| 0 <= j < found implies points[found].point_coord.gap2(q.point_coord) < (
        #[trigger] points[j]).point_coord.gap2(q.point_coord) by {
            assert(front[j] == points[j]);
        }
    }
}

/// Only one place is the first place of a nearest point.
pub proof fn lemma_first_nearest_unique(points: Seq<Point>, q: Point, c: int)
    requires
        is_first_nearest(points, q, c),
    ensures
        c == first_nearest(points, q),
{
    lemma_first_nearest(points, q);
    let d = first_nearest(points, q);
    if c < d {
        assert(points[d].point_coord.gap2(q.point_coord) < points[c].point_coord.gap2(q.point_coord));
    } else if d < c {
        assert(points[c].point_coord.gap2(q.point_coord) < points[d].point_coord.gap2(q.point_coord));
    }
}

/// The first of the nearest places is the place of the nearest point.
pub proof fn lemma_nearest_is_first_of_nearests(points: Seq<Point>, q: Point, k: int, found: Seq<usize>)
    requires
        is_k_nearest(points, q, k, found),
        found.len() > 0,
    ensures
        found[0] == first_nearest(points, q),
{
    let c = found[0] as int;
    assert forall|j: int| 0 <= j < points.len() implies points[c].point_coord.gap2(q.point_coord) <= (
    #[trigger] points[j]).point_coord.gap2(q.point_coord) by {
        if j != c {
            lemma_ranks_after_first(points, q, k, found, j);
        }
    }
    assert forall|j: int| 0 <= j < c implies points[c].point_coord.gap2(q.point_coord) < (
    #[trigger] points[j]).point_coord.gap2(q.point_coord) by {
        lemma_ranks_after_first(points, q, k, found, j);
    }
    lemma_first_nearest_unique(points, q, c);
}

/// Every place but the first of the nearest places ranks after it.
proof fn lemma_ranks_after_first(points: Seq<Point>, q: Point, k: int, found: Seq<usize>, j: int)
    requires
        is_k_nearest(points, q, k, found),
        found.len() > 0,
        0 <= j < points.len(),
        j != found[0],
    ensures
        ranks_before(points, q, found[0] as int, j),
{
    if holds_place(found, j) {
        let i = choose|i: int| 0 <= i < found.len() && #[trigger] found[i] == j;
        assert(ranks_before(points, q, found[0] as int, found[i] as int));
    } else {
        assert(ranks_before(points, q, found[0] as int, j));
    }
}

/// The widened key of a position.
fn key_of(c: &PointCoordinate) -> (key: [i128; 3])
    ensures
        key_matches(key, *c),
        in_grid(key),
{
    let key: [i128; 3] = [c.x as i128, c.y as i128, c.z as i128];
    key
}

/// A static k-d tree over the points of a frame. It keeps its own copy of
/// the points; queries answer with places in that copy.
pub struct PointTree {
    index: KdIndex,
    points: Vec<Point>,
}

impl View for PointTree {
    type V = Seq<Point>;

    /// The points the tree was built over, in frame order.
    closed spec fn view(&self) -> Seq<Point> {
        self.points@
    }
}

impl PointTree {
    /// The index holds the positions of the points, each with its place.
    #[verifier::type_invariant]
    spec fn inv(self) -> bool {
        keyed_by(index_items(self.index), self.points@)
    }

    /// Builds the tree over `points`.
    pub fn build(points: Vec<Point>) -> (tree: PointTree)
        ensures
            tree@ == points@,
    {
        let mut items: Vec<([i128; 3], usize)> = Vec::new();
        let mut j: usize = 0;
        while j < points.len()
            invariant
                j <= points.len(),
                items@.len() == j,
                forall|i: int|
                    0 <= i < j ==> (#[trigger] items@[i]).1 == i && key_matches(
                        items@[i].0,
                        points@[i].point_coord,
                    ),
            decreases points.len() - j,
        {
            items.push((key_of(&points[j].point_coord), j));
            j += 1;
        }
        let ghost given = items@;
        let index = build_index(items);
        proof {
            let stored = index_items(index);
            given.to_multiset_ensures();
            stored.to_multiset_ensures();
            assert forall|i: int| 0 <= i < stored.len() implies (#[trigger] stored[i]).1
                < points@.len() && key_matches(
                stored[i].0,
                points@[stored[i].1 as int].point_coord,
            ) by {
                assert(stored.contains(stored[i]));
                assert(stored.to_multiset().count(stored[i]) > 0);
                assert(given.to_multiset().count(stored[i]) > 0);
                assert(given.contains(stored[i]));
            }
            assert forall|p: int| 0 <= p < points@.len() implies #[trigger] has_place(stored, p) by {
                assert(given.contains(given[p]));
                assert(given.to_multiset().count(given[p]) > 0);
                assert(stored.to_multiset().count(given[p]) > 0);
                assert(stored.contains(given[p]));
                let i = choose|i: int| 0 <= i < stored.len() && stored[i] == given[p];
                assert(stored[i].1 == p);
            }
            assert(given.no_duplicates()) by {
                assert forall|i: int, j: int| 0 <= i < given.len() && 0 <= j < given.len() && i != j implies given[i]
                    != given[j] by {
                    assert(given[i].1 == i && given[j].1 == j);
                }
            }
            given.lemma_multiset_has_no_duplicates();
            stored.lemma_multiset_has_no_duplicates_conv();
            assert forall|i: int, j: int| 0 <= i < j < stored.len() implies (#[trigger] stored[i]).1 != (
            #[trigger] stored[j]).1 by {
                if stored[i].1 == stored[j].1 {
                    assert(stored.contains(stored[i]));
                    assert(stored.to_multiset().count(stored[i]) > 0);
                    assert(given.contains(stored[i]));
                    assert(stored.contains(stored[j]));
                    assert(stored.to_multiset().count(stored[j]) > 0);
                    assert(given.contains(stored[j]));
                    let a = choose|a: int| 0 <= a < given.len() && given[a] == stored[i];
                    let b = choose|b: int| 0 <= b < given.len() && given[b] == stored[j];
                    assert(given[a].1 == a && given[b].1 == b);
                    assert(stored[i] == stored[j]);
                }
            }
        }
        PointTree { index, points }
    }

    /// The number of points in the tree.
    pub fn len(&self) -> (n: usize)
        ensures
            n == self@.len(),
    {
        self.points.len()
    }

    /// The point at place `i`.
    pub fn get(&self, i: usize) -> (p: Point)
        requires
            i < self@.len(),
        ensures
            p == self@[i as int],
    {
        self.points[i]
    }

    /// The first place of the tree that holds a point nearest to `q`, or
    /// nothing when the tree is empty. No point of the tree lies closer to
    /// `q` than the one found, and of several equally near points the one
    /// at the lowest place is found.
    pub fn nearest(&self, q: &Point) -> (found: Option<usize>)
        ensures
            found is None <==> self@.len() == 0,
            found is Some ==> is_nearest(self@, *q, found->0 as int),
            found is Some ==> found->0 == first_nearest(self@, *q),
    {
        proof {
            use_type_invariant(self);
        }
        let key = key_of(&q.point_coord);
        let ghost stored = index_items(self.index);
        match index_nearest(&self.index, &key) {
            None => None,
            Some(item) => {
                proof {
                    let i0 = choose|i: int| 0 <= i < stored.len() && stored[i] == item;
                    assert((#[trigger] stored[i0]).1 < self.points@.len());
                    assert forall|j: int| 0 <= j < self.points@.len() implies self.points@[item.1 as int].point_coord.gap2(
                        q.point_coord,
                    ) <= (#[trigger] self.points@[j]).point_coord.gap2(q.point_coord) by {
                        assert(has_place(stored, j));
                        let i = choose|i: int| 0 <= i < stored.len() && (#[trigger] stored[i]).1 == j;
                        assert(key_gap(item.0, key) <= key_gap(stored[i].0, key));
                    }
                }
                let least: u128 = self.points[item.1].point_coord.squared_distance(&q.point_coord);
                let root: u64 = self.points[item.1].point_coord.get_coord_delta(&q.point_coord);
                let reach: i128 = root as i128 + 1;
                proof {
                    lemma_gap2_bound(self.points@[item.1 as int].point_coord, q.point_coord);
                    lemma_floor_root_exists(least as int);
                    assert(least < reach * reach);
                }
                let near = index_within(&self.index, &key, reach);
                proof {
                    lemma_near_distinct(stored, self.points@, near@);
                }
                let mut best: usize = item.1;
                let mut i: usize = 0;
                while i < near.len()
                    invariant
                        i <= near@.len(),
                        keyed_by(stored, self.points@),
                        forall|k: int| 0 <= k < near@.len() ==> stored.contains(#[trigger] near@[k]),
                        best < self.points@.len(),
                        self.points@[best as int].point_coord.gap2(q.point_coord) == least,
                        forall|k: int|
                            0 <= k < i && self.points@[(#[trigger] near@[k]).1 as int].point_coord.gap2(
                                q.point_coord,
                            ) == least ==> best <= near@[k].1,
                    decreases near.len() - i,
                {
                    let place: usize = near[i].1;
                    proof {
                        let s = choose|s: int| 0 <= s < stored.len() && stored[s] == near@[i as int];
                        assert((#[trigger] stored[s]).1 < self.points@.len());
                    }
                    if place < best {
                        let gap: u128 = self.points[place].point_coord.squared_distance(&q.point_coord);
                        if gap == least {
                            best = place;
                        }
                    }
                    i += 1;
                }
                proof {
                    assert forall|j: int| 0 <= j < best implies self.points@[best as int].point_coord.gap2(
                        q.point_coord,
                    ) < (#[trigger] self.points@[j]).point_coord.gap2(q.point_coord) by {
                        if self.points@[j].point_coord.gap2(q.point_coord) == least {
                            assert(has_place(stored, j));
                            let s = choose|s: int| 0 <= s < stored.len() && (#[trigger] stored[s]).1 == j;
                            assert(key_gap(stored[s].0, key) == least);
                            assert(near@.contains(stored[s]));
                            let k = choose|k: int| 0 <= k < near@.len() && near@[k] == stored[s];
                            assert(best <= (#[trigger] near@[k]).1);
                        }
                    }
                    lemma_first_nearest_unique(self.points@, *q, best as int);
                }
                Some(best)
            },
        }
    }

    /// A radius within which the `num` nearest neighbours of `q` may be
    /// expected to lie: the greatest radius when all points are wanted
    /// anyway, and otherwise what `reach_for` makes of the neighbours that
    /// the tree finds. The radius is a guess: `nearests` makes sure of it.
    fn guess_reach(&self, q: &Point, key: &[i128; 3], num: usize) -> (reach: i128)
        requires
            key_matches(*key, q.point_coord),
            in_grid(*key),
        ensures
            1 <= reach <= FULL_REACH,
            num >= self@.len() ==> reach == FULL_REACH,
            num < self@.len() ==> exists|hint: Seq<([i128; 3], usize)>|
                names_places(hint, self@.len() as int) && reach == #[trigger] reach_for(
                    self@,
                    *q,
                    hint,
                    num as int,
                ),
    {
        proof {
            use_type_invariant(self);
        }
        if num >= self.points.len() {
            return FULL_REACH;
        }
        let hint = index_nearests(&self.index, key, num);
        proof {
            let stored = index_items(self.index);
            assert forall|k: int| 0 <= k < hint@.len() implies (#[trigger] hint@[k]).1 < self.points@.len() by {
                let s = choose|s: int| 0 <= s < stored.len() && stored[s] == hint@[k];
                assert((#[trigger] stored[s]).1 < self.points@.len());
            }
        }
        let reach = self.reach_of_hint(q, &hint, num);
        assert(names_places(hint@, self@.len() as int) && reach == reach_for(self@, *q, hint@, num as int));
        reach
    }

    /// The radius that a list of found neighbours suggests for the `num`
    /// nearest: one step more than the distance of the farthest of them,
    /// or the greatest radius if fewer than `num` were found.
    fn reach_of_hint(&self, q: &Point, hint: &Vec<([i128; 3], usize)>, num: usize) -> (reach: i128)
        requires
            names_places(hint@, self@.len() as int),
        ensures
            reach == reach_for(self@, *q, hint@, num as int),
            1 <= reach <= FULL_REACH,
    {
        if hint.len() < num || hint.len() == 0 {
            return FULL_REACH;
        }
        let mut far: usize = hint[0].1;
        let mut far_gap: u128 = 0;
        let mut i: usize = 0;
        assert(hint@.subrange(0, 0).len() == 0);
        while i < hint.len()
            invariant
                i <= hint@.len(),
                names_places(hint@, self.points@.len() as int),
                far < self.points@.len(),
                far_gap == farthest_gap(self.points@, *q, hint@.subrange(0, i as int)),
                i > 0 ==> gap_at(self.points@, *q, far as int) == far_gap,
            decreases hint.len() - i,
        {
            let place: usize = hint[i].1;
            proof {
                let upto = hint@.subrange(0, i + 1);
                assert(upto.drop_last() == hint@.subrange(0, i as int));
                assert(upto.last() == hint@[i as int]);
                lemma_gap2_bound(self.points@[place as int].point_coord, q.point_coord);
            }
            let gap: u128 = self.points[place].point_coord.squared_distance(&q.point_coord);
            if gap >= far_gap {
                far_gap = gap;
                far = place;
            }
            i += 1;
        }
        assert(hint@.subrange(0, hint@.len() as int) == hint@);
        let root: u64 = self.points[far].point_coord.get_coord_delta(&q.point_coord);
        let reach: i128 = root as i128 + 1;
        if reach > FULL_REACH {
            FULL_REACH
        } else {
            reach
        }
    }

    /// The places of the `num` points of the tree nearest to `q`, nearest
    /// first, or of all points if the tree has fewer. Of equally near points
    /// the one earlier in the frame comes first.
    pub fn nearests(&self, q: &Point, num: usize) -> (found: Vec<usize>)
        ensures
            is_k_nearest(self@, *q, num as int, found@),
            found@ == k_nearest(self@, *q, num as int),
    {
        proof {
            use_type_invariant(self);
        }
        let mut found: Vec<usize> = Vec::new();
        if num == 0 || self.points.len() == 0 {
            proof {
                assert(is_k_nearest(self.points@, *q, num as int, found@));
                lemma_k_nearest_unique(self.points@, *q, num as int, found@, k_nearest(self.points@, *q, num as int));
            }
            return found;
        }
        let key = key_of(&q.point_coord);
        let ghost stored = index_items(self.index);
        let mut reach: i128 = self.guess_reach(q, &key, num);
        let mut near = index_within(&self.index, &key, reach);
        if near.len() < num && reach < FULL_REACH {
            reach = FULL_REACH;
            near = index_within(&self.index, &key, reach);
        }
        proof {
            lemma_near_distinct(stored, self.points@, near@);
            if near@.len() < num {
                assert forall|i: int| 0 <= i < stored.len() implies near@.contains(#[trigger] stored[i]) by {
                    lemma_gap2_bound(self.points@[stored[i].1 as int].point_coord, q.point_coord);
                    assert(key_gap(stored[i].0, key) < 0x2_0000_0000 * 0x2_0000_0000);
                }
                lemma_all_found(stored, self.points@, near@);
            }
        }
        let mut best: Vec<(u128, usize)> = Vec::new();
        let mut t: usize = 0;
        while t < near.len()
            invariant
                t <= near@.len(),
                num > 0,
                keyed_by(stored, self.points@),
                forall|k: int| 0 <= k < near@.len() ==> stored.contains(#[trigger] near@[k]),
                forall|a: int, b: int|
                    0 <= a < b < near@.len() ==> (#[trigger] near@[a]).1 != (#[trigger] near@[b]).1,
                ranked(best@),
                t <= num ==> best@.len() == t,
                t > num ==> best@.len() == num,
                forall|i: int|
                    0 <= i < best@.len() ==> (#[trigger] best@[i]).1 < self.points@.len() && best@[i]
                        == entry_at(self.points@, *q, best@[i].1) && exists|s: int|
                        0 <= s < t && (#[trigger] near@[s]).1 == best@[i].1,
                forall|s: int|
                    0 <= s < t ==> best@.contains(entry_at(self.points@, *q, (#[trigger] near@[s]).1)) || (
                    best@.len() == num && entry_before(best@.last(), entry_at(self.points@, *q, near@[s].1))),
            decreases near.len() - t,
        {
            let place: usize = near[t].1;
            proof {
                let s = choose|s: int| 0 <= s < stored.len() && stored[s] == near@[t as int];
                assert((#[trigger] stored[s]).1 < self.points@.len());
                assert forall|i: int| 0 <= i < best@.len() implies (#[trigger] best@[i]).1 != place by {
                    let s = choose|s: int| 0 <= s < t && (#[trigger] near@[s]).1 == best@[i].1;
                    assert(near@[s].1 != near@[t as int].1);
                }
            }
            let gap: u128 = self.points[place].point_coord.squared_distance(&q.point_coord);
            let ghost before = best@;
            let ghost entry = (gap, place);
            assert(entry == entry_at(self.points@, *q, place));
            offer(&mut best, (gap, place), num);
            proof {
                assert forall|i: int| 0 <= i < best@.len() implies (#[trigger] best@[i]).1 < self.points@.len()
                    && best@[i] == entry_at(self.points@, *q, best@[i].1) && exists|s: int|
                    0 <= s < t + 1 && (#[trigger] near@[s]).1 == best@[i].1 by {
                    if best@[i] == entry {
                        assert(near@[t as int].1 == place);
                    } else {
                        let o = choose|o: int| 0 <= o < before.len() && before[o] == best@[i];
                        let s = choose|s: int| 0 <= s < t && (#[trigger] near@[s]).1 == before[o].1;
                        assert(near@[s].1 == best@[i].1);
                    }
                }
                assert forall|s: int| 0 <= s < t + 1 implies best@.contains(
                    entry_at(self.points@, *q, (#[trigger] near@[s]).1),
                ) || (best@.len() == num && entry_before(
                    best@.last(),
                    entry_at(self.points@, *q, near@[s].1),
                )) by {
                    let e = entry_at(self.points@, *q, near@[s].1);
                    if s < t {
                        if before.contains(e) {
                            let o = choose|o: int| 0 <= o < before.len() && before[o] == e;
                            assert(best@.contains(before[o]) || (best@.len() == num && entry_before(
                                best@.last(),
                                before[o],
                            )));
                        }
                    }
                }
            }
            t += 1;
        }
        let mut i: usize = 0;
        while i < best.len()
            invariant
                i <= best@.len(),
                found@.len() == i,
                forall|k: int| 0 <= k < i ==> #[trigger] found@[k] == best@[k].1,
            decreases best.len() - i,
        {
            found.push(best[i].1);
            i += 1;
        }
        proof {
            let points = self.points@;
            assert(found@.len() == offered(num as int, points.len() as int));
            assert forall|i: int, j: int| 0 <= i < j < found@.len() implies ranks_before(
                points,
                *q,
                #[trigger] found@[i] as int,
                #[trigger] found@[j] as int,
            ) by {
                lemma_gap2_bound(points[found@[i] as int].point_coord, q.point_coord);
                lemma_gap2_bound(points[found@[j] as int].point_coord, q.point_coord);
                assert(best@[i] == entry_at(points, *q, best@[i].1));
                assert(best@[j] == entry_at(points, *q, best@[j].1));
                assert(entry_before(best@[i], best@[j]));
            }
            assert forall|i: int, p: int|
                0 <= i < found@.len() && 0 <= p < points.len() && !holds_place(
                    found@,
                    p,
                ) implies #[trigger] ranks_before(points, *q, found@[i] as int, p) by {
                assert(has_place(stored, p));
                let s0 = choose|s: int| 0 <= s < stored.len() && (#[trigger] stored[s]).1 == p;
                let e = entry_at(points, *q, p as usize);
                let w = choose|w: int| 0 <= w < near@.len() && (#[trigger] near@[w]).1 == best@[i].1;
                assert(stored.contains(near@[w]));
                let sw = choose|s: int| 0 <= s < stored.len() && stored[s] == near@[w];
                assert(key_matches((#[trigger] stored[sw]).0, points[stored[sw].1 as int].point_coord));
                assert(key_gap(near@[w].0, key) < reach * reach);
                lemma_gap2_bound(points[p].point_coord, q.point_coord);
                lemma_gap2_bound(points[found@[i] as int].point_coord, q.point_coord);
                assert(best@[i] == entry_at(points, *q, best@[i].1));
                assert(best@[i].0 == gap_at(points, *q, found@[i] as int));
                if key_gap(stored[s0].0, key) < reach * reach {
                    assert(near@.contains(stored[s0]));
                    let s = choose|s: int| 0 <= s < near@.len() && near@[s] == stored[s0];
                    assert(near@[s].1 == p);
                    if best@.contains(e) {
                        let o = choose|o: int| 0 <= o < best@.len() && best@[o] == e;
                        assert(found@[o] == p as usize);
                    } else {
                        assert(entry_before(best@.last(), entry_at(points, *q, (#[trigger] near@[s]).1)));
                        if i < best@.len() - 1 {
                            assert(entry_before(best@[i], best@[best@.len() - 1]));
                        }
                    }
                }
            }
            assert(is_k_nearest(points, *q, num as int, found@));
            lemma_k_nearest_unique(points, *q, num as int, found@, k_nearest(points, *q, num as int));
        }
        found
    }
}

} // verus!
