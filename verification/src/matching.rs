//! Finding the counterpart of one point in the reference frame, and keeping
//! count of the reference points that were used.

use vstd::prelude::*;
use crate::error::FrameError;
use crate::point::{lemma_difference_bound, Penalties, Point};
use crate::points::{indices_within, Points};
use crate::ranking::{is_k_nearest, k_nearest, nearest_points};
use crate::tree::{first_nearest, PointTree};

verus! {

/// The frame after the point at place `j` was used once more.
pub open spec fn credit(frame: Seq<Point>, j: int) -> Seq<Point> {
    frame.update(j, frame[j].credited())
}

/// `after` is `before` with some of its counters raised; nothing else
/// differs.
pub open spec fn counted_on(before: Seq<Point>, after: Seq<Point>) -> bool {
    &&& after.len() == before.len()
    &&& forall|i: int|
        0 <= i < before.len() ==> {
            &&& (#[trigger] after[i]).point_coord == before[i].point_coord
            &&& after[i].point_color == before[i].point_color
            &&& after[i].index == before[i].index
            &&& before[i].mapping <= after[i].mapping
        }
}

/// `c` is a point of `points`, and no point of `points` lies closer to `q`.
pub open spec fn is_nearest_point(points: Seq<Point>, q: Point, c: Point) -> bool {
    &&& points.contains(c)
    &&& forall|j: int|
        0 <= j < points.len() ==> c.point_coord.gap2(q.point_coord) <= (
        #[trigger] points[j]).point_coord.gap2(q.point_coord)
}

/// The counterpart of `q` among `points`: the first of the points of
/// `points` that are as close to `q` as any.
pub open spec fn nearest_point(points: Seq<Point>, q: Point) -> Point {
    points[first_nearest(points, q)]
}

/// The cost that no candidate reaches: the least cost before any candidate
/// has been looked at.
pub open spec fn no_cost() -> int {
    u128::MAX as int
}

/// The black point at the origin that stands in when there is no candidate.
pub open spec fn default_point() -> Point {
    Point {
        point_coord: crate::coordinate::PointCoordinate { x: 0, y: 0, z: 0 },
        point_color: crate::color::PointColor { red: 0, green: 0, blue: 0 },
        mapping: 0,
        index: 0,
    }
}

/// Where a scan over candidates stands: the best candidate so far, its
/// cost when it was looked at, and the frame with the counters as the scan
/// has left them.
pub struct Scan {
    pub best: Point,
    pub least: int,
    pub frame: Seq<Point>,
}

/// Scans the candidates in order. Each candidate is priced with the number
/// of uses that its place in the frame shows at that moment. A candidate
/// that is cheaper than every one before it becomes the best, and its place
/// is credited with one use at once.
pub open spec fn scan(p: Point, candidates: Seq<Point>, weights: Penalties, frame: Seq<Point>) -> Scan
    decreases candidates.len(),
{
    if candidates.len() == 0 {
        Scan { best: default_point(), least: no_cost(), frame }
    } else {
        let before = scan(p, candidates.drop_last(), weights, frame);
        let c = candidates.last();
        let cost = p.difference(c, weights, before.frame[c.index as int].mapping);
        if cost < before.least {
            Scan { best: c, least: cost, frame: credit(before.frame, c.index as int) }
        } else {
            before
        }
    }
}

/// The candidate that a scan settles on, and the frame after the place of
/// that candidate was credited once more.
pub open spec fn closest(p: Point, candidates: Seq<Point>, weights: Penalties, frame: Seq<Point>) -> (
    Point,
    Seq<Point>,
) {
    let done = scan(p, candidates, weights, frame);
    (done.best, credit(done.frame, done.best.index as int))
}

/// A scan keeps the length of the frame, and settles on a candidate or on
/// the default point.
pub proof fn lemma_scan_shape(p: Point, candidates: Seq<Point>, weights: Penalties, frame: Seq<Point>)
    requires
        indices_within(candidates, frame.len() as int),
    ensures
        scan(p, candidates, weights, frame).frame.len() == frame.len(),
        candidates.len() == 0 ==> scan(p, candidates, weights, frame).best == default_point(),
        candidates.len() > 0 ==> candidates.contains(scan(p, candidates, weights, frame).best),
        frame.len() > 0 ==> scan(p, candidates, weights, frame).best.index < frame.len(),
        scan(p, candidates, weights, frame).least <= no_cost(),
    decreases candidates.len(),
{
    if candidates.len() > 0 {
        let front = candidates.drop_last();
        lemma_scan_shape(p, front, weights, frame);
        let before = scan(p, front, weights, frame);
        let c = candidates.last();
        assert(candidates[candidates.len() - 1] == c);
        lemma_difference_bound(p, c, weights, before.frame[c.index as int].mapping);
        if front.len() > 0 {
            let i = choose|i: int| 0 <= i < front.len() && front[i] == before.best;
            assert(candidates[i] == before.best);
        }
    }
}

/// The nearest points of a frame are points of the frame: no more than
/// were asked for, and naming places within `len` if the points of the
/// frame do.
pub proof fn lemma_nearest_points_within(points: Seq<Point>, q: Point, quantity: int, len: int)
    requires
        is_k_nearest(points, q, quantity, k_nearest(points, q, quantity)),
        indices_within(points, len),
        0 <= quantity,
    ensures
        nearest_points(points, q, quantity).len() <= quantity,
        nearest_points(points, q, quantity).len() <= points.len(),
        forall|i: int|
            0 <= i < nearest_points(points, q, quantity).len() ==> points.contains(
                #[trigger] nearest_points(points, q, quantity)[i],
            ),
        indices_within(nearest_points(points, q, quantity), len),
{
    let places = k_nearest(points, q, quantity);
    let found = nearest_points(points, q, quantity);
    assert forall|i: int| 0 <= i < found.len() implies points.contains(#[trigger] found[i]) && found[i].index
        < len by {
        assert(places[i] < points.len());
        assert(found[i] == points[places[i] as int]);
    }
}

/// Credits the point at place `j` with one use.
pub fn credit_at(frame: &mut Vec<Point>, j: usize)
    requires
        j < old(frame)@.len(),
    ensures
        final(frame)@ == credit(old(frame)@, j as int),
{
    let mut p: Point = frame[j];
    if p.mapping < u16::MAX {
        p.mapping = p.mapping + 1;
    }
    frame.set(j, p);
}

impl Point {
    /// Finds the point of the tree nearest to this one, of several equally
    /// near ones the first in frame order, and credits the place that the
    /// found point names in `reference_frame` with one use.
    ///
    /// Fails with `EmptyReference` exactly when the tree is empty; the
    /// frame is then left as it was.
    pub fn get_nearest(&self, kd_tree: &PointTree, reference_frame: &mut Vec<Point>) -> (found: Result<
        Point,
        FrameError,
    >)
        requires
            indices_within(kd_tree@, old(reference_frame)@.len() as int),
        ensures
            found is Err <==> kd_tree@.len() == 0,
            found is Err ==> found == Err::<Point, FrameError>(FrameError::EmptyReference)
                && final(reference_frame)@ == old(reference_frame)@,
            found is Ok ==> found->Ok_0 == nearest_point(kd_tree@, *self),
            found is Ok ==> is_nearest_point(kd_tree@, *self, found->Ok_0),
            found is Ok ==> final(reference_frame)@ == credit(
                old(reference_frame)@,
                (found->Ok_0).index as int,
            ),
    {
        match kd_tree.nearest(self) {
            None => Err(FrameError::EmptyReference),
            Some(place) => {
                let nearest_point = kd_tree.get(place);
                assert(kd_tree@[place as int] == nearest_point);
                credit_at(reference_frame, nearest_point.index);
                Ok(nearest_point)
            },
        }
    }

    /// The `quantity` points of the tree nearest to this one, nearest first,
    /// or all points of the tree if it has fewer. Of equally near points the
    /// one earlier in the frame comes first.
    pub fn get_nearests(&self, kd_tree: &PointTree, quantity: usize) -> (found: Points)
        ensures
            found.data@ == nearest_points(kd_tree@, *self, quantity as int),
            is_k_nearest(kd_tree@, *self, quantity as int, k_nearest(kd_tree@, *self, quantity as int)),
            found.delta_pos_vector@.len() == 0,
            found.delta_colours@.len() == 0,
            found.reference_frame@.len() == 0,
    {
        let places = kd_tree.nearests(self, quantity);
        let mut data: Vec<Point> = Vec::new();
        let mut i: usize = 0;
        while i < places.len()
            invariant
                i <= places@.len(),
                data@.len() == i,
                is_k_nearest(kd_tree@, *self, quantity as int, places@),
                forall|k: int| 0 <= k < i ==> #[trigger] data@[k] == kd_tree@[places@[k] as int],
            decreases places.len() - i,
        {
            data.push(kd_tree.get(places[i]));
            i += 1;
        }
        assert(data@ == nearest_points(kd_tree@, *self, quantity as int));
        Points::of(data)
    }

    /// Picks the cheapest of the candidates, in the order given, and keeps
    /// count in `reference_frame`. There must be a candidate to pick.
    ///
    /// Each candidate is priced by `get_difference` with the use count
    /// that its place in `reference_frame` shows when its turn comes. A
    /// candidate cheaper than all before it is credited with one use at
    /// once; the candidate that has won in the end is credited once more.
    pub fn get_closest(
        &self,
        points: Points,
        penalize_coor: u32,
        penalize_col: u32,
        reference_frame: &mut Vec<Point>,
        penalize_mapped: u32,
    ) -> (result: Point)
        requires
            points.data@.len() > 0,
            indices_within(points.data@, old(reference_frame)@.len() as int),
        ensures
            points.data@.contains(result),
            result == closest(
                *self,
                points.data@,
                Penalties { coord: penalize_coor, color: penalize_col, mapped: penalize_mapped },
                old(reference_frame)@,
            ).0,
            final(reference_frame)@ == closest(
                *self,
                points.data@,
                Penalties { coord: penalize_coor, color: penalize_col, mapped: penalize_mapped },
                old(reference_frame)@,
            ).1,
    {
        let ghost weights = Penalties { coord: penalize_coor, color: penalize_col, mapped: penalize_mapped };
        let ghost candidates = points.data@;
        let ghost start = reference_frame@;
        proof {
            assert(candidates[0].index < start.len());
            lemma_scan_shape(*self, candidates, weights, start);
        }
        let mut min: u128 = u128::MAX;
        let mut result: Point = Point::new_default();
        let mut i: usize = 0;
        while i < points.data.len()
            invariant
                i <= candidates.len(),
                candidates == points.data@,
                start.len() > 0,
                indices_within(candidates, start.len() as int),
                reference_frame@.len() == start.len(),
                result.index < start.len(),
                scan(*self, candidates.subrange(0, i as int), weights, start) == (Scan {
                    best: result,
                    least: min as int,
                    frame: reference_frame@,
                }),
                weights == (Penalties { coord: penalize_coor, color: penalize_col, mapped: penalize_mapped }),
            decreases candidates.len() - i,
        {
            let point: Point = points.data[i];
            proof {
                let upto = candidates.subrange(0, i + 1);
                assert(upto.drop_last() == candidates.subrange(0, i as int));
                assert(upto.last() == point);
            }
            let map: u16 = reference_frame[point.index].mapping;
            let cur: u128 = self.get_difference(&point, penalize_coor, penalize_col, map, penalize_mapped);
            if cur < min {
                min = cur;
                credit_at(reference_frame, point.index);
                result = point;
            }
            i += 1;
        }
        assert(candidates.subrange(0, candidates.len() as int) == candidates);
        credit_at(reference_frame, result.index);
        result
    }

    /// Averages this point with the cheapest of the candidates. There must
    /// be a candidate.
    pub fn get_average_closest(
        &self,
        points: Points,
        penalize_coor: u32,
        penalize_col: u32,
        reference_frame: &mut Vec<Point>,
        penalize_mapped: u32,
    ) -> (result: Point)
        requires
            points.data@.len() > 0,
            indices_within(points.data@, old(reference_frame)@.len() as int),
        ensures
            result == self.averaged(
                closest(
                    *self,
                    points.data@,
                    Penalties { coord: penalize_coor, color: penalize_col, mapped: penalize_mapped },
                    old(reference_frame)@,
                ).0,
            ),
            final(reference_frame)@ == closest(
                *self,
                points.data@,
                Penalties { coord: penalize_coor, color: penalize_col, mapped: penalize_mapped },
                old(reference_frame)@,
            ).1,
    {
        let chosen = self.get_closest(points, penalize_coor, penalize_col, reference_frame, penalize_mapped);
        self.get_average(&chosen)
    }

    /// Averages this point with the cheapest of the `quantity` points of
    /// the tree nearest to it. There must be a point in the tree, and at
    /// least one must be asked for.
    pub fn get_average_closest_from_kdtree(
        &self,
        kd_tree: &PointTree,
        penalize_coor: u32,
        penalize_col: u32,
        reference_frame: &mut Vec<Point>,
        penalize_mapped: u32,
        quantity: usize,
    ) -> (result: Point)
        requires
            quantity > 0,
            kd_tree@.len() > 0,
            indices_within(kd_tree@, old(reference_frame)@.len() as int),
        ensures
            result == self.averaged(
                closest(
                    *self,
                    nearest_points(kd_tree@, *self, quantity as int),
                    Penalties { coord: penalize_coor, color: penalize_col, mapped: penalize_mapped },
                    old(reference_frame)@,
                ).0,
            ),
            final(reference_frame)@ == closest(
                *self,
                nearest_points(kd_tree@, *self, quantity as int),
                Penalties { coord: penalize_coor, color: penalize_col, mapped: penalize_mapped },
                old(reference_frame)@,
            ).1,
            is_k_nearest(kd_tree@, *self, quantity as int, k_nearest(kd_tree@, *self, quantity as int)),
    {
        let found = self.get_nearests(kd_tree, quantity);
        proof {
            lemma_nearest_points_within(kd_tree@, *self, quantity as int, reference_frame@.len() as int);
        }
        self.get_average_closest(found, penalize_coor, penalize_col, reference_frame, penalize_mapped)
    }
}

} // verus!
