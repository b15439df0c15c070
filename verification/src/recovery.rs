//! Matching a whole frame against a reference frame, by either policy, and
//! what the use counters add up to afterwards.

use vstd::prelude::*;
use crate::error::FrameError;
use crate::matching::{
    closest, counted_on, credit, is_nearest_point, lemma_nearest_points_within, lemma_scan_shape, nearest_point,
    scan,
};
use crate::ranking::{is_k_nearest, k_nearest, nearest_points};
use crate::tree::{first_nearest, lemma_first_nearest};
use crate::point::{Penalties, Point};
use crate::points::{copy_points, indices_within, Points};

verus! {

/// The number of candidates that the cost policy weighs for each point
/// unless told otherwise.
pub const DEFAULT_QUANTITY: usize = 400;

/// The sum of the use counters of a frame.
pub open spec fn mapping_sum(frame: Seq<Point>) -> int
    decreases frame.len(),
{
    if frame.len() == 0 {
        0
    } else {
        mapping_sum(frame.drop_last()) + frame.last().mapping
    }
}

/// No counter of the frame stands at its ceiling.
pub open spec fn below_ceiling(frame: Seq<Point>) -> bool {
    forall|j: int| 0 <= j < frame.len() ==> (#[trigger] frame[j]).mapping < u16::MAX
}

/// The frame after each of the places in `targets` was credited with one
/// use, in order.
pub open spec fn credited_all(frame: Seq<Point>, targets: Seq<int>) -> Seq<Point>
    decreases targets.len(),
{
    if targets.len() == 0 {
        frame
    } else {
        credit(credited_all(frame, targets.drop_last()), targets.last())
    }
}

/// How often the place `j` occurs among the targets.
pub open spec fn uses(targets: Seq<int>, j: int) -> int
    decreases targets.len(),
{
    if targets.len() == 0 {
        0
    } else {
        uses(targets.drop_last(), j) + if targets.last() == j {
            1int
        } else {
            0int
        }
    }
}

/// The places that the points name.
pub open spec fn indices_of(points: Seq<Point>) -> Seq<int> {
    Seq::new(points.len(), |k: int| points[k].index as int)
}

/// Each point of `current` averaged with the point chosen for it.
pub open spec fn averaged_with(current: Seq<Point>, chosen: Seq<Point>) -> Seq<Point> {
    Seq::new(current.len(), |k: int| current[k].averaged(chosen[k]))
}

/// For each point of `current`, its counterpart among `reference`.
pub open spec fn counterparts(current: Seq<Point>, reference: Seq<Point>) -> Seq<Point> {
    Seq::new(current.len(), |k: int| nearest_point(reference, current[k]))
}

/// Matches `current` point by point, in order, each against its own list
/// of candidates, on one frame of counters that runs through. Gives the
/// averaged points and the frame of counters at the end.
pub open spec fn ratio_fold(
    current: Seq<Point>,
    candidates: Seq<Seq<Point>>,
    weights: Penalties,
    frame: Seq<Point>,
) -> (Seq<Point>, Seq<Point>)
    decreases current.len(),
{
    if current.len() == 0 {
        (Seq::empty(), frame)
    } else {
        let before = ratio_fold(current.drop_last(), candidates.drop_last(), weights, frame);
        let step = closest(current.last(), candidates.last(), weights, before.1);
        (before.0.push(current.last().averaged(step.0)), step.1)
    }
}

/// For each point of `current`, the `quantity` points of `reference`
/// nearest to it, nearest first.
pub open spec fn candidate_lists(current: Seq<Point>, reference: Seq<Point>, quantity: int) -> Seq<Seq<Point>> {
    Seq::new(current.len(), |k: int| nearest_points(reference, current[k], quantity))
}

/// The counterpart of a point in a frame that is not empty is a point of
/// the frame, and no point of the frame lies closer.
pub proof fn lemma_nearest_point(points: Seq<Point>, q: Point)
    requires
        points.len() > 0,
    ensures
        is_nearest_point(points, q, nearest_point(points, q)),
{
    lemma_first_nearest(points, q);
    assert(points[first_nearest(points, q)] == nearest_point(points, q));
}

/// Replacing one point changes the sum of the counters by the difference
/// of the two counters.
pub proof fn lemma_sum_update(frame: Seq<Point>, j: int, p: Point)
    requires
        0 <= j < frame.len(),
    ensures
        mapping_sum(frame.update(j, p)) == mapping_sum(frame) - frame[j].mapping + p.mapping,
    decreases frame.len(),
{
    let after = frame.update(j, p);
    if j == frame.len() - 1 {
        assert(after.drop_last() == frame.drop_last());
    } else {
        assert(after.drop_last() == frame.drop_last().update(j, p));
        lemma_sum_update(frame.drop_last(), j, p);
    }
}

/// Raising counters twice is raising counters.
pub proof fn lemma_counted_on_twice(a: Seq<Point>, b: Seq<Point>, c: Seq<Point>)
    requires
        counted_on(a, b),
        counted_on(b, c),
    ensures
        counted_on(a, c),
{
    assert forall|i: int| 0 <= i < a.len() implies {
        &&& (#[trigger] c[i]).point_coord == a[i].point_coord
        &&& c[i].point_color == a[i].point_color
        &&& c[i].index == a[i].index
        &&& a[i].mapping <= c[i].mapping
    } by {
        assert(b[i].index == a[i].index);
        assert(c[i].index == b[i].index);
    }
}

/// A frame with no counter at its ceiling had none there before the
/// counters were raised.
pub proof fn lemma_below_ceiling_before(before: Seq<Point>, after: Seq<Point>)
    requires
        counted_on(before, after),
        below_ceiling(after),
    ensures
        below_ceiling(before),
{
    assert forall|j: int| 0 <= j < before.len() implies (#[trigger] before[j]).mapping < u16::MAX by {
        assert(before[j].mapping <= after[j].mapping);
    }
}

/// One credit changes nothing but one counter. It raises the sum of the
/// counters by one, unless the counter stands at its ceiling.
pub proof fn lemma_credit_sum(frame: Seq<Point>, j: int)
    requires
        0 <= j < frame.len(),
    ensures
        counted_on(frame, credit(frame, j)),
        mapping_sum(frame) <= mapping_sum(credit(frame, j)) <= mapping_sum(frame) + 1,
        credit(frame, j)[j].mapping < u16::MAX ==> mapping_sum(credit(frame, j)) == mapping_sum(frame) + 1,
{
    lemma_sum_update(frame, j, frame[j].credited());
}

/// Crediting a list of places changes nothing about the points but their
/// counters. The sum of the counters grows by at most the number of
/// credits, and by exactly that number when no counter stands at its
/// ceiling afterwards.
pub proof fn lemma_credited_all(frame: Seq<Point>, targets: Seq<int>)
    requires
        forall|k: int| 0 <= k < targets.len() ==> 0 <= #[trigger] targets[k] < frame.len(),
    ensures
        counted_on(frame, credited_all(frame, targets)),
        mapping_sum(frame) <= mapping_sum(credited_all(frame, targets)) <= mapping_sum(frame) + targets.len(),
        below_ceiling(credited_all(frame, targets)) ==> mapping_sum(credited_all(frame, targets))
            == mapping_sum(frame) + targets.len(),
    decreases targets.len(),
{
    if targets.len() > 0 {
        let front = targets.drop_last();
        assert forall|k: int| 0 <= k < front.len() implies 0 <= #[trigger] front[k] < frame.len() by {
            assert(front[k] == targets[k]);
        }
        lemma_credited_all(frame, front);
        let before = credited_all(frame, front);
        let j = targets.last();
        assert(targets[targets.len() - 1] == j);
        lemma_credit_sum(before, j);
        let after = credit(before, j);
        assert(after == credited_all(frame, targets));
        lemma_counted_on_twice(frame, before, after);
        if below_ceiling(after) {
            lemma_below_ceiling_before(before, after);
            assert(after[j].mapping < u16::MAX);
        }
    }
}

/// After crediting a list of places, each counter shows what it showed
/// before plus the number of credits to its place, or its ceiling if that
/// is less.
pub proof fn lemma_credited_count(frame: Seq<Point>, targets: Seq<int>, j: int)
    requires
        forall|k: int| 0 <= k < targets.len() ==> 0 <= #[trigger] targets[k] < frame.len(),
        0 <= j < frame.len(),
    ensures
        0 <= uses(targets, j) <= targets.len(),
        credited_all(frame, targets)[j].mapping == if frame[j].mapping + uses(targets, j) <= u16::MAX {
            frame[j].mapping + uses(targets, j)
        } else {
            u16::MAX as int
        },
    decreases targets.len(),
{
    if targets.len() > 0 {
        let front = targets.drop_last();
        assert forall|k: int| 0 <= k < front.len() implies 0 <= #[trigger] front[k] < frame.len() by {
            assert(front[k] == targets[k]);
        }
        lemma_credited_count(frame, front, j);
        lemma_credited_all(frame, front);
        assert(targets[targets.len() - 1] == targets.last());
    }
}

/// A scan changes nothing about the frame but its counters, and raises
/// their sum by at most the number of candidates.
pub proof fn lemma_scan_sum(p: Point, candidates: Seq<Point>, weights: Penalties, frame: Seq<Point>)
    requires
        indices_within(candidates, frame.len() as int),
    ensures
        counted_on(frame, scan(p, candidates, weights, frame).frame),
        mapping_sum(frame) <= mapping_sum(scan(p, candidates, weights, frame).frame) <= mapping_sum(frame)
            + candidates.len(),
    decreases candidates.len(),
{
    if candidates.len() > 0 {
        let front = candidates.drop_last();
        lemma_scan_sum(p, front, weights, frame);
        let before = scan(p, front, weights, frame);
        let c = candidates.last();
        assert(candidates[candidates.len() - 1] == c);
        lemma_credit_sum(before.frame, c.index as int);
        lemma_counted_on_twice(frame, before.frame, credit(before.frame, c.index as int));
    }
}

/// Matching one point by cost changes nothing about the frame but its
/// counters. It raises their sum by at most one more than the number of
/// candidates, and by at least one when no counter stands at its ceiling
/// afterwards.
pub proof fn lemma_closest_sum(p: Point, candidates: Seq<Point>, weights: Penalties, frame: Seq<Point>)
    requires
        frame.len() > 0,
        indices_within(candidates, frame.len() as int),
    ensures
        counted_on(frame, closest(p, candidates, weights, frame).1),
        mapping_sum(closest(p, candidates, weights, frame).1) <= mapping_sum(frame) + candidates.len() + 1,
        below_ceiling(closest(p, candidates, weights, frame).1) ==> mapping_sum(frame) + 1 <= mapping_sum(
            closest(p, candidates, weights, frame).1,
        ),
{
    lemma_scan_shape(p, candidates, weights, frame);
    lemma_scan_sum(p, candidates, weights, frame);
    let done = scan(p, candidates, weights, frame);
    lemma_credit_sum(done.frame, done.best.index as int);
    let after = closest(p, candidates, weights, frame).1;
    lemma_counted_on_twice(frame, done.frame, after);
    if below_ceiling(after) {
        assert(after[done.best.index as int].mapping < u16::MAX);
    }
}

/// What holds after a whole frame was matched by cost: one output point
/// for each current point, at the same place in the frame; nothing about
/// the reference changed but its counters; no counter lower than before;
/// the sum of the counters higher by at most one more than `quantity` for
/// each current point, and by at least one for each current point when no
/// counter stands at its ceiling afterwards.
pub proof fn lemma_ratio_fold(
    current: Seq<Point>,
    candidates: Seq<Seq<Point>>,
    weights: Penalties,
    frame: Seq<Point>,
    quantity: int,
)
    requires
        frame.len() > 0,
        candidates.len() == current.len(),
        forall|k: int|
            0 <= k < current.len() ==> (#[trigger] candidates[k]).len() <= quantity && indices_within(
                candidates[k],
                frame.len() as int,
            ),
    ensures
        ratio_fold(current, candidates, weights, frame).0.len() == current.len(),
        forall|k: int|
            0 <= k < current.len() ==> (#[trigger] ratio_fold(current, candidates, weights, frame).0[k]).index
                == current[k].index,
        counted_on(frame, ratio_fold(current, candidates, weights, frame).1),
        mapping_sum(ratio_fold(current, candidates, weights, frame).1) <= mapping_sum(frame) + current.len() * (
        quantity + 1),
        below_ceiling(ratio_fold(current, candidates, weights, frame).1) ==> mapping_sum(frame)
            + current.len() <= mapping_sum(ratio_fold(current, candidates, weights, frame).1),
    decreases current.len(),
{
    if current.len() > 0 {
        let n = current.len() as int;
        let front = current.drop_last();
        let front_candidates = candidates.drop_last();
        assert forall|k: int| 0 <= k < front.len() implies (#[trigger] front_candidates[k]).len() <= quantity
            && indices_within(front_candidates[k], frame.len() as int) by {
            assert(front_candidates[k] == candidates[k]);
        }
        lemma_ratio_fold(front, front_candidates, weights, frame, quantity);
        let before = ratio_fold(front, front_candidates, weights, frame);
        let last = candidates.last();
        assert(candidates[n - 1] == last);
        lemma_closest_sum(current.last(), last, weights, before.1);
        let after = ratio_fold(current, candidates, weights, frame);
        assert(after.1 == closest(current.last(), last, weights, before.1).1);
        assert forall|k: int| 0 <= k < current.len() implies (#[trigger] after.0[k]).index
            == current[k].index by {
            if k < n - 1 {
                assert(after.0[k] == before.0[k]);
                assert(front[k] == current[k]);
            }
        }
        lemma_counted_on_twice(frame, before.1, after.1);
        assert((n - 1) * (quantity + 1) + quantity + 1 == n * (quantity + 1)) by (nonlinear_arith);
        if below_ceiling(after.1) {
            lemma_below_ceiling_before(before.1, after.1);
        }
    }
}

/// The points of the output frame of a matching that succeeded.
pub open spec fn output_of(r: Result<(Points, Points), FrameError>) -> Seq<Point> {
    (r->Ok_0).0.data@
}

/// The points of the reference, with their counters, after a matching
/// that succeeded.
pub open spec fn snapshot_of(r: Result<(Points, Points), FrameError>) -> Seq<Point> {
    (r->Ok_0).1.data@
}

impl Points {
    /// The frame carries nothing but its points.
    pub open spec fn is_bare(&self) -> bool {
        &&& self.delta_pos_vector@.len() == 0
        &&& self.delta_colours@.len() == 0
        &&& self.reference_frame@.len() == 0
    }

    /// Everything but the working copy of the reference is as in `other`.
    pub open spec fn same_but_reference(&self, other: &Points) -> bool {
        &&& self.data@ == other.data@
        &&& self.delta_pos_vector@ == other.delta_pos_vector@
        &&& self.delta_colours@ == other.delta_colours@
    }

    /// Matches every point of this frame, in frame order, with the nearest
    /// point of the reference frame `points`, of several equally near ones
    /// the first in frame order, and averages the two.
    ///
    /// Gives the frame of averaged points, and a copy of the reference in
    /// which each point was credited with one use for every time that a
    /// counterpart named its place. This frame keeps that copy as its
    /// `reference_frame`. The points of the reference must name places of
    /// the reference.
    ///
    /// Fails with `EmptyReference` exactly when the reference is empty and
    /// this frame is not; this frame is then left as it was.
    pub fn average_points_recovery(&mut self, points: Points) -> (r: Result<(Points, Points), FrameError>)
        requires
            indices_within(points.data@, points.data@.len() as int),
        ensures
            r is Err <==> points.data@.len() == 0 && old(self).data@.len() > 0,
            r is Err ==> r == Err::<(Points, Points), FrameError>(FrameError::EmptyReference)
                && final(self).same_but_reference(old(self)) && final(self).reference_frame@ == old(
                self,
            ).reference_frame@,
            r is Ok ==> final(self).same_but_reference(old(self)) && final(self).reference_frame@
                == snapshot_of(r),
            r is Ok ==> (r->Ok_0).0.is_bare() && (r->Ok_0).1.is_bare(),
            r is Ok ==> output_of(r) == averaged_with(old(self).data@, counterparts(old(self).data@, points.data@)),
            r is Ok ==> snapshot_of(r) == credited_all(
                points.data@,
                indices_of(counterparts(old(self).data@, points.data@)),
            ),
            r is Ok ==> forall|k: int|
                0 <= k < old(self).data@.len() ==> is_nearest_point(
                    points.data@,
                    old(self).data@[k],
                    #[trigger] counterparts(old(self).data@, points.data@)[k],
                ),
            r is Ok ==> output_of(r).len() == old(self).data@.len(),
            r is Ok ==> forall|k: int|
                0 <= k < old(self).data@.len() ==> output_of(r)[k].index == (#[trigger] old(self).data@[k]).index,
            r is Ok ==> counted_on(points.data@, snapshot_of(r)),
            r is Ok ==> mapping_sum(snapshot_of(r)) <= mapping_sum(points.data@) + old(self).data@.len(),
            r is Ok && below_ceiling(snapshot_of(r)) ==> mapping_sum(snapshot_of(r)) == mapping_sum(
                points.data@,
            ) + old(self).data@.len(),
    {
        if points.data.len() == 0 && self.data.len() > 0 {
            return Err(FrameError::EmptyReference);
        }
        let ghost reference = points.data@;
        let ghost current = self.data@;
        let mut snapshot: Vec<Point> = copy_points(&points.data);
        let kd_tree = points.to_kdtree();
        let mut output: Vec<Point> = Vec::new();
        let ghost mut chosen: Seq<Point> = Seq::empty();
        let mut k: usize = 0;
        while k < self.data.len()
            invariant
                k <= current.len(),
                self.data@ == current,
                self.same_but_reference(old(self)),
                self.reference_frame@ == old(self).reference_frame@,
                kd_tree@ == reference,
                reference == points.data@,
                current == old(self).data@,
                indices_within(reference, reference.len() as int),
                snapshot@.len() == reference.len(),
                chosen.len() == k,
                output@.len() == k,
                forall|i: int| 0 <= i < k ==> #[trigger] chosen[i] == nearest_point(reference, current[i]),
                forall|i: int| 0 <= i < k ==> reference.contains(#[trigger] chosen[i]),
                forall|i: int| 0 <= i < k ==> #[trigger] output@[i] == current[i].averaged(chosen[i]),
                snapshot@ == credited_all(reference, indices_of(chosen)),
            decreases current.len() - k,
        {
            let point: Point = self.data[k];
            match point.get_nearest(&kd_tree, &mut snapshot) {
                Err(e) => {
                    return Err(e);
                },
                Ok(counterpart) => {
                    output.push(point.get_average(&counterpart));
                    proof {
                        let grown = chosen.push(counterpart);
                        assert(indices_of(grown).drop_last() == indices_of(chosen));
                        assert(indices_of(grown).last() == counterpart.index);
                        chosen = grown;
                    }
                },
            }
            k += 1;
        }
        let kept = copy_points(&snapshot);
        self.reference_frame = snapshot;
        let ghost averaged = output@;
        let ghost credited = kept@;
        proof {
            assert(output@ == averaged_with(current, chosen));
            assert forall|i: int| 0 <= i < indices_of(chosen).len() implies 0 <= #[trigger] indices_of(
                chosen,
            )[i] < reference.len() by {
                assert(reference.contains(chosen[i]));
                let j = choose|j: int| 0 <= j < reference.len() && reference[j] == chosen[i];
                assert(reference[j].index < reference.len());
            }
            lemma_credited_all(reference, indices_of(chosen));
        }
        let output_frame = Points::of(output);
        let snapshot_frame = Points::of(kept);
        proof {
            assert(output_frame.data@ == averaged);
            assert(snapshot_frame.data@ == credited);
            assert(chosen == counterparts(current, reference));
            assert(counted_on(reference, credited));
            assert forall|k: int| 0 <= k < averaged.len() implies (#[trigger] averaged[k]).index
                == current[k].index by {
                assert(averaged[k] == current[k].averaged(chosen[k]));
            }
        }
        let r: Result<(Points, Points), FrameError> = Ok((output_frame, snapshot_frame));
        proof {
            assert(output_of(r) == averaged);
            assert(snapshot_of(r) == credited);
            assert forall|k: int| 0 <= k < current.len() implies is_nearest_point(
                reference,
                current[k],
                #[trigger] counterparts(current, reference)[k],
            ) by {
                lemma_nearest_point(reference, current[k]);
            }
        }
        r
    }

    /// Matches every point of this frame, in frame order, with the
    /// cheapest of the `quantity` points of the reference frame `points`
    /// nearest to it, and averages the two.
    ///
    /// The cost of a candidate weighs its distance in space, its distance
    /// in colour and the number of uses that its place shows at that
    /// moment; see `get_closest`. The counters run through from one
    /// current point to the next. Gives the frame of averaged points and
    /// the reference with its counters as the matching left them. This
    /// frame keeps the latter as its `reference_frame`. The points of the
    /// reference must name places of the reference, and at least one
    /// candidate must be asked for.
    ///
    /// Fails with `EmptyReference` exactly when the reference is empty and
    /// this frame is not; this frame is then left as it was.
    pub fn closest_with_ratio_average_points_recovery(
        &mut self,
        points: Points,
        penalize_coor: u32,
        penalize_col: u32,
        penalize_mapped: u32,
        quantity: usize,
    ) -> (r: Result<(Points, Points), FrameError>)
        requires
            quantity > 0,
            indices_within(points.data@, points.data@.len() as int),
        ensures
            r is Err <==> points.data@.len() == 0 && old(self).data@.len() > 0,
            r is Err ==> r == Err::<(Points, Points), FrameError>(FrameError::EmptyReference)
                && final(self).same_but_reference(old(self)) && final(self).reference_frame@ == old(
                self,
            ).reference_frame@,
            r is Ok ==> final(self).same_but_reference(old(self)) && final(self).reference_frame@
                == snapshot_of(r),
            r is Ok ==> (r->Ok_0).0.is_bare() && (r->Ok_0).1.is_bare(),
            r is Ok ==> (output_of(r), snapshot_of(r)) == ratio_fold(
                old(self).data@,
                candidate_lists(old(self).data@, points.data@, quantity as int),
                Penalties { coord: penalize_coor, color: penalize_col, mapped: penalize_mapped },
                points.data@,
            ),
            r is Ok ==> output_of(r).len() == old(self).data@.len(),
            r is Ok ==> forall|k: int|
                0 <= k < old(self).data@.len() ==> output_of(r)[k].index == (#[trigger] old(self).data@[k]).index,
            r is Ok ==> counted_on(points.data@, snapshot_of(r)),
            r is Ok ==> mapping_sum(snapshot_of(r)) <= mapping_sum(points.data@) + old(self).data@.len() * (
            quantity + 1),
            r is Ok && below_ceiling(snapshot_of(r)) ==> mapping_sum(points.data@) + old(self).data@.len()
                <= mapping_sum(snapshot_of(r)),
    {
        if points.data.len() == 0 && self.data.len() > 0 {
            return Err(FrameError::EmptyReference);
        }
        let ghost weights = Penalties { coord: penalize_coor, color: penalize_col, mapped: penalize_mapped };
        let ghost reference = points.data@;
        let ghost current = self.data@;
        let mut snapshot: Vec<Point> = copy_points(&points.data);
        let kd_tree = points.to_kdtree();
        let mut output: Vec<Point> = Vec::new();
        let ghost mut candidates: Seq<Seq<Point>> = Seq::empty();
        let mut k: usize = 0;
        assert(current.subrange(0, 0) == Seq::<Point>::empty());
        while k < self.data.len()
            invariant
                k <= current.len(),
                self.data@ == current,
                self.same_but_reference(old(self)),
                self.reference_frame@ == old(self).reference_frame@,
                kd_tree@ == reference,
                quantity > 0,
                current.len() > 0 ==> reference.len() > 0,
                indices_within(reference, reference.len() as int),
                snapshot@.len() == reference.len(),
                candidates.len() == k,
                forall|i: int|
                    0 <= i < k ==> #[trigger] candidates[i] == nearest_points(reference, current[i], quantity as int),
                forall|i: int|
                    0 <= i < k ==> is_k_nearest(
                        reference,
                        #[trigger] current[i],
                        quantity as int,
                        k_nearest(reference, current[i], quantity as int),
                    ),
                (output@, snapshot@) == ratio_fold(current.subrange(0, k as int), candidates, weights, reference),
                weights == (Penalties { coord: penalize_coor, color: penalize_col, mapped: penalize_mapped }),
            decreases current.len() - k,
        {
            let point: Point = self.data[k];
            let ghost before = snapshot@;
            let averaged = point.get_average_closest_from_kdtree(
                &kd_tree,
                penalize_coor,
                penalize_col,
                &mut snapshot,
                penalize_mapped,
                quantity,
            );
            proof {
                let found = nearest_points(reference, point, quantity as int);
                let grown = candidates.push(found);
                let upto = current.subrange(0, k + 1);
                assert(upto.drop_last() == current.subrange(0, k as int));
                assert(upto.last() == point);
                assert(grown.drop_last() == candidates);
                assert(grown.last() == found);
                lemma_nearest_points_within(reference, point, quantity as int, reference.len() as int);
                lemma_scan_shape(point, found, weights, before);
                candidates = grown;
            }
            output.push(averaged);
            k += 1;
        }
        let kept = copy_points(&snapshot);
        self.reference_frame = snapshot;
        proof {
            assert(current.subrange(0, current.len() as int) == current);
            if reference.len() > 0 {
                assert forall|i: int| 0 <= i < current.len() implies (#[trigger] candidates[i]).len()
                    <= quantity && indices_within(candidates[i], reference.len() as int) by {
                    assert(is_k_nearest(
                        reference,
                        current[i],
                        quantity as int,
                        k_nearest(reference, current[i], quantity as int),
                    ));
                    lemma_nearest_points_within(reference, current[i], quantity as int, reference.len() as int);
                }
                lemma_ratio_fold(current, candidates, weights, reference, quantity as int);
            } else {
                assert(current.len() == 0);
                assert(current.len() * (quantity + 1) == 0) by (nonlinear_arith)
                    requires
                        current.len() == 0,
                ;
            }
            assert(candidates == candidate_lists(current, reference, quantity as int));
        }
        let ghost averaged = output@;
        let ghost credited = kept@;
        let r: Result<(Points, Points), FrameError> = Ok((Points::of(output), Points::of(kept)));
        proof {
            assert(output_of(r) == averaged);
            assert(snapshot_of(r) == credited);
        }
        r
    }
}

} // verus!
