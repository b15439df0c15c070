//! Differences between an output frame and the reference it was matched
//! against, place by place.

use vstd::prelude::*;
use crate::color::PointColor;
use crate::coordinate::PointCoordinate;
use crate::error::FrameError;
use crate::point::Point;
use crate::points::{Delta, Points};

verus! {

/// What has to be added to the position `from` to arrive at `to`.
pub open spec fn position_delta(to: PointCoordinate, from: PointCoordinate) -> Delta {
    Delta { x: (to.x - from.x) as i64, y: (to.y - from.y) as i64, z: (to.z - from.z) as i64 }
}

/// What has to be added to the colour `from` to arrive at `to`, channel by
/// channel: red in `x`, green in `y`, blue in `z`.
pub open spec fn colour_delta(to: PointColor, from: PointColor) -> Delta {
    Delta {
        x: (to.red - from.red) as i64,
        y: (to.green - from.green) as i64,
        z: (to.blue - from.blue) as i64,
    }
}

/// The position deltas between two frames of equal length, place by
/// place.
pub open spec fn position_deltas(output: Seq<Point>, reference: Seq<Point>) -> Seq<Delta> {
    Seq::new(output.len(), |k: int| position_delta(output[k].point_coord, reference[k].point_coord))
}

/// The colour deltas between two frames of equal length, place by place.
pub open spec fn colour_deltas(output: Seq<Point>, reference: Seq<Point>) -> Seq<Delta> {
    Seq::new(output.len(), |k: int| colour_delta(output[k].point_color, reference[k].point_color))
}

/// A delta added to where it starts from gives where it leads to.
pub proof fn lemma_delta_round_trip(to: Point, from: Point)
    ensures
        from.point_coord.x + position_delta(to.point_coord, from.point_coord).x == to.point_coord.x,
        from.point_coord.y + position_delta(to.point_coord, from.point_coord).y == to.point_coord.y,
        from.point_coord.z + position_delta(to.point_coord, from.point_coord).z == to.point_coord.z,
        from.point_color.red + colour_delta(to.point_color, from.point_color).x == to.point_color.red,
        from.point_color.green + colour_delta(to.point_color, from.point_color).y == to.point_color.green,
        from.point_color.blue + colour_delta(to.point_color, from.point_color).z == to.point_color.blue,
{
}

/// The delta between two positions.
pub fn delta_of_positions(to: &PointCoordinate, from: &PointCoordinate) -> (d: Delta)
    ensures
        d == position_delta(*to, *from),
{
    Delta {
        x: to.x as i64 - from.x as i64,
        y: to.y as i64 - from.y as i64,
        z: to.z as i64 - from.z as i64,
    }
}

/// The delta between two colours.
pub fn delta_of_colours(to: &PointColor, from: &PointColor) -> (d: Delta)
    ensures
        d == colour_delta(*to, *from),
{
    Delta {
        x: to.red as i64 - from.red as i64,
        y: to.green as i64 - from.green as i64,
        z: to.blue as i64 - from.blue as i64,
    }
}

impl Points {
    /// Appends to the deltas of this frame, for every place `k`, the
    /// difference between point `k` of `output` and point `k` of the
    /// reference copy that this frame keeps: first all position deltas,
    /// then all colour deltas, each in frame order.
    ///
    /// The difference is taken against the reference point at the same
    /// place, not against the counterpart that was chosen for the output
    /// point.
    ///
    /// Fails with `LengthMismatch` exactly when `output` and the reference
    /// copy differ in length; this frame is then left as it was.
    pub fn frame_delta(&mut self, output: Points) -> (r: Result<(), FrameError>)
        ensures
            r is Err <==> output.data@.len() != old(self).reference_frame@.len(),
            r is Err ==> r == Err::<(), FrameError>(FrameError::LengthMismatch),
            final(self).data@ == old(self).data@,
            final(self).reference_frame@ == old(self).reference_frame@,
            r is Err ==> final(self).delta_pos_vector@ == old(self).delta_pos_vector@
                && final(self).delta_colours@ == old(self).delta_colours@,
            r is Ok ==> final(self).delta_pos_vector@ == old(self).delta_pos_vector@ + position_deltas(
                output.data@,
                old(self).reference_frame@,
            ),
            r is Ok ==> final(self).delta_colours@ == old(self).delta_colours@ + colour_deltas(
                output.data@,
                old(self).reference_frame@,
            ),
            r is Ok ==> final(self).delta_pos_vector@.len() == old(self).delta_pos_vector@.len()
                + output.data@.len() && final(self).delta_colours@.len() == old(
                self,
            ).delta_colours@.len() + output.data@.len(),
            r is Ok ==> forall|k: int|
                #![trigger output.data@[k]]
                0 <= k < output.data@.len() ==> {
                    let from = old(self).reference_frame@[k].point_coord;
                    let step = final(self).delta_pos_vector@[old(self).delta_pos_vector@.len() + k];
                    &&& from.x + step.x == output.data@[k].point_coord.x
                    &&& from.y + step.y == output.data@[k].point_coord.y
                    &&& from.z + step.z == output.data@[k].point_coord.z
                },
    {
        if output.data.len() != self.reference_frame.len() {
            return Err(FrameError::LengthMismatch);
        }
        let n: usize = output.data.len();
        let ghost reference = self.reference_frame@;
        let ghost positions = self.delta_pos_vector@;
        let ghost colours = self.delta_colours@;
        let mut k: usize = 0;
        while k < n
            invariant
                k <= n,
                n == output.data@.len(),
                n == reference.len(),
                self.data@ == old(self).data@,
                self.reference_frame@ == reference,
                self.delta_colours@ == colours,
                self.delta_pos_vector@ == positions + position_deltas(output.data@, reference).subrange(
                    0,
                    k as int,
                ),
            decreases n - k,
        {
            let d = delta_of_positions(&output.data[k].point_coord, &self.reference_frame[k].point_coord);
            self.delta_pos_vector.push(d);
            assert(self.delta_pos_vector@ == positions + position_deltas(output.data@, reference).subrange(
                0,
                k + 1,
            ));
            k += 1;
        }
        assert(position_deltas(output.data@, reference).subrange(0, n as int) == position_deltas(
            output.data@,
            reference,
        ));
        let mut k: usize = 0;
        while k < n
            invariant
                k <= n,
                n == output.data@.len(),
                n == reference.len(),
                self.data@ == old(self).data@,
                self.reference_frame@ == reference,
                self.delta_pos_vector@ == positions + position_deltas(output.data@, reference),
                self.delta_colours@ == colours + colour_deltas(output.data@, reference).subrange(0, k as int),
            decreases n - k,
        {
            let d = delta_of_colours(&output.data[k].point_color, &self.reference_frame[k].point_color);
            self.delta_colours.push(d);
            assert(self.delta_colours@ == colours + colour_deltas(output.data@, reference).subrange(0, k + 1));
            k += 1;
        }
        assert(colour_deltas(output.data@, reference).subrange(0, n as int) == colour_deltas(
            output.data@,
            reference,
        ));
        Ok(())
    }
}

} // verus!
