//! Choosing points of a frame by their height.

use vstd::prelude::*;
use crate::point::Point;
use crate::points::Points;

verus! {

/// The sum of the heights (the `y` coordinates) of the points.
pub open spec fn height_sum(points: Seq<Point>) -> int
    decreases points.len(),
{
    if points.len() == 0 {
        0
    } else {
        height_sum(points.drop_last()) + points.last().point_coord.y
    }
}

/// The point lies above the mean height of a frame of `count` points whose
/// heights add up to `total`. Stated without division: the height times
/// the count exceeds the total. No point lies above the mean of an empty
/// frame.
pub open spec fn above_mean(p: Point, total: int, count: int) -> bool {
    p.point_coord.y * count > total
}

/// The sum of heights stays within 32 bits for each point.
pub proof fn lemma_height_sum_bound(points: Seq<Point>)
    ensures
        points.len() * (i32::MIN as int) <= height_sum(points) <= points.len() * (i32::MAX as int),
    decreases points.len(),
{
    if points.len() > 0 {
        lemma_height_sum_bound(points.drop_last());
        let n = points.len() as int;
        assert((n - 1) * (i32::MIN as int) + (i32::MIN as int) == n * (i32::MIN as int)) by (nonlinear_arith);
        assert((n - 1) * (i32::MAX as int) + (i32::MAX as int) == n * (i32::MAX as int)) by (nonlinear_arith);
    }
}

impl Points {
    /// The sum of the heights of the points of the frame.
    pub fn height_total(&self) -> (total: i128)
        ensures
            total == height_sum(self.data@),
    {
        let mut total: i128 = 0;
        let mut i: usize = 0;
        while i < self.data.len()
            invariant
                i <= self.data@.len(),
                total == height_sum(self.data@.subrange(0, i as int)),
            decreases self.data.len() - i,
        {
            proof {
                let upto = self.data@.subrange(0, i + 1);
                assert(upto.drop_last() == self.data@.subrange(0, i as int));
                lemma_height_sum_bound(self.data@.subrange(0, i as int));
                assert(i * (i32::MIN as int) >= usize::MAX * (i32::MIN as int)) by (nonlinear_arith)
                    requires
                        0 <= i <= usize::MAX,
                ;
                assert(i * (i32::MAX as int) <= usize::MAX * (i32::MAX as int)) by (nonlinear_arith)
                    requires
                        0 <= i <= usize::MAX,
                ;
            }
            total = total + self.data[i].point_coord.y as i128;
            i += 1;
        }
        assert(self.data@.subrange(0, self.data@.len() as int) == self.data@);
        total
    }
}

impl Point {
    /// Whether this point lies above the mean height of a frame of `count`
    /// points whose heights add up to `total`.
    pub fn is_above_mean(&self, total: i128, count: usize) -> (yes: bool)
        ensures
            yes == above_mean(*self, total as int, count as int),
    {
        let y: i128 = self.point_coord.y as i128;
        let n: i128 = count as i128;
        assert(-0x8000_0000 * 0x1_0000_0000_0000_0000 <= y * n <= 0x8000_0000 * 0x1_0000_0000_0000_0000)
            by (nonlinear_arith)
            requires
                -0x8000_0000 <= y <= 0x8000_0000,
                0 <= n <= 0x1_0000_0000_0000_0000,
        ;
        y * n > total
    }
}

} // verus!
