//! Marking the reference points that nothing used, and counting the rest.

use vstd::prelude::*;
use crate::color::PointColor;
use crate::point::Point;
use crate::points::Points;
use crate::report::{coverage_report, report_text};

verus! {

/// The point as the marker leaves it: pure green if it was never used,
/// untouched otherwise.
pub open spec fn marked(p: Point) -> Point {
    if p.mapping == 0 {
        Point { point_color: PointColor::unused_mark(), ..p }
    } else {
        p
    }
}

/// The frame as the marker leaves it.
pub open spec fn marked_all(frame: Seq<Point>) -> Seq<Point> {
    Seq::new(frame.len(), |i: int| marked(frame[i]))
}

/// The number of points that were used at least once.
pub open spec fn mapped_count(frame: Seq<Point>) -> nat
    decreases frame.len(),
{
    if frame.len() == 0 {
        0
    } else {
        mapped_count(frame.drop_last()) + if frame.last().mapping == 0 {
            0nat
        } else {
            1nat
        }
    }
}

/// Marking a frame that is already marked changes nothing, and marking
/// does not change how many points count as used: a second run of the
/// marker leaves the colours of the first and gives the same report.
pub proof fn lemma_marker_idempotent(frame: Seq<Point>)
    ensures
        marked_all(marked_all(frame)) == marked_all(frame),
        mapped_count(marked_all(frame)) == mapped_count(frame),
        report_text(mapped_count(marked_all(frame)), marked_all(frame).len()) == report_text(
            mapped_count(frame),
            frame.len(),
        ),
    decreases frame.len(),
{
    assert(marked_all(marked_all(frame)) =~= marked_all(frame));
    if frame.len() > 0 {
        lemma_marker_idempotent(frame.drop_last());
        assert(marked_all(frame).drop_last() =~= marked_all(frame.drop_last()));
    }
}

impl Points {
    /// The number of points of the reference copy that were used at least
    /// once.
    pub fn mapped_points(&self) -> (n: usize)
        ensures
            n == mapped_count(self.reference_frame@),
    {
        let mut n: usize = 0;
        let mut i: usize = 0;
        while i < self.reference_frame.len()
            invariant
                i <= self.reference_frame@.len(),
                n == mapped_count(self.reference_frame@.subrange(0, i as int)),
                n <= i,
            decreases self.reference_frame.len() - i,
        {
            assert(self.reference_frame@.subrange(0, i + 1).drop_last() == self.reference_frame@.subrange(
                0,
                i as int,
            ));
            if self.reference_frame[i].mapping != 0 {
                n += 1;
            }
            i += 1;
        }
        assert(self.reference_frame@.subrange(0, self.reference_frame@.len() as int) == self.reference_frame@);
        n
    }

    /// Colours every unused point of the reference copy pure green and
    /// reports how many of its points were used.
    ///
    /// Only the colours of unused points of the reference copy change. The
    /// report reads `mapped points: M; total points: T`.
    pub fn mark_mapped_points(&mut self) -> (report: String)
        ensures
            final(self).reference_frame@ == marked_all(old(self).reference_frame@),
            final(self).same_but_reference(old(self)),
            report@ == report_text(
                mapped_count(old(self).reference_frame@),
                old(self).reference_frame@.len(),
            ),
    {
        let mapped_points = self.mapped_points();
        let mut i: usize = 0;
        while i < self.reference_frame.len()
            invariant
                i <= self.reference_frame@.len(),
                self.reference_frame@.len() == old(self).reference_frame@.len(),
                forall|j: int| 0 <= j < i ==> #[trigger] self.reference_frame@[j] == marked(old(self).reference_frame@[j]),
                forall|j: int|
                    i <= j < self.reference_frame@.len() ==> #[trigger] self.reference_frame@[j] == old(
                        self,
                    ).reference_frame@[j],
                self.same_but_reference(old(self)),
            decreases self.reference_frame.len() - i,
        {
            let mut point: Point = self.reference_frame[i];
            if point.mapping == 0 {
                point.point_color = PointColor::new(0, 255, 0);
                self.reference_frame.set(i, point);
            }
            i += 1;
        }
        assert(self.reference_frame@ == marked_all(old(self).reference_frame@));
        coverage_report(mapped_points, self.reference_frame.len())
    }
}

} // verus!
