//! Frames: ordered sequences of points with their deltas and the working
//! copy of the frame they were last matched against.

use vstd::prelude::*;
use crate::color::{Color, PointColor};
use crate::coordinate::{Coordinate, PointCoordinate};
use crate::point::Point;
use crate::tree::PointTree;

verus! {

/// A componentwise difference between two positions or two colours.
#[derive(Clone, Copy, Debug, PartialEq, Eq, Structural)]
pub struct Delta {
    pub x: i64,
    pub y: i64,
    pub z: i64,
}

/// The positions of a sequence of points.
pub open spec fn coords_of(points: Seq<Point>) -> Seq<PointCoordinate> {
    Seq::new(points.len(), |i: int| points[i].point_coord)
}

/// The colours of a sequence of points.
pub open spec fn colors_of(points: Seq<Point>) -> Seq<PointColor> {
    Seq::new(points.len(), |i: int| points[i].point_color)
}

/// Every point sits at the place that its index names.
pub open spec fn indexed(points: Seq<Point>) -> bool {
    forall|i: int| 0 <= i < points.len() ==> (#[trigger] points[i]).index == i
}

/// Every point names a place of a sequence of length `len`.
pub open spec fn indices_within(points: Seq<Point>, len: int) -> bool {
    forall|i: int| 0 <= i < points.len() ==> (#[trigger] points[i]).index < len
}

/// A copy of a sequence of points.
pub fn copy_points(points: &Vec<Point>) -> (copy: Vec<Point>)
    ensures
        copy@ == points@,
{
    let mut copy: Vec<Point> = Vec::new();
    let mut i: usize = 0;
    while i < points.len()
        invariant
            i <= points.len(),
            copy@ == points@.subrange(0, i as int),
        decreases points.len() - i,
    {
        copy.push(points[i]);
        assert(copy@ == points@.subrange(0, i + 1));
        i += 1;
    }
    assert(points@.subrange(0, points@.len() as int) == points@);
    copy
}

/// A copy of a sequence of deltas.
pub fn copy_deltas(deltas: &Vec<Delta>) -> (copy: Vec<Delta>)
    ensures
        copy@ == deltas@,
{
    let mut copy: Vec<Delta> = Vec::new();
    let mut i: usize = 0;
    while i < deltas.len()
        invariant
            i <= deltas.len(),
            copy@ == deltas@.subrange(0, i as int),
        decreases deltas.len() - i,
    {
        copy.push(deltas[i]);
        assert(copy@ == deltas@.subrange(0, i + 1));
        i += 1;
    }
    assert(deltas@.subrange(0, deltas@.len() as int) == deltas@);
    copy
}

/// A frame.
///
/// `data` holds the points. `delta_pos_vector` and `delta_colours` collect
/// the differences that `frame_delta` computes. `reference_frame` is the
/// working copy of the frame that `data` was last matched against; its
/// counters say how often each of its points was used.
#[derive(Clone, Debug)]
pub struct Points {
    pub data: Vec<Point>,
    pub delta_pos_vector: Vec<Delta>,
    pub delta_colours: Vec<Delta>,
    pub reference_frame: Vec<Point>,
}

impl Points {
    /// An empty frame.
    pub fn new() -> (frame: Self)
        ensures
            frame.data@.len() == 0,
            frame.delta_pos_vector@.len() == 0,
            frame.delta_colours@.len() == 0,
            frame.reference_frame@.len() == 0,
    {
        Points {
            data: Vec::new(),
            delta_pos_vector: Vec::new(),
            delta_colours: Vec::new(),
            reference_frame: Vec::new(),
        }
    }

    /// Appends a point to the frame.
    pub fn add(&mut self, elem: Point)
        ensures
            final(self).data@ == old(self).data@.push(elem),
            final(self).delta_pos_vector@ == old(self).delta_pos_vector@,
            final(self).delta_colours@ == old(self).delta_colours@,
            final(self).reference_frame@ == old(self).reference_frame@,
    {
        self.data.push(elem);
    }

    /// The frame that holds the given points and nothing else.
    pub fn of(data: Vec<Point>) -> (frame: Self)
        ensures
            frame.data@ == data@,
            frame.delta_pos_vector@.len() == 0,
            frame.delta_colours@.len() == 0,
            frame.reference_frame@.len() == 0,
    {
        Points {
            data,
            delta_pos_vector: Vec::new(),
            delta_colours: Vec::new(),
            reference_frame: Vec::new(),
        }
    }

    /// The number of points.
    pub fn count(&self) -> (n: usize)
        ensures
            n == self.data@.len(),
    {
        self.data.len()
    }

    /// A copy of the whole frame.
    pub fn duplicate(&self) -> (copy: Points)
        ensures
            copy.data@ == self.data@,
            copy.delta_pos_vector@ == self.delta_pos_vector@,
            copy.delta_colours@ == self.delta_colours@,
            copy.reference_frame@ == self.reference_frame@,
    {
        Points {
            data: copy_points(&self.data),
            delta_pos_vector: copy_deltas(&self.delta_pos_vector),
            delta_colours: copy_deltas(&self.delta_colours),
            reference_frame: copy_points(&self.reference_frame),
        }
    }

    /// Gives every point the index of the place where it sits.
    pub fn reindex(&mut self)
        ensures
            final(self).data@.len() == old(self).data@.len(),
            forall|i: int|
                0 <= i < old(self).data@.len() ==> #[trigger] final(self).data@[i] == (Point {
                    index: i as usize,
                    ..old(self).data@[i]
                }),
            indexed(final(self).data@),
            final(self).delta_pos_vector@ == old(self).delta_pos_vector@,
            final(self).delta_colours@ == old(self).delta_colours@,
            final(self).reference_frame@ == old(self).reference_frame@,
    {
        let mut i: usize = 0;
        while i < self.data.len()
            invariant
                i <= self.data@.len(),
                self.data@.len() == old(self).data@.len(),
                forall|j: int|
                    0 <= j < i ==> #[trigger] self.data@[j] == (Point {
                        index: j as usize,
                        ..old(self).data@[j]
                    }),
                forall|j: int| i <= j < self.data@.len() ==> #[trigger] self.data@[j] == old(self).data@[j],
                self.delta_pos_vector@ == old(self).delta_pos_vector@,
                self.delta_colours@ == old(self).delta_colours@,
                self.reference_frame@ == old(self).reference_frame@,
            decreases self.data.len() - i,
        {
            let mut p: Point = self.data[i];
            p.set_index(i);
            self.data.set(i, p);
            i += 1;
        }
    }

    /// Whether every point sits at the place that its index names.
    pub fn is_indexed(&self) -> (yes: bool)
        ensures
            yes == indexed(self.data@),
    {
        let mut i: usize = 0;
        while i < self.data.len()
            invariant
                i <= self.data@.len(),
                forall|j: int| 0 <= j < i ==> (#[trigger] self.data@[j]).index == j,
            decreases self.data.len() - i,
        {
            if self.data[i].index != i {
                return false;
            }
            i += 1;
        }
        true
    }

    /// Whether every point names a place of a frame of `len` points.
    pub fn has_indices_within(&self, len: usize) -> (yes: bool)
        ensures
            yes == indices_within(self.data@, len as int),
    {
        let mut i: usize = 0;
        while i < self.data.len()
            invariant
                i <= self.data@.len(),
                forall|j: int| 0 <= j < i ==> (#[trigger] self.data@[j]).index < len,
            decreases self.data.len() - i,
        {
            if self.data[i].index >= len {
                return false;
            }
            i += 1;
        }
        true
    }

    /// Hands the points out.
    pub fn get_data(self) -> (data: Vec<Point>)
        ensures
            data@ == self.data@,
    {
        self.data
    }

    /// The colours of the points, in frame order.
    pub fn get_colors(self) -> (colors: Color)
        ensures
            colors.data@ == colors_of(self.data@),
    {
        let (_, colors) = self.get_coords_cols();
        colors
    }

    /// The positions of the points, in frame order.
    pub fn get_coords(self) -> (coords: Coordinate)
        ensures
            coords.data@ == coords_of(self.data@),
    {
        let (coords, _) = self.get_coords_cols();
        coords
    }

    /// The positions and the colours of the points, each in frame order.
    pub fn get_coords_cols(self) -> (split: (Coordinate, Color))
        ensures
            split.0.data@ == coords_of(self.data@),
            split.1.data@ == colors_of(self.data@),
    {
        let mut coords: Vec<PointCoordinate> = Vec::new();
        let mut colors: Vec<PointColor> = Vec::new();
        let mut i: usize = 0;
        while i < self.data.len()
            invariant
                i <= self.data@.len(),
                coords@.len() == i,
                colors@.len() == i,
                forall|j: int| 0 <= j < i ==> #[trigger] coords@[j] == self.data@[j].point_coord,
                forall|j: int| 0 <= j < i ==> #[trigger] colors@[j] == self.data@[j].point_color,
            decreases self.data.len() - i,
        {
            coords.push(self.data[i].point_coord);
            colors.push(self.data[i].point_color);
            i += 1;
        }
        assert(coords@ == coords_of(self.data@));
        assert(colors@ == colors_of(self.data@));
        (Coordinate::new(coords), Color::new(colors))
    }

    /// Builds the spatial index over the points of the frame.
    pub fn to_kdtree(self) -> (tree: PointTree)
        ensures
            tree@ == self.data@,
    {
        PointTree::build(self.get_data())
    }

    /// A copy of the position deltas collected so far.
    pub fn get_delta_pos_vector(&self) -> (deltas: Vec<Delta>)
        ensures
            deltas@ == self.delta_pos_vector@,
    {
        copy_deltas(&self.delta_pos_vector)
    }

    /// A copy of the colour deltas collected so far.
    pub fn get_delta_colours(&self) -> (deltas: Vec<Delta>)
        ensures
            deltas@ == self.delta_colours@,
    {
        copy_deltas(&self.delta_colours)
    }
}

} // verus!
