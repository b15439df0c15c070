//! Equality and ordering of points.

use vstd::prelude::*;
use std::cmp::Ordering;
use crate::point::Point;

verus! {

impl PartialEq for Point {
    /// Two points are equal when they share position and colour; the counter
    /// and the place in the frame are bookkeeping and do not count.
    fn eq(&self, other: &Self) -> (r: bool) {
        self.point_coord == other.point_coord && self.point_color == other.point_color
    }
}

impl vstd::std_specs::cmp::PartialEqSpecImpl for Point {
    open spec fn obeys_eq_spec() -> bool {
        true
    }

    open spec fn eq_spec(&self, other: &Self) -> bool {
        self.point_coord == other.point_coord && self.point_color == other.point_color
    }
}

/// How `a` stands to `b` by distance from the origin.
pub open spec fn origin_order(a: Point, b: Point) -> Ordering {
    if a.point_coord.norm2() < b.point_coord.norm2() {
        Ordering::Less
    } else if a.point_coord.norm2() > b.point_coord.norm2() {
        Ordering::Greater
    } else {
        Ordering::Equal
    }
}

impl Point {
    /// Orders two points by their Euclidean distance from the origin. Points
    /// equally far away compare as equal, whatever their direction.
    pub fn partial_cmp(&self, other: &Point) -> (r: Option<Ordering>)
        ensures
            r == Some(origin_order(*self, *other)),
    {
        let a: u128 = self.point_coord.squared_norm();
        let b: u128 = other.point_coord.squared_norm();
        if a < b {
            Some(Ordering::Less)
        } else if a > b {
            Some(Ordering::Greater)
        } else {
            Some(Ordering::Equal)
        }
    }
}

} // verus!
