//! A single coloured point with its bookkeeping.

use vstd::prelude::*;
use vstd::string::*;
use crate::error::FrameError;
use crate::color::PointColor;
use crate::coordinate::{lemma_gap2_bound, PointCoordinate};
use crate::numeric::{floor_root, lemma_floor_root_below};

verus! {

/// A usage counter after one more use. It stays at its ceiling once there.
pub open spec fn bump(mapping: u16) -> u16 {
    if mapping < u16::MAX {
        (mapping + 1) as u16
    } else {
        mapping
    }
}

/// The weights of the three terms of the matching cost.
#[derive(Clone, Copy, Debug, PartialEq, Eq, Structural)]
pub struct Penalties {
    /// Weight of the distance in space.
    pub coord: u32,
    /// Weight of the distance in colour.
    pub color: u32,
    /// Weight of the number of earlier uses.
    pub mapped: u32,
}

/// The value of one attribute of a point, as a loader hands it over.
#[derive(Clone, Copy, Debug, PartialEq, Eq, Structural)]
pub enum Property {
    /// A coordinate on the grid.
    Coordinate(i32),
    /// The value of a colour channel.
    Channel(u8),
    /// A value of any other kind.
    Other,
}

/// The point with one attribute set, or nothing if the point has no
/// attribute of that name that takes a value of that kind.
pub open spec fn with_property(p: Point, key: Seq<char>, property: Property) -> Option<Point> {
    match property {
        Property::Coordinate(v) => if key == "x"@ {
            Some(Point { point_coord: PointCoordinate { x: v, ..p.point_coord }, ..p })
        } else if key == "y"@ {
            Some(Point { point_coord: PointCoordinate { y: v, ..p.point_coord }, ..p })
        } else if key == "z"@ {
            Some(Point { point_coord: PointCoordinate { z: v, ..p.point_coord }, ..p })
        } else {
            None
        },
        Property::Channel(v) => if key == "red"@ {
            Some(Point { point_color: PointColor { red: v, ..p.point_color }, ..p })
        } else if key == "green"@ {
            Some(Point { point_color: PointColor { green: v, ..p.point_color }, ..p })
        } else if key == "blue"@ {
            Some(Point { point_color: PointColor { blue: v, ..p.point_color }, ..p })
        } else {
            None
        },
        Property::Other => None,
    }
}

/// Whether the key is the given name.
fn is_key(key: &String, name: &str) -> (yes: bool)
    ensures
        yes == (key@ == name@),
{
    let wanted = String::from_str(name);
    *key == wanted
}

/// A point of a frame: where it is, what colour it has, how often it has been
/// used as a counterpart, and its place in the frame it belongs to.
#[derive(Clone, Copy, Debug)]
pub struct Point {
    pub point_coord: PointCoordinate,
    pub point_color: PointColor,
    pub mapping: u16,
    pub index: usize,
}

impl Point {
    /// The point that averages `self` with `other`: midpoint and blended
    /// colour, a fresh counter, and the place of `self`.
    pub open spec fn averaged(self, other: Point) -> Point {
        Point {
            point_coord: self.point_coord.midpoint(other.point_coord),
            point_color: self.point_color.blend(other.point_color),
            mapping: 0,
            index: self.index,
        }
    }

    /// The same point, used once more.
    pub open spec fn credited(self) -> Point {
        Point { mapping: bump(self.mapping), ..self }
    }

    /// Distance in space to `other`, in whole grid steps.
    pub open spec fn coord_delta(self, other: Point) -> int {
        floor_root(self.point_coord.gap2(other.point_coord))
    }

    /// Distance in colour to `other`, in whole channel steps.
    pub open spec fn color_delta(self, other: Point) -> int {
        floor_root(self.point_color.gap2(other.point_color))
    }

    /// The cost of matching `self` with `other` when `other` has been used
    /// `mapping` times: each distance and the use count, weighted and summed.
    pub open spec fn difference(self, other: Point, weights: Penalties, mapping: u16) -> int {
        self.coord_delta(other) * weights.coord + self.color_delta(other) * weights.color
            + mapping * weights.mapped
    }

    pub fn new(point_coord: PointCoordinate, point_color: PointColor, mapping: u16, index: usize) -> (p: Self)
        ensures
            p == (Point { point_coord, point_color, mapping, index }),
    {
        Point { point_coord, point_color, mapping, index }
    }

    /// A black point at the origin, unused, at place 0.
    pub fn new_default() -> (p: Self)
        ensures
            p == (Point {
                point_coord: PointCoordinate { x: 0, y: 0, z: 0 },
                point_color: PointColor { red: 0, green: 0, blue: 0 },
                mapping: 0,
                index: 0,
            }),
    {
        Point {
            point_coord: PointCoordinate::new_default(),
            point_color: PointColor::new_default(),
            mapping: 0,
            index: 0,
        }
    }

    pub fn get_coord(&self) -> (c: &PointCoordinate)
        ensures
            *c == self.point_coord,
    {
        &self.point_coord
    }

    pub fn get_color(&self) -> (c: &PointColor)
        ensures
            *c == self.point_color,
    {
        &self.point_color
    }

    pub fn get_mapping(&self) -> (m: u16)
        ensures
            m == self.mapping,
    {
        self.mapping
    }

    pub fn set_index(&mut self, idx: usize)
        ensures
            *final(self) == (Point { index: idx, ..*old(self) }),
    {
        self.index = idx;
    }

    pub fn get_index(&mut self) -> (idx: usize)
        ensures
            idx == old(self).index,
            *final(self) == *old(self),
    {
        self.index
    }

    /// Reads one axis of the position: 0 is `x`, 1 is `y`, 2 is `z`. There
    /// is no other axis: to ask for one is `OutOfRangeAxis`, a mistake of
    /// the caller that this function does not take.
    pub fn at(&self, k: usize) -> (v: Result<i32, FrameError>)
        requires
            k < 3,
        ensures
            v == Ok::<i32, FrameError>(self.point_coord.axis(k as int) as i32),
    {
        Ok(self.point_coord.at(k))
    }

    /// Whether a point has an attribute of the name `key` that takes the
    /// value handed over: the axes `x`, `y` and `z` take a coordinate, the
    /// channels `red`, `green` and `blue` take a channel value.
    pub fn takes_property(key: &String, property: Property) -> (yes: bool)
        ensures
            forall|p: Point| yes == (#[trigger] with_property(p, key@, property) is Some),
    {
        match property {
            Property::Coordinate(_) => is_key(key, "x") || is_key(key, "y") || is_key(key, "z"),
            Property::Channel(_) => is_key(key, "red") || is_key(key, "green") || is_key(key, "blue"),
            Property::Other => false,
        }
    }

    /// Sets the attribute that `key` names to the value handed over, and
    /// nothing else. The point must have an attribute of that name that
    /// takes a value of that kind, which `takes_property` tells: anything
    /// else is `UnexpectedAttribute`, and halts whoever loads the point.
    pub fn set_property(&mut self, key: String, property: Property) -> (r: Result<(), FrameError>)
        requires
            with_property(*old(self), key@, property) is Some,
        ensures
            r is Ok,
            *final(self) == with_property(*old(self), key@, property)->0,
    {
        match property {
            Property::Coordinate(v) => {
                if is_key(&key, "x") {
                    self.point_coord.x = v;
                } else if is_key(&key, "y") {
                    self.point_coord.y = v;
                } else {
                    self.point_coord.z = v;
                }
            },
            Property::Channel(v) => {
                if is_key(&key, "red") {
                    self.point_color.red = v;
                } else if is_key(&key, "green") {
                    self.point_color.green = v;
                } else {
                    self.point_color.blue = v;
                }
            },
            Property::Other => {},
        }
        Ok(())
    }

    /// Averages this point with its counterpart.
    pub fn get_average(&self, another_point: &Point) -> (p: Point)
        ensures
            p == self.averaged(*another_point),
    {
        Point::new(
            self.point_coord.get_average(another_point.get_coord()),
            self.point_color.get_average(another_point.get_color()),
            0,
            self.index,
        )
    }

    /// Distance in space to another point, in whole grid steps.
    pub fn get_coord_delta(&self, another_point: &Point) -> (d: u64)
        ensures
            d == self.coord_delta(*another_point),
            d <= 0x2_0000_0000,
    {
        self.point_coord.get_coord_delta(another_point.get_coord())
    }

    /// Distance in colour to another point, in whole channel steps.
    pub fn get_color_delta(&self, another_point: &Point) -> (d: u64)
        ensures
            d == self.color_delta(*another_point),
            d <= 441,
    {
        self.point_color.get_color_delta(another_point.get_color())
    }

    /// The cost of matching this point with `another_point`, which has been
    /// used `another_point_mapping` times so far.
    pub fn get_difference(
        &self,
        another_point: &Point,
        penalize_coor: u32,
        penalize_col: u32,
        another_point_mapping: u16,
        penalize_mapped: u32,
    ) -> (cost: u128)
        ensures
            cost == self.difference(
                *another_point,
                Penalties { coord: penalize_coor, color: penalize_col, mapped: penalize_mapped },
                another_point_mapping,
            ),
            cost < u128::MAX,
    {
        let dc: u128 = self.get_coord_delta(another_point) as u128;
        let dk: u128 = self.get_color_delta(another_point) as u128;
        let wc: u128 = penalize_coor as u128;
        let wk: u128 = penalize_col as u128;
        let wm: u128 = penalize_mapped as u128;
        let m: u128 = another_point_mapping as u128;
        assert(dc * wc <= 0x2_0000_0000 * 0xffff_ffff) by (nonlinear_arith)
            requires
                0 <= dc <= 0x2_0000_0000,
                0 <= wc <= 0xffff_ffff,
        ;
        assert(dk * wk <= 441 * 0xffff_ffff) by (nonlinear_arith)
            requires
                0 <= dk <= 441,
                0 <= wk <= 0xffff_ffff,
        ;
        assert(m * wm <= 0xffff * 0xffff_ffff) by (nonlinear_arith)
            requires
                0 <= m <= 0xffff,
                0 <= wm <= 0xffff_ffff,
        ;
        dc * wc + dk * wk + m * wm
    }
}

/// Twice an averaged point falls short of the sum of the pair by at most
/// one step on each axis and in each channel, and never exceeds it.
pub proof fn lemma_average_midpoint(p: Point, c: Point)
    ensures
        0 <= p.point_coord.x + c.point_coord.x - 2 * p.averaged(c).point_coord.x <= 1,
        0 <= p.point_coord.y + c.point_coord.y - 2 * p.averaged(c).point_coord.y <= 1,
        0 <= p.point_coord.z + c.point_coord.z - 2 * p.averaged(c).point_coord.z <= 1,
        0 <= p.point_color.red + c.point_color.red - 2 * p.averaged(c).point_color.red <= 1,
        0 <= p.point_color.green + c.point_color.green - 2 * p.averaged(c).point_color.green <= 1,
        0 <= p.point_color.blue + c.point_color.blue - 2 * p.averaged(c).point_color.blue <= 1,
        p.averaged(c).index == p.index,
        p.averaged(c).mapping == 0,
{
}

/// A matching cost is a natural number that fits in 128 bits with room to
/// spare.
pub proof fn lemma_difference_bound(p: Point, c: Point, weights: Penalties, mapping: u16)
    ensures
        0 <= p.difference(c, weights, mapping) < u128::MAX,
{
    lemma_gap2_bound(p.point_coord, c.point_coord);
    lemma_floor_root_below(p.point_coord.gap2(c.point_coord), 0x4_0000_0000);
    let dc = p.coord_delta(c);
    let dk = p.color_delta(c);
    assert(0 <= p.point_color.gap2(c.point_color) < 442 * 442) by {
        let r = p.point_color.red - c.point_color.red;
        let g = p.point_color.green - c.point_color.green;
        let b = p.point_color.blue - c.point_color.blue;
        assert(0 <= r * r <= 65025) by (nonlinear_arith)
            requires
                -255 <= r <= 255,
        ;
        assert(0 <= g * g <= 65025) by (nonlinear_arith)
            requires
                -255 <= g <= 255,
        ;
        assert(0 <= b * b <= 65025) by (nonlinear_arith)
            requires
                -255 <= b <= 255,
        ;
    }
    lemma_floor_root_below(p.point_color.gap2(c.point_color), 442);
    let wc = weights.coord as int;
    let wk = weights.color as int;
    let wm = weights.mapped as int;
    let m = mapping as int;
    assert(0 <= dc * wc <= 0x4_0000_0000 * 0xffff_ffff) by (nonlinear_arith)
        requires
            0 <= dc <= 0x4_0000_0000,
            0 <= wc <= 0xffff_ffff,
    ;
    assert(0 <= dk * wk <= 442 * 0xffff_ffff) by (nonlinear_arith)
        requires
            0 <= dk <= 442,
            0 <= wk <= 0xffff_ffff,
    ;
    assert(0 <= m * wm <= 0xffff * 0xffff_ffff) by (nonlinear_arith)
        requires
            0 <= m <= 0xffff,
            0 <= wm <= 0xffff_ffff,
    ;
}

} // verus!
