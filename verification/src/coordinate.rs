//! Positions on the integer grid.

use vstd::prelude::*;
use crate::numeric::{floor_root, int_sqrt, square};

verus! {

/// The mean of two integers, rounded towards negative infinity.
pub open spec fn mean_floor(a: int, b: int) -> int {
    (a + b) / 2
}

/// Mean of two grid values, rounded towards negative infinity.
pub fn mean_axis(a: i32, b: i32) -> (m: i32)
    ensures
        m == mean_floor(a as int, b as int),
{
    let s: i64 = a as i64 + b as i64;
    if s >= 0 {
        (s / 2) as i32
    } else {
        let t: i64 = (1 - s) / 2;
        (-t) as i32
    }
}

/// A position in space: three signed grid coordinates.
#[derive(Clone, Copy, Debug, PartialEq, Eq, Structural)]
pub struct PointCoordinate {
    pub x: i32,
    pub y: i32,
    pub z: i32,
}

impl PointCoordinate {
    /// The coordinate along axis `k`, for `k` below 3.
    pub open spec fn axis(self, k: int) -> int {
        if k == 0 {
            self.x as int
        } else if k == 1 {
            self.y as int
        } else {
            self.z as int
        }
    }

    /// Squared Euclidean distance between two positions.
    pub open spec fn gap2(self, other: PointCoordinate) -> int {
        square(self.x - other.x) + square(self.y - other.y) + square(self.z - other.z)
    }

    /// Squared Euclidean distance from the origin.
    pub open spec fn norm2(self) -> int {
        square(self.x as int) + square(self.y as int) + square(self.z as int)
    }

    /// The midpoint of two positions, each axis rounded down.
    pub open spec fn midpoint(self, other: PointCoordinate) -> PointCoordinate {
        PointCoordinate {
            x: mean_floor(self.x as int, other.x as int) as i32,
            y: mean_floor(self.y as int, other.y as int) as i32,
            z: mean_floor(self.z as int, other.z as int) as i32,
        }
    }

    pub fn new(x: i32, y: i32, z: i32) -> (c: Self)
        ensures
            c == (PointCoordinate { x, y, z }),
    {
        PointCoordinate { x, y, z }
    }

    /// The origin.
    pub fn new_default() -> (c: Self)
        ensures
            c == (PointCoordinate { x: 0, y: 0, z: 0 }),
    {
        PointCoordinate { x: 0, y: 0, z: 0 }
    }

    /// Reads one axis: 0 is `x`, 1 is `y`, 2 is `z`.
    pub fn at(&self, k: usize) -> (v: i32)
        requires
            k < 3,
        ensures
            v == self.axis(k as int),
    {
        if k == 0 {
            self.x
        } else if k == 1 {
            self.y
        } else {
            self.z
        }
    }

    /// Componentwise mean of two positions.
    pub fn get_average(&self, other: &PointCoordinate) -> (c: PointCoordinate)
        ensures
            c == self.midpoint(*other),
            c.x == mean_floor(self.x as int, other.x as int),
            c.y == mean_floor(self.y as int, other.y as int),
            c.z == mean_floor(self.z as int, other.z as int),
    {
        PointCoordinate {
            x: mean_axis(self.x, other.x),
            y: mean_axis(self.y, other.y),
            z: mean_axis(self.z, other.z),
        }
    }

    /// Squared Euclidean distance to another position.
    pub fn squared_distance(&self, other: &PointCoordinate) -> (d: u128)
        ensures
            d == self.gap2(*other),
    {
        let dx: i64 = self.x as i64 - other.x as i64;
        let dy: i64 = self.y as i64 - other.y as i64;
        let dz: i64 = self.z as i64 - other.z as i64;
        let sx: u128 = square_of(dx);
        let sy: u128 = square_of(dy);
        let sz: u128 = square_of(dz);
        sx + sy + sz
    }

    /// Squared Euclidean distance from the origin.
    pub fn squared_norm(&self) -> (d: u128)
        ensures
            d == self.norm2(),
    {
        let sx: u128 = square_of(self.x as i64);
        let sy: u128 = square_of(self.y as i64);
        let sz: u128 = square_of(self.z as i64);
        sx + sy + sz
    }

    /// Euclidean distance to another position, rounded down to a whole
    /// number of grid steps.
    pub fn get_coord_delta(&self, other: &PointCoordinate) -> (d: u64)
        ensures
            d == floor_root(self.gap2(*other)),
            d <= 0x2_0000_0000,
    {
        let g: u128 = self.squared_distance(other);
        let d: u64 = int_sqrt(g);
        proof {
            lemma_gap2_bound(*self, *other);
            if d > 0x2_0000_0000 {
                crate::numeric::lemma_square_monotone(0x2_0000_0001, d as int);
            }
        }
        d
    }
}

/// The square of a difference of two grid values.
fn square_of(d: i64) -> (s: u128)
    requires
        -0x1_0000_0000 <= d <= 0x1_0000_0000,
    ensures
        s == square(d as int),
        s <= 0x1_0000_0000_0000_0000,
{
    let a: u128 = if d >= 0 {
        d as u128
    } else {
        (-d) as u128
    };
    assert(a * a == d * d && a * a <= 0x1_0000_0000_0000_0000) by (nonlinear_arith)
        requires
            a == d || a == -d,
            0 <= a <= 0x1_0000_0000,
    ;
    a * a
}

/// Squared distances between grid positions stay below 2^66.
pub proof fn lemma_gap2_bound(a: PointCoordinate, b: PointCoordinate)
    ensures
        0 <= a.gap2(b) <= 3 * 0x1_0000_0000_0000_0000,
{
    lemma_square_bound(a.x - b.x);
    lemma_square_bound(a.y - b.y);
    lemma_square_bound(a.z - b.z);
}

proof fn lemma_square_bound(d: int)
    requires
        -0x1_0000_0000 <= d <= 0x1_0000_0000,
    ensures
        0 <= square(d) <= 0x1_0000_0000_0000_0000,
{
    assert(0 <= d * d <= 0x1_0000_0000_0000_0000) by (nonlinear_arith)
        requires
            -0x1_0000_0000 <= d <= 0x1_0000_0000,
    ;
}

/// The positions of a frame, in frame order.
pub struct Coordinate {
    pub data: Vec<PointCoordinate>,
}

impl Coordinate {
    pub fn new(data: Vec<PointCoordinate>) -> (c: Self)
        ensures
            c.data@ == data@,
    {
        Coordinate { data }
    }

    /// Hands the positions out.
    pub fn get_point_coor_vec(self) -> (data: Vec<PointCoordinate>)
        ensures
            data@ == self.data@,
    {
        self.data
    }
}

} // verus!
