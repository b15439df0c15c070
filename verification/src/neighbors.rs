//! Neighbourhoods: for each point of a cloud, the other points within a
//! given distance.

use vstd::prelude::*;
use crate::numeric::square;

verus! {

/// A point with position and colour, the colour with an alpha channel.
#[derive(Clone, Copy, Debug, PartialEq, Eq, Structural)]
pub struct PointXyzRgba {
    pub x: i32,
    pub y: i32,
    pub z: i32,
    pub r: u8,
    pub g: u8,
    pub b: u8,
    pub a: u8,
}

/// A cloud of points, with the number of its points that count.
pub struct PointCloud<T> {
    pub number_of_points: usize,
    pub points: Vec<T>,
}

/// Squared Euclidean distance between two points.
pub open spec fn gap2(p: PointXyzRgba, q: PointXyzRgba) -> int {
    square(p.x - q.x) + square(p.y - q.y) + square(p.z - q.z)
}

/// Point `j` is another point than point `i` and no further from it than
/// `radius`.
pub open spec fn is_neighbor(points: Seq<PointXyzRgba>, i: int, j: int, radius: int) -> bool {
    i != j && gap2(points[i], points[j]) <= radius * radius
}

/// The neighbours of point `i` among the first `upto` points, in ascending
/// order.
pub open spec fn neighbors_upto(points: Seq<PointXyzRgba>, i: int, radius: int, upto: int) -> Seq<usize>
    decreases upto,
{
    if upto <= 0 {
        Seq::empty()
    } else if is_neighbor(points, i, upto - 1, radius) {
        neighbors_upto(points, i, radius, upto - 1).push((upto - 1) as usize)
    } else {
        neighbors_upto(points, i, radius, upto - 1)
    }
}

/// The square of a difference of two grid values.
fn square_of(a: i32, b: i32) -> (s: u128)
    ensures
        s == square(a - b),
        s <= 0x1_0000_0000_0000_0000,
{
    let d: i64 = a as i64 - b as i64;
    let m: u128 = if d >= 0 {
        d as u128
    } else {
        (-d) as u128
    };
    assert(m * m == d * d && m * m <= 0x1_0000_0000_0000_0000) by (nonlinear_arith)
        requires
            m == d || m == -d,
            0 <= m <= 0x1_0000_0000,
    ;
    m * m
}

/// Squared Euclidean distance between two points.
pub fn squared_distance(p: &PointXyzRgba, q: &PointXyzRgba) -> (d: u128)
    ensures
        d == gap2(*p, *q),
{
    let sx: u128 = square_of(p.x, q.x);
    let sy: u128 = square_of(p.y, q.y);
    let sz: u128 = square_of(p.z, q.z);
    sx + sy + sz
}

/// For each of the points that count, the places of the other such points
/// within `radius` of it, in ascending order.
pub fn select_neighboring_points(pc: &PointCloud<PointXyzRgba>, radius: u32) -> (neighbors: Vec<Vec<usize>>)
    requires
        pc.number_of_points <= pc.points@.len(),
    ensures
        neighbors@.len() == pc.number_of_points,
        forall|i: int|
            0 <= i < pc.number_of_points ==> (#[trigger] neighbors@[i])@ == neighbors_upto(
                pc.points@,
                i,
                radius as int,
                pc.number_of_points as int,
            ),
{
    let n: usize = pc.number_of_points;
    let reach: u128 = radius as u128;
    assert(reach * reach <= 0xffff_ffff * 0xffff_ffff) by (nonlinear_arith)
        requires
            0 <= reach <= 0xffff_ffff,
    ;
    let reach2: u128 = reach * reach;
    let mut neighbors: Vec<Vec<usize>> = Vec::new();
    let mut i: usize = 0;
    while i < n
        invariant
            i <= n,
            n == pc.number_of_points,
            n <= pc.points@.len(),
            reach2 == radius * radius,
            neighbors@.len() == i,
            forall|k: int|
                0 <= k < i ==> (#[trigger] neighbors@[k])@ == neighbors_upto(pc.points@, k, radius as int, n as int),
        decreases n - i,
    {
        let mut point_neighbors: Vec<usize> = Vec::new();
        let mut j: usize = 0;
        while j < n
            invariant
                j <= n,
                i < n,
                n <= pc.points@.len(),
                reach2 == radius * radius,
                point_neighbors@ == neighbors_upto(pc.points@, i as int, radius as int, j as int),
            decreases n - j,
        {
            if i != j {
                let dist2: u128 = squared_distance(&pc.points[i], &pc.points[j]);
                if dist2 <= reach2 {
                    point_neighbors.push(j);
                }
            }
            j += 1;
        }
        neighbors.push(point_neighbors);
        i += 1;
    }
    neighbors
}

} // verus!
