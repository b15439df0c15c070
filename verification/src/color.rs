//! Eight-bit RGB colours.

use vstd::prelude::*;
use crate::numeric::{floor_root, int_sqrt, square};

verus! {

/// Mean of two channel values, rounded down.
pub fn mean_channel(a: u8, b: u8) -> (m: u8)
    ensures
        m == (a + b) / 2,
{
    let s: u16 = a as u16 + b as u16;
    (s / 2) as u8
}

/// An RGB colour with eight bits per channel.
#[derive(Clone, Copy, Debug, PartialEq, Eq, Structural)]
pub struct PointColor {
    pub red: u8,
    pub green: u8,
    pub blue: u8,
}

impl PointColor {
    /// Squared Euclidean distance between two colours.
    pub open spec fn gap2(self, other: PointColor) -> int {
        square(self.red - other.red) + square(self.green - other.green) + square(
            self.blue - other.blue,
        )
    }

    /// The channelwise mean of two colours, each channel rounded down.
    pub open spec fn blend(self, other: PointColor) -> PointColor {
        PointColor {
            red: ((self.red + other.red) / 2) as u8,
            green: ((self.green + other.green) / 2) as u8,
            blue: ((self.blue + other.blue) / 2) as u8,
        }
    }

    /// Pure green, the colour given to reference points that nothing used.
    pub open spec fn unused_mark() -> PointColor {
        PointColor { red: 0, green: 255, blue: 0 }
    }

    pub fn new(red: u8, green: u8, blue: u8) -> (c: Self)
        ensures
            c == (PointColor { red, green, blue }),
    {
        PointColor { red, green, blue }
    }

    /// Black.
    pub fn new_default() -> (c: Self)
        ensures
            c == (PointColor { red: 0, green: 0, blue: 0 }),
    {
        PointColor { red: 0, green: 0, blue: 0 }
    }

    /// Channelwise mean of two colours.
    pub fn get_average(&self, other: &PointColor) -> (c: PointColor)
        ensures
            c == self.blend(*other),
            c.red == (self.red + other.red) / 2,
            c.green == (self.green + other.green) / 2,
            c.blue == (self.blue + other.blue) / 2,
    {
        PointColor {
            red: mean_channel(self.red, other.red),
            green: mean_channel(self.green, other.green),
            blue: mean_channel(self.blue, other.blue),
        }
    }

    /// Squared Euclidean distance to another colour.
    pub fn squared_distance(&self, other: &PointColor) -> (d: u32)
        ensures
            d == self.gap2(*other),
            d <= 195075,
    {
        let r: u32 = channel_gap2(self.red, other.red);
        let g: u32 = channel_gap2(self.green, other.green);
        let b: u32 = channel_gap2(self.blue, other.blue);
        r + g + b
    }

    /// Euclidean distance to another colour, rounded down.
    pub fn get_color_delta(&self, other: &PointColor) -> (d: u64)
        ensures
            d == floor_root(self.gap2(*other)),
            d <= 441,
    {
        let g: u32 = self.squared_distance(other);
        let d: u64 = int_sqrt(g as u128);
        proof {
            if d > 441 {
                crate::numeric::lemma_square_monotone(442, d as int);
            }
        }
        d
    }
}

/// The square of the difference of two channel values.
fn channel_gap2(a: u8, b: u8) -> (s: u32)
    ensures
        s == square(a - b),
        s <= 65025,
{
    let d: u32 = if a >= b {
        (a - b) as u32
    } else {
        (b - a) as u32
    };
    assert(d * d == (a - b) * (a - b) && d * d <= 65025) by (nonlinear_arith)
        requires
            d == a - b || d == b - a,
            0 <= d <= 255,
    ;
    d * d
}

/// The colours of a frame, in frame order.
pub struct Color {
    pub data: Vec<PointColor>,
}

impl Color {
    pub fn new(data: Vec<PointColor>) -> (c: Self)
        ensures
            c.data@ == data@,
    {
        Color { data }
    }

    /// Hands the colours out.
    pub fn get_point_col_vec(self) -> (data: Vec<PointColor>)
        ensures
            data@ == self.data@,
    {
        self.data
    }
}

} // verus!
