//! Temporal interpolation of coloured point clouds.
//!
//! A frame is an ordered sequence of points. Each point of the current
//! frame is matched with a counterpart in an earlier frame, the reference,
//! and averaged with it, while a counter on each reference point records
//! how often that point was used. Afterwards the differences between the
//! averaged frame and the reference can be taken, and the reference points
//! that nothing used can be marked.
//!
//! Positions live on an integer grid: a coordinate is a signed 32-bit
//! number of grid steps, and whoever loads a frame chooses how long a step
//! is. Means round down, distances are whole numbers of steps, and the
//! weights of the matching cost are whole numbers. A use counter that has
//! reached its ceiling stays there.

pub mod color;
pub mod coordinate;
pub mod delta;
pub mod error;
pub mod filter;
pub mod marker;
pub mod matching;
pub mod neighbors;
pub mod numeric;
pub mod order;
pub mod point;
pub mod points;
pub mod ranking;
pub mod recovery;
pub mod report;
pub mod tree;
