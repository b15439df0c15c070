//! The ways in which an operation on frames can fail.

use vstd::prelude::*;

verus! {

/// Why an operation was refused.
#[derive(Clone, Copy, Debug, PartialEq, Eq, Structural)]
pub enum FrameError {
    /// Counterparts were asked for in a reference frame that has no points.
    EmptyReference,
    /// Deltas were asked for between sequences of different lengths.
    LengthMismatch,
    /// A position was asked for an axis other than 0, 1 or 2.
    OutOfRangeAxis,
    /// A point was handed an attribute that it does not have, or a value
    /// of the wrong kind for it.
    UnexpectedAttribute,
}

impl FrameError {
    /// A short description of the failure.
    pub fn message(&self) -> (text: String)
        ensures
            *self == FrameError::EmptyReference ==> text@ == "reference frame is empty"@,
            *self == FrameError::LengthMismatch ==> text@ == "frame lengths differ"@,
            *self == FrameError::OutOfRangeAxis ==> text@ == "axis out of range"@,
            *self == FrameError::UnexpectedAttribute ==> text@ == "unexpected attribute"@,
    {
        match self {
            FrameError::EmptyReference => String::from_str("reference frame is empty"),
            FrameError::LengthMismatch => String::from_str("frame lengths differ"),
            FrameError::OutOfRangeAxis => String::from_str("axis out of range"),
            FrameError::UnexpectedAttribute => String::from_str("unexpected attribute"),
        }
    }
}

} // verus!
