//! The failures that the protocol logic reports.
use vstd::prelude::*;

verus! {

#[derive(Clone, Copy, Debug, PartialEq, Eq, Structural)]
pub enum ScannerError {
    /// No catalog entry's product or manufacturer name contains the mask.
    NoDeviceForMask,
    /// A response chunk declares more payload than it holds.
    FramingError,
    /// A command text holds a character outside 7-bit ASCII.
    NonAsciiCommand,
    /// The device kept sending non-empty chunks past the allowed count.
    TooManyChunks,
}

} // verus!
