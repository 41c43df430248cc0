use vstd::prelude::*;

verus! {

/// Conditions that stop the processing of an image.
#[derive(Clone, Copy, Debug, PartialEq, Eq, Structural)]
pub enum Error {
    /// More than one declared range of a segment holds this address.
    OverlappingRanges(u16),
    /// The description declares no segment, so there is no high bank.
    NoLastSegment,
    /// The image holds no byte at this address of the segment.
    RomOutOfBounds(u16),
}

} // verus!
