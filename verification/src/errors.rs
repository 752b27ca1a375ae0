//! Errors reported by the append buffer.

use vstd::prelude::*;

verus! {

/// Why an operation on the append buffer was refused.
///
/// Every operation either completes fully or returns one of these without
/// having made any visible change to the mapped region.
#[derive(Clone, Copy, Debug, PartialEq, Eq, Structural)]
pub enum Error {
    /// The backing file is too small to hold the two-word header.
    InsufficientFileSize,
    /// An append would run past the end of the mapped region.
    CapacityExceeded,
    /// A byte range (given to a flush or advise request, or recorded in the
    /// header as the committed end) lies outside the mapped region.
    RangeOutOfBounds,
    /// The append lock could not be taken within the retry budget.
    LockTimeout,
}

} // verus!
