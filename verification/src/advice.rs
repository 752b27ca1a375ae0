//! Access-pattern hints forwarded to the OS for a mapped byte range.

use vstd::prelude::*;

verus! {

/// An access-pattern hint for a byte range of the mapped region.
///
/// The hint itself is advisory: it never changes the contents of the region,
/// only how the OS schedules paging for it.
#[derive(Clone, Copy, Debug, PartialEq, Eq, Structural)]
pub enum Advice {
    /// No special treatment.
    Normal,
    /// Expect random page references.
    Random,
    /// Expect sequential page references.
    Sequential,
    /// The range will be needed soon.
    WillNeed,
    /// The range will not be needed soon.
    DontNeed,
}

} // verus!
