use vstd::prelude::*;

verus! {

/// The ways in which an operation on a buffer can fail. Every failure is
/// reported to the caller and leaves the buffer as it was before the call.
#[derive(Clone, Copy, Debug, PartialEq, Eq, Structural)]
pub enum BitBufError {
    /// The operation would move the cursor past the capacity, or the requested
    /// bit count is zero or exceeds the full width of the type.
    OutOfBounds,
    /// The bytes read for a string are not valid UTF-8.
    InvalidEncoding,
    /// The requested byte length has no bit capacity that fits in `usize`.
    ConstructionError,
}

} // verus!
