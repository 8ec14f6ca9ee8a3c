use vstd::prelude::*;

verus! {

/// Why a bookkeeping-table operation failed.
#[derive(Clone, Copy, Debug, PartialEq, Eq, Structural)]
pub enum VirgoError {
    /// A table, its declared size and the output do not agree in length, or the
    /// size is zero or odd where it must be even.
    LengthMismatch,
    /// An index at or beyond a buffer's length was accessed.
    OutOfBounds,
    /// The compute substrate reported a runtime failure.
    ComputeFault,
    /// No binding of the operations exists for the requested field.
    UnsupportedField,
}

} // verus!
