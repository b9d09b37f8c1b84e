use vstd::prelude::*;

verus! {

/// The ways a concatenation request can be rejected.  Every failure is
/// reported to the caller as a typed result; nothing is retried or
/// silently recovered.
#[derive(Debug, Clone, Copy, PartialEq, Eq, Structural)]
pub enum ConcatError {
    /// `concat` was called with no input arrays.
    EmptyInput,
    /// The inputs to `concat` do not all share one logical data type.
    TypeMismatch,
    /// The two operands of `string_concat` have different lengths.
    LengthMismatch,
}

} // verus!
