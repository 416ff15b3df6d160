use vstd::prelude::*;

verus! {

/// Why a record could not be decoded.
#[derive(Debug, Clone, Copy, PartialEq, Eq, Structural)]
pub enum ParseError {
    /// Fewer bytes are available than a field needs; buffering more input
    /// and decoding the same record again may succeed.
    InsufficientData,
    /// A length computed from the declared event size is negative, or a
    /// length-encoded integer uses the reserved `0xff` prefix.
    MalformedLength,
    /// The header's type code is not one that this decoder knows.
    UnsupportedEventType,
    /// A coded byte or word lies outside its documented domain.
    UnsupportedEnumValue,
    /// A terminator or separator byte does not hold its fixed value, or a
    /// self-contained region was not consumed exactly.
    InvariantViolation,
}

} // verus!
