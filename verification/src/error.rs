use vstd::prelude::*;

verus! {

/// Every recoverable failure an operation of this crate can report.
#[derive(Clone, Copy, Debug, PartialEq, Eq, Structural)]
pub enum ErrorKind {
    /// An identity lookup found no matching entity.
    NotFound,
    /// The target identity is already taken by another entity.
    AlreadyExists,
    /// A required text field was blank.
    EmptyValue,
    /// A numeric field could not be parsed.
    ParseError,
    /// The copy is already lent out.
    AlreadyInUse,
    /// The copy is not lent out.
    NotInUse,
    /// A collection index was out of range.
    IndexOutOfRange,
}

} // verus!
