//! What can go wrong in the engine.

use vstd::prelude::*;

verus! {

/// A constraint of the store that a write or a lookup ran into.
#[derive(Clone, Copy, Debug, PartialEq, Eq, Structural)]
pub enum StoreFault {
    /// A lookup that must find exactly one row found none.
    RowNotFound,
    /// A row with the same identity is already stored.
    UniqueViolation,
    /// A row refers to a chat member that its chat does not have.
    ForeignKeyViolation,
    /// A row holds a value that its column does not admit.
    CheckViolation,
}

/// The errors of the engine.
#[derive(Clone, Copy, Debug, PartialEq, Eq, Structural)]
pub enum LeditError {
    /// The store refused an operation.
    Store(StoreFault),
    /// An assignee was to be drawn from a chat without members.
    RndUser,
}

impl LeditError {
    /// The error in words, as it is written to a log.
    pub open spec fn text(self) -> Seq<char> {
        match self {
            LeditError::Store(StoreFault::RowNotFound) => "Store Error: row not found"@,
            LeditError::Store(StoreFault::UniqueViolation) => "Store Error: unique violation"@,
            LeditError::Store(StoreFault::ForeignKeyViolation) =>
                "Store Error: foreign key violation"@,
            LeditError::Store(StoreFault::CheckViolation) => "Store Error: check violation"@,
            LeditError::RndUser => "Failed to find random user"@,
        }
    }

    /// The error in words, as it is written to a log.
    pub fn describe(&self) -> (r: String)
        ensures
            r@ == self.text(),
    {
        match self {
            LeditError::Store(StoreFault::RowNotFound) => String::from_str(
                "Store Error: row not found",
            ),
            LeditError::Store(StoreFault::UniqueViolation) => String::from_str(
                "Store Error: unique violation",
            ),
            LeditError::Store(StoreFault::ForeignKeyViolation) => String::from_str(
                "Store Error: foreign key violation",
            ),
            LeditError::Store(StoreFault::CheckViolation) => String::from_str(
                "Store Error: check violation",
            ),
            LeditError::RndUser => String::from_str("Failed to find random user"),
        }
    }
}

} // verus!
