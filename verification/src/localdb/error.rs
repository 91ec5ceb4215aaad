//! What the store can refuse.

use vstd::prelude::*;

verus! {

/// A fault of the store.
#[derive(Debug, Clone, Copy, PartialEq, Eq, Structural)]
pub enum DBError {
    /// A lookup that must find one row found none.
    RowNotFound,
    /// A link names a row that does not exist.
    ForeignKey,
    /// A new row would repeat a value that must stay unique.
    UniqueViolation,
    /// The table has no surrogate id left for a new row.
    Full,
    /// A stored value cannot be read as the type that was asked for.
    ParseError,
}

} // verus!
