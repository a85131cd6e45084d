//! The ways in which an operation on the index can fail.

use vstd::prelude::*;

verus! {

/// Why an operation on the index failed.
#[derive(Clone, Copy, Debug, PartialEq, Eq, Structural)]
pub enum IndexError {
    /// No record is stored for the identifier.
    NotFound,
    /// Stored bytes are not a well-formed record.
    Corrupt,
    /// A chain of parents does not lead to a root: an ancestor is missing,
    /// or the chain is longer than any path the index can hold.
    CorruptGraph,
    /// The store or the filesystem failed.
    Io,
    /// Every identifier has been issued.
    Exhausted,
}

} // verus!
