//! The ways in which a storage operation fails.

use vstd::prelude::*;

verus! {

/// Why an operation on the store did not succeed. An identifier that was never
/// written is not among these: a lookup that finds nothing is a valid answer.
#[derive(Clone, Copy, Debug, PartialEq, Eq, Structural)]
pub enum StoreError {
    /// The log or the index could not be read or written.
    Io,
    /// The index points at bytes that are no complete record, or the record
    /// does not hold a document.
    Corruption,
    /// The document has no identifier, or it does not belong to the
    /// identifier it was sent for.
    MalformedInput,
}

} // verus!
