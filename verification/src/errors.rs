//! The error taxonomy of the encoding and update-semantics layer.

use vstd::prelude::*;

verus! {

/// Everything this layer can reject or report.
#[derive(Clone, Copy, Debug, PartialEq, Eq, Structural)]
pub enum Error {
    /// A namespace, task segment or label holds a character outside
    /// `[A-Za-z0-9_.-]`.
    InvalidCharset,
    /// A field name holds a `:` and cannot be encoded.
    InvalidField,
    /// A raw store key does not have the shape this layer writes.
    BadStructure,
    /// A current/max segment is neither an integer nor `null`.
    InvalidNumber,
    /// The store could not be reached; produced by the calling layer on
    /// transport faults, never by this crate's own logic.
    StoreUnavailable,
}

} // verus!
