//! The conditions under which a store operation fails.

use vstd::prelude::*;

verus! {

/// Why a read or a decode was given up. No operation recovers from any of
/// these: each aborts the call that met it.
#[derive(Clone, Copy, Debug, PartialEq, Eq, Structural)]
pub enum StoreError {
    /// No object is stored under the digest that was asked for.
    ObjectNotFound,
    /// The stored bytes are not a valid compressed stream.
    CorruptStream,
    /// The envelope's kind tag names no known object kind.
    UnknownObjectKind,
    /// A tree payload ends before its last entry is complete.
    TruncatedTreeEntry,
    /// A field is not where or what the format requires: an envelope without a
    /// space or without a NUL after it, a tree entry whose mode is not five or
    /// six octal digits, or one whose path is not UTF-8.
    MalformedEnvelope,
}

impl StoreError {
    /// A short description for display.
    pub fn message(&self) -> (text: &'static str)
        ensures
            text@ == match *self {
                StoreError::ObjectNotFound => "object not found"@,
                StoreError::CorruptStream => "corrupt compressed stream"@,
                StoreError::UnknownObjectKind => "unknown object kind"@,
                StoreError::TruncatedTreeEntry => "truncated tree entry"@,
                StoreError::MalformedEnvelope => "malformed envelope"@,
            },
    {
        match self {
            StoreError::ObjectNotFound => "object not found",
            StoreError::CorruptStream => "corrupt compressed stream",
            StoreError::UnknownObjectKind => "unknown object kind",
            StoreError::TruncatedTreeEntry => "truncated tree entry",
            StoreError::MalformedEnvelope => "malformed envelope",
        }
    }
}

} // verus!
