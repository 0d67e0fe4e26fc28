//! The tree codec: directory snapshots as sequences of entries, their binary
//! form, and the canonical order that makes that form depend on the entries
//! alone.

pub mod entry;
pub mod parse;
pub mod order;
pub mod codec;
