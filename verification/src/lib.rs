//! A content-addressable object store in the style of a version-control
//! system's storage layer: typed objects, their canonical byte form, the
//! digest that names them and the compressed form that is kept on disk.

pub mod bytes;
pub mod compression;
pub mod digest;
pub mod error;
pub mod hexadecimal;
pub mod object;
pub mod store;
pub mod tree;

pub use crate::error::StoreError;
pub use crate::object::{decode_object, encode_object, GitBlob, GitObject, GitObjectType};
pub use crate::store::{ls_tree, read_object, write_object, StoredObject};
pub use crate::tree::codec::GitTree;
pub use crate::tree::entry::{tree_leaf_sort_key, GitTreeLeaf};
pub use crate::tree::parse::{tree_parse, tree_parse_one};
