//! A content-addressable object store and the repository layout that anchors
//! it. Objects are typed byte payloads addressed by the SHA-1 digest of a
//! header-prefixed serialization and kept zlib-compressed under a sharded
//! directory of the repository's metadata directory.

pub mod decimal;
pub mod error;
pub mod hash;
pub mod objects;
pub mod path;
pub mod repository;
pub mod settings;
pub mod store;
pub mod text;
pub mod tree;
pub mod zlib;

pub use crate::error::Error;
pub use crate::hash::ObjectHash;
pub use crate::objects::{Object, ObjectType};
pub use crate::repository::Repository;
pub use crate::store::{read_object, write_object};
