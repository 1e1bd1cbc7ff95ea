//! The document tree and the readers of the two dialects.
pub mod ascii;
pub mod base;
pub mod binary;
pub mod grammar;
pub mod laws;
pub mod version;

pub use ascii::AsciiFBX;
pub use base::{Attribute, BaseFBXReader, BaseFBXWriter, Node, Object, Type};
pub use binary::BinaryFBX;
pub use version::Version;
