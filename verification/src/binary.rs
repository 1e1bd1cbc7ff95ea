//! Reading fields from bytes.
pub mod reader;
