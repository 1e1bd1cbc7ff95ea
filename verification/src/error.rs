//! The reasons why reading a document can fail.
use vstd::prelude::*;

verus! {

/// What a failed read reports, as a mathematical value.
pub enum ReadErrorModel {
    FailedToOpenFile(Seq<char>),
    Truncated,
    NotBinaryFBX,
    UnknownAttribute(u8),
    UnknownEncoding(u32),
    MisalignedFooter,
    InvalidFooter2Pattern,
    Footer3Mismatch(Seq<u8>),
    Footer4Mismatch(Seq<u8>),
    InvalidUtf8(Seq<u8>),
}

/// Why a document could not be read.
#[derive(Debug, PartialEq)]
pub enum ReadError {
    /// The file at this path could not be opened or read.
    FailedToOpenFile(String),
    /// The input ended in the middle of a field.
    Truncated,
    /// The input does not start with the binary FBX magic prefix.
    NotBinaryFBX,
    /// An attribute carries this type tag, which the format does not define.
    UnknownAttribute(u8),
    /// An array carries this encoding, which is neither raw nor deflated.
    UnknownEncoding(u32),
    /// The trailer does not start on a 16-byte boundary.
    MisalignedFooter,
    /// The bytes before the trailing version field do not hold the packed version.
    InvalidFooter2Pattern,
    /// The 120-byte block of the trailer holds these bytes instead of zeros.
    Footer3Mismatch(Vec<u8>),
    /// The last 16 bytes of the trailer hold these bytes instead of the magic tail.
    Footer4Mismatch(Vec<u8>),
    /// These bytes of a string attribute are not UTF-8.
    InvalidUtf8(Vec<u8>),
}

impl View for ReadError {
    type V = ReadErrorModel;

    open spec fn view(&self) -> ReadErrorModel {
        match self {
            ReadError::FailedToOpenFile(path) => ReadErrorModel::FailedToOpenFile(path@),
            ReadError::Truncated => ReadErrorModel::Truncated,
            ReadError::NotBinaryFBX => ReadErrorModel::NotBinaryFBX,
            ReadError::UnknownAttribute(tag) => ReadErrorModel::UnknownAttribute(*tag),
            ReadError::UnknownEncoding(encoding) => ReadErrorModel::UnknownEncoding(*encoding),
            ReadError::MisalignedFooter => ReadErrorModel::MisalignedFooter,
            ReadError::InvalidFooter2Pattern => ReadErrorModel::InvalidFooter2Pattern,
            ReadError::Footer3Mismatch(bytes) => ReadErrorModel::Footer3Mismatch(bytes@),
            ReadError::Footer4Mismatch(bytes) => ReadErrorModel::Footer4Mismatch(bytes@),
            ReadError::InvalidUtf8(bytes) => ReadErrorModel::InvalidUtf8(bytes@),
        }
    }
}

} // verus!
