//! The byte-level grammar of a binary FBX document.
//!
//! Every function here reads a field at a position of the whole file and gives the field's
//! value with the number of bytes it takes. Positions are offsets from the start of the file,
//! as the offsets stored in node headers are.
use crate::binary::reader::{
    boolean_at, bools_of, bytes_at, char_at, i16_le_at, i32_le_at, i32s_of, i64_le_at, i64s_of,
    u32_le_at, u32s_of, u64_le_at, u64s_of, u8_at, Parsed,
};
use crate::error::ReadErrorModel;
use crate::format::base::{AttributeModel, NodeModel, ObjectModel};
use crate::format::version::{packed_version, version_lt};
use crate::inflate::zlib_inflated;
use vstd::prelude::*;

verus! {

/// The 23 bytes that a binary document starts with.
pub open spec fn magic_prefix() -> Seq<u8> {
    seq![
        0x4bu8, 0x61, 0x79, 0x64, 0x61, 0x72, 0x61, 0x20, 0x46, 0x42, 0x58, 0x20, 0x42, 0x69,
        0x6e, 0x61, 0x72, 0x79, 0x20, 0x20, 0x00, 0x1a, 0x00,
    ]
}

/// The 16 bytes that a binary document ends with.
pub open spec fn magic_tail() -> Seq<u8> {
    seq![
        0xf8u8, 0x5a, 0x8c, 0x6a, 0xde, 0xf5, 0xd9, 0x7e, 0xec, 0xe9, 0x0c, 0xe3, 0x75, 0x8f,
        0x29, 0x0b,
    ]
}

/// Whether `data` starts with the magic prefix of the binary dialect.
pub open spec fn has_magic_prefix(data: Seq<u8>) -> bool {
    data.len() >= 23 && data.subrange(0, 23) == magic_prefix()
}

/// The outcome `rest`, of something read after `used` bytes that gave `done`, with `done` put
/// in front of its values and `used` added to its length.
pub open spec fn extended<T>(done: Seq<T>, used: nat, rest: Parsed<Seq<T>>) -> Parsed<Seq<T>> {
    match rest {
        Ok((more, n)) => Ok((done + more, used + n)),
        Err(e) => Err(e),
    }
}

/// The major number of the version stored as `packed`. The version type has 16 bits for it.
pub open spec fn major_of(packed: u32) -> u16 {
    ((packed / 1000) % 0x1_0000) as u16
}

/// The minor number of the version stored as `packed`.
pub open spec fn minor_of(packed: u32) -> u16 {
    ((packed % 1000) / 100) as u16
}

/// Whether node headers of version `major`.`minor` hold 64-bit fields: from 7.5 on.
pub open spec fn is_wide(major: u16, minor: u16) -> bool {
    !version_lt(major, minor, 7, 5)
}

/// The kinds of array that an attribute can hold.
#[derive(Clone, Copy, PartialEq, Eq, Structural, Debug)]
pub enum ArrayKind {
    Bool,
    Int32,
    Int64,
    Float32,
    Float64,
}

/// The number of bytes that `count` elements of an array of kind `kind` take: one for a
/// boolean, four for a 32-bit and eight for a 64-bit number.
pub open spec fn elements_len(kind: ArrayKind, count: u32) -> nat {
    match kind {
        ArrayKind::Bool => count as nat,
        ArrayKind::Int32 => 4 * count as nat,
        ArrayKind::Int64 => 8 * count as nat,
        ArrayKind::Float32 => 4 * count as nat,
        ArrayKind::Float64 => 8 * count as nat,
    }
}

/// The array of kind `kind` that `bytes` hold, element after element.
pub open spec fn array_of(kind: ArrayKind, bytes: Seq<u8>) -> AttributeModel {
    match kind {
        ArrayKind::Bool => AttributeModel::BoolArray(bools_of(bytes)),
        ArrayKind::Int32 => AttributeModel::Int32Array(i32s_of(bytes)),
        ArrayKind::Int64 => AttributeModel::Int64Array(i64s_of(bytes)),
        ArrayKind::Float32 => AttributeModel::Float32Array(u32s_of(bytes)),
        ArrayKind::Float64 => AttributeModel::Float64Array(u64s_of(bytes)),
    }
}

/// The number of elements of an array attribute; 0 for any other attribute.
pub open spec fn array_len(attribute: AttributeModel) -> nat {
    match attribute {
        AttributeModel::BoolArray(v) => v.len(),
        AttributeModel::Int32Array(v) => v.len(),
        AttributeModel::Int64Array(v) => v.len(),
        AttributeModel::Float32Array(v) => v.len(),
        AttributeModel::Float64Array(v) => v.len(),
        _ => 0,
    }
}

/// An array of `count` elements of kind `kind` whose first element starts at `pos`.
pub open spec fn elements_at(data: Seq<u8>, pos: int, kind: ArrayKind, count: u32) -> Parsed<
    AttributeModel,
> {
    match bytes_at(data, pos, elements_len(kind, count)) {
        Ok((bytes, used)) => Ok((array_of(kind, bytes), used)),
        Err(e) => Err(e),
    }
}

/// The payload of an array attribute of kind `kind` at `pos`: the number of elements, the
/// encoding and the length of the encoded elements, four bytes each, then the elements. With
/// encoding 0 the elements follow as they are. With encoding 1 as many bytes follow as the
/// header says, and the elements are the first of what these bytes inflate to.
pub open spec fn array_at(data: Seq<u8>, pos: int, kind: ArrayKind) -> Parsed<AttributeModel> {
    match (u32_le_at(data, pos), u32_le_at(data, pos + 4), u32_le_at(data, pos + 8)) {
        (Ok((count, _)), Ok((encoding, _)), Ok((encoded_len, _))) => {
            if encoding == 0 {
                match elements_at(data, pos + 12, kind, count) {
                    Ok((array, used)) => Ok((array, 12 + used)),
                    Err(e) => Err(e),
                }
            } else if encoding == 1 {
                match bytes_at(data, pos + 12, encoded_len as nat) {
                    Ok((encoded, used)) => {
                        let limit = elements_len(kind, count) as u64;
                        match elements_at(zlib_inflated(encoded, limit), 0, kind, count) {
                            Ok((array, _)) => Ok((array, 12 + used)),
                            Err(e) => Err(e),
                        }
                    },
                    Err(e) => Err(e),
                }
            } else {
                Err(ReadErrorModel::UnknownEncoding(encoding))
            }
        },
        _ => Err(ReadErrorModel::Truncated),
    }
}

/// A length of four bytes at `pos` with as many bytes after it.
pub open spec fn blob_at(data: Seq<u8>, pos: int) -> Parsed<Seq<u8>> {
    match u32_le_at(data, pos) {
        Ok((len, _)) => match bytes_at(data, pos + 4, len as nat) {
            Ok((bytes, used)) => Ok((bytes, 4 + used)),
            Err(e) => Err(e),
        },
        Err(e) => Err(e),
    }
}

/// The payload, at `pos`, of an attribute with the type tag `tag`.
pub open spec fn payload_at(data: Seq<u8>, pos: int, tag: char) -> Parsed<AttributeModel> {
    if tag == 'C' {
        match boolean_at(data, pos) {
            Ok((value, used)) => Ok((AttributeModel::Bool(value), used)),
            Err(e) => Err(e),
        }
    } else if tag == 'Y' {
        match i16_le_at(data, pos) {
            Ok((value, used)) => Ok((AttributeModel::Int16(value), used)),
            Err(e) => Err(e),
        }
    } else if tag == 'I' {
        match i32_le_at(data, pos) {
            Ok((value, used)) => Ok((AttributeModel::Int32(value), used)),
            Err(e) => Err(e),
        }
    } else if tag == 'L' {
        match i64_le_at(data, pos) {
            Ok((value, used)) => Ok((AttributeModel::Int64(value), used)),
            Err(e) => Err(e),
        }
    } else if tag == 'F' {
        match u32_le_at(data, pos) {
            Ok((bits, used)) => Ok((AttributeModel::Float32(bits), used)),
            Err(e) => Err(e),
        }
    } else if tag == 'D' {
        match u64_le_at(data, pos) {
            Ok((bits, used)) => Ok((AttributeModel::Float64(bits), used)),
            Err(e) => Err(e),
        }
    } else if tag == 'b' {
        array_at(data, pos, ArrayKind::Bool)
    } else if tag == 'i' {
        array_at(data, pos, ArrayKind::Int32)
    } else if tag == 'l' {
        array_at(data, pos, ArrayKind::Int64)
    } else if tag == 'f' {
        array_at(data, pos, ArrayKind::Float32)
    } else if tag == 'd' {
        array_at(data, pos, ArrayKind::Float64)
    } else if tag == 'R' {
        match blob_at(data, pos) {
            Ok((bytes, used)) => Ok((AttributeModel::Raw(bytes), used)),
            Err(e) => Err(e),
        }
    } else if tag == 'S' {
        match blob_at(data, pos) {
            Ok((bytes, used)) => Ok((AttributeModel::Str(bytes), used)),
            Err(e) => Err(e),
        }
    } else {
        Err(ReadErrorModel::UnknownAttribute(tag as u8))
    }
}

/// The attribute at `pos`: a type tag of one byte, then the payload.
pub open spec fn attribute_at(data: Seq<u8>, pos: int) -> Parsed<AttributeModel> {
    match char_at(data, pos) {
        Ok((tag, _)) => match payload_at(data, pos + 1, tag) {
            Ok((attribute, used)) => Ok((attribute, 1 + used)),
            Err(e) => Err(e),
        },
        Err(e) => Err(e),
    }
}

/// The `count` attributes that stand back to back from `pos` on.
pub open spec fn attributes_at(data: Seq<u8>, pos: int, count: nat) -> Parsed<
    Seq<AttributeModel>,
>
    decreases count,
{
    if count == 0 {
        Ok((Seq::empty(), 0))
    } else {
        match attribute_at(data, pos) {
            Ok((first, used)) => extended(
                seq![first],
                used,
                attributes_at(data, pos + used, (count - 1) as nat),
            ),
            Err(e) => Err(e),
        }
    }
}

/// The fixed part of a node record.
#[derive(Debug, Clone, Copy, PartialEq)]
pub struct NodeHeader {
    /// The offset in the file at which the node's record ends.
    pub end_offset: u64,
    /// The number of the node's attributes.
    pub num_attributes: u64,
    /// The number of bytes that the attributes take.
    pub attribute_list_bytes: u64,
    /// The number of bytes of the node's name.
    pub name_length: u8,
}

impl NodeHeader {
    /// Whether this is the header that ends a list of siblings: all its fields are zero.
    pub open spec fn is_sentinel(&self) -> bool {
        self.end_offset == 0 && self.num_attributes == 0 && self.attribute_list_bytes == 0
            && self.name_length == 0
    }
}

/// A header field at `pos`: eight bytes in the wide format, else four.
pub open spec fn offset_at(data: Seq<u8>, pos: int, wide: bool) -> Parsed<u64> {
    if wide {
        u64_le_at(data, pos)
    } else {
        match u32_le_at(data, pos) {
            Ok((value, used)) => Ok((value as u64, used)),
            Err(e) => Err(e),
        }
    }
}

/// The number of bytes of a node header: three fields and the length of the name.
pub open spec fn header_len(wide: bool) -> nat {
    if wide {
        25
    } else {
        13
    }
}

/// The node header at `pos`.
pub open spec fn header_at(data: Seq<u8>, pos: int, wide: bool) -> Parsed<NodeHeader> {
    let width: nat = if wide {
        8
    } else {
        4
    };
    match (
        offset_at(data, pos, wide),
        offset_at(data, pos + width, wide),
        offset_at(data, pos + 2 * width, wide),
        u8_at(data, pos + 3 * width),
    ) {
        (
            Ok((end_offset, _)),
            Ok((num_attributes, _)),
            Ok((attribute_list_bytes, _)),
            Ok((name_length, _)),
        ) => Ok(
            (
                NodeHeader { end_offset, num_attributes, attribute_list_bytes, name_length },
                header_len(wide),
            ),
        ),
        _ => Err(ReadErrorModel::Truncated),
    }
}

/// The number of bytes of `data` from `pos` on.
pub open spec fn remaining(data: Seq<u8>, pos: int) -> nat {
    if pos <= data.len() {
        (data.len() - pos) as nat
    } else {
        0
    }
}

/// What follows the header `header` of a node, from `pos` on: the node's name, its
/// attributes and its children.
pub open spec fn node_body_at(data: Seq<u8>, pos: int, wide: bool, header: NodeHeader) -> Parsed<
    NodeModel,
>
    decreases remaining(data, pos), 1nat,
{
    match bytes_at(data, pos, header.name_length as nat) {
        Ok((name, a)) => match attributes_at(data, pos + a, header.num_attributes as nat) {
            Ok((attributes, b)) => match children_at(data, pos + a + b, wide, header.end_offset) {
                Ok((children, c)) => Ok((NodeModel { name, attributes, children }, a + b + c)),
                Err(e) => Err(e),
            },
            Err(e) => Err(e),
        },
        Err(e) => Err(e),
    }
}

/// The rest of a list of siblings, where the header of its next record is `header` and ends
/// just before `pos`. The sentinel ends the list. After any other header come the body of the
/// node and then the header of the next record.
pub open spec fn nodes_after(data: Seq<u8>, pos: int, wide: bool, header: NodeHeader) -> Parsed<
    Seq<NodeModel>,
>
    decreases remaining(data, pos), 2nat,
{
    if header.is_sentinel() {
        Ok((Seq::empty(), 0))
    } else {
        match node_body_at(data, pos, wide, header) {
            Ok((node, used)) => match header_at(data, pos + used, wide) {
                Ok((next, h)) => extended(
                    seq![node],
                    used + h,
                    nodes_after(data, pos + used + h, wide, next),
                ),
                Err(e) => Err(e),
            },
            Err(e) => Err(e),
        }
    }
}

/// The children of a node whose record ends at `end_offset`, read from `pos` on: as long as
/// the position lies before `end_offset`, one more list of siblings is read and added.
pub open spec fn children_at(data: Seq<u8>, pos: int, wide: bool, end_offset: u64) -> Parsed<
    Seq<NodeModel>,
>
    decreases remaining(data, pos), 0nat,
{
    if pos >= end_offset {
        Ok((Seq::empty(), 0))
    } else {
        match header_at(data, pos, wide) {
            Ok((header, h)) => match nodes_after(data, pos + h, wide, header) {
                Ok((list, used)) => extended(
                    list,
                    h + used,
                    children_at(data, pos + h + used, wide, end_offset),
                ),
                Err(e) => Err(e),
            },
            Err(e) => Err(e),
        }
    }
}

/// The list of siblings at `pos`: node records up to a sentinel.
pub open spec fn nodes_at(data: Seq<u8>, pos: int, wide: bool) -> Parsed<Seq<NodeModel>> {
    match header_at(data, pos, wide) {
        Ok((header, h)) => extended(Seq::empty(), h, nodes_after(data, pos + h, wide, header)),
        Err(e) => Err(e),
    }
}

/// `len` zero bytes.
pub open spec fn zeros(len: nat) -> Seq<u8> {
    Seq::new(len, |i: int| 0u8)
}

/// The version at `pos`: its packed form in four bytes, as major and minor number.
pub open spec fn version_at(data: Seq<u8>, pos: int) -> Parsed<(u16, u16)> {
    match u32_le_at(data, pos) {
        Ok((packed, used)) => Ok(((major_of(packed), minor_of(packed)), used)),
        Err(e) => Err(e),
    }
}

/// The number of padding bytes that follow the opaque block of a trailer that ends at `pos`:
/// as many as bring the position to the last byte before a multiple of 16.
pub open spec fn padding_len(pos: int) -> nat {
    (15 - pos % 16) as nat
}

/// The padding at `pos`.
pub open spec fn padding_at(data: Seq<u8>, pos: int) -> Parsed<()> {
    match bytes_at(data, pos, padding_len(pos)) {
        Ok((_, used)) => Ok(((), used)),
        Err(e) => Err(e),
    }
}

/// Whether `bytes` hold, at position `i`, the two low bytes of the packed form of version
/// `major`.`minor`, the lowest first.
pub open spec fn version_starts_at(bytes: Seq<u8>, i: int, major: u16, minor: u16) -> bool {
    bytes[i] == packed_version(major, minor) % 0x100 && bytes[i + 1] == (packed_version(
        major,
        minor,
    ) / 0x100) % 0x100
}

/// The first of the positions 0, 1 and 2 at which the four `bytes` hold the two low bytes of
/// the packed form of version `major`.`minor`, if there is one.
pub open spec fn correction_of(bytes: Seq<u8>, major: u16, minor: u16) -> Option<nat> {
    if version_starts_at(bytes, 0, major, minor) {
        Some(0)
    } else if version_starts_at(bytes, 1, major, minor) {
        Some(1)
    } else if version_starts_at(bytes, 2, major, minor) {
        Some(2)
    } else {
        None
    }
}

/// The four bytes at `pos` that come before the trailing version of a document of version
/// `major`.`minor`. Four zeros are what a well-formed file has there, and there is nothing to
/// correct. Otherwise the version has started early, and the bytes tell by how many bytes
/// the version that follows is cut short.
pub open spec fn footer2_at(data: Seq<u8>, pos: int, major: u16, minor: u16) -> Parsed<
    Option<nat>,
> {
    match bytes_at(data, pos, 4) {
        Ok((bytes, used)) => if bytes == zeros(4) {
            Ok((None, used))
        } else {
            match correction_of(bytes, major, minor) {
                Some(correction) => Ok((Some(correction), used)),
                None => Err(ReadErrorModel::InvalidFooter2Pattern),
            }
        },
        Err(e) => Err(e),
    }
}

/// What follows the four bytes of `footer2_at`: the trailing version in full where nothing
/// was to correct, else the `correction` bytes that are left of it.
pub open spec fn version_rest_at(data: Seq<u8>, pos: int, correction: Option<nat>) -> Parsed<
    (),
> {
    match correction {
        None => match version_at(data, pos) {
            Ok((_, used)) => Ok(((), used)),
            Err(e) => Err(e),
        },
        Some(correction) => match bytes_at(data, pos, correction) {
            Ok((_, used)) => Ok(((), used)),
            Err(e) => Err(e),
        },
    }
}

/// The block of 120 zero bytes at `pos`.
pub open spec fn footer3_at(data: Seq<u8>, pos: int) -> Parsed<()> {
    match bytes_at(data, pos, 120) {
        Ok((bytes, used)) => if bytes == zeros(120) {
            Ok(((), used))
        } else {
            Err(ReadErrorModel::Footer3Mismatch(bytes))
        },
        Err(e) => Err(e),
    }
}

/// The magic tail at `pos`.
pub open spec fn footer4_at(data: Seq<u8>, pos: int) -> Parsed<()> {
    match bytes_at(data, pos, 16) {
        Ok((bytes, used)) => if bytes == magic_tail() {
            Ok(((), used))
        } else {
            Err(ReadErrorModel::Footer4Mismatch(bytes))
        },
        Err(e) => Err(e),
    }
}

/// The trailer at `pos` of a document of version `major`.`minor`: an opaque block of 16
/// bytes, which is the value, then padding, the trailing version with what comes before it,
/// the block of zeros and the magic tail.
pub open spec fn trailer_at(data: Seq<u8>, pos: int, major: u16, minor: u16) -> Parsed<Seq<u8>> {
    match bytes_at(data, pos, 16) {
        Ok((footer, a)) => match padding_at(data, pos + a) {
            Ok((_, b)) => match footer2_at(data, pos + a + b, major, minor) {
                Ok((correction, c)) => match version_rest_at(data, pos + a + b + c, correction) {
                    Ok((_, d)) => match footer3_at(data, pos + a + b + c + d) {
                        Ok((_, e)) => match footer4_at(data, pos + a + b + c + d + e) {
                            Ok((_, f)) => Ok((footer, a + b + c + d + e + f)),
                            Err(reason) => Err(reason),
                        },
                        Err(reason) => Err(reason),
                    },
                    Err(reason) => Err(reason),
                },
                Err(reason) => Err(reason),
            },
            Err(reason) => Err(reason),
        },
        Err(reason) => Err(reason),
    }
}

/// The document whose version field stands at `pos`, right after the magic prefix: the
/// version, the list of top-level nodes and the trailer.
pub open spec fn document_at(data: Seq<u8>, pos: int) -> Parsed<ObjectModel> {
    match version_at(data, pos) {
        Ok(((major, minor), a)) => match nodes_at(data, pos + a, is_wide(major, minor)) {
            Ok((children, b)) => match trailer_at(data, pos + a + b, major, minor) {
                Ok((footer, c)) => Ok(
                    (ObjectModel { major, minor, children, footer: Some(footer) }, a + b + c),
                ),
                Err(e) => Err(e),
            },
            Err(e) => Err(e),
        },
        Err(e) => Err(e),
    }
}

/// What reading the file `data` gives: the document after the magic prefix of the binary
/// dialect, and no document where the prefix is missing.
pub open spec fn file(data: Seq<u8>) -> Result<ObjectModel, ReadErrorModel> {
    if has_magic_prefix(data) {
        match document_at(data, 23) {
            Ok((document, _)) => Ok(document),
            Err(e) => Err(e),
        }
    } else {
        Err(ReadErrorModel::NotBinaryFBX)
    }
}

} // verus!
