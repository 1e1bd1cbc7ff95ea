//! The parser of the binary dialect.
use crate::binary::reader::{bytes_at, u32_le_at, BinaryReader};
use crate::error::{ReadError, ReadErrorModel};
use crate::format::base::{attributes_view, nodes_view, BaseFBXReader, Node, Object, Type};
use crate::format::grammar::{
    array_at, array_len, attribute_at, attributes_at, blob_at, children_at, document_at,
    elements_at, extended, footer2_at, footer3_at, footer4_at, header_at, header_len, is_wide,
    magic_tail, node_body_at, nodes_at, offset_at, padding_at, version_at, version_starts_at,
    zeros, ArrayKind, NodeHeader,
};
use crate::format::laws::{
    lemma_attributes_len, lemma_children_step, lemma_elements_len, lemma_extended_empty,
    lemma_extended_twice, lemma_node_body_len, lemma_nodes_len, lemma_nodes_step,
};
use crate::format::version::{packed_version, Version};
use crate::inflate::zlib_inflate;
use vstd::prelude::*;

verus! {

/// The 16 bytes that a binary document ends with.
pub const FBX_FOOTER_MAGIC_BYTES_4: [u8; 16] = [
    0xf8, 0x5a, 0x8c, 0x6a, 0xde, 0xf5, 0xd9, 0x7e, 0xec, 0xe9, 0x0c, 0xe3, 0x75, 0x8f, 0x29, 0x0b,
];

/// Whether `bytes` are the magic tail.
pub fn is_magic_tail(bytes: &Vec<u8>) -> (same: bool)
    ensures
        same == (bytes@ == magic_tail()),
{
    if bytes.len() != 16 {
        return false;
    }
    let mut i: usize = 0;
    while i < 16
        invariant
            i <= 16,
            bytes@.len() == 16,
            forall|j: int| 0 <= j < i ==> bytes@[j] == magic_tail()[j],
        decreases 16 - i,
    {
        if bytes[i] != FBX_FOOTER_MAGIC_BYTES_4[i] {
            return false;
        }
        i = i + 1;
    }
    assert(bytes@ =~= magic_tail());
    true
}

/// Whether all of `bytes` are zero.
pub fn is_all_zero(bytes: &Vec<u8>) -> (all: bool)
    ensures
        all == (bytes@ == zeros(bytes@.len())),
{
    let mut i: usize = 0;
    while i < bytes.len()
        invariant
            i <= bytes.len(),
            forall|j: int| 0 <= j < i ==> bytes@[j] == 0,
        decreases bytes.len() - i,
    {
        if bytes[i] != 0 {
            assert(zeros(bytes@.len())[i as int] == 0);
            return false;
        }
        i = i + 1;
    }
    assert(bytes@ =~= zeros(bytes@.len()));
    true
}

/// Reads `count` elements of an array of kind `kind` from `reader`.
pub fn read_elements(reader: &mut BinaryReader, kind: ArrayKind, count: u32) -> (array: Result<
    Type,
    ReadError,
>)
    ensures
        final(reader).data() == old(reader).data(),
        match array {
            Ok(array) => elements_at(old(reader).data(), old(reader).at(), kind, count)
                matches Ok((elements, used)) && array@ == elements && final(reader).cursor()
                == old(reader).cursor() + used,
            Err(e) => elements_at(old(reader).data(), old(reader).at(), kind, count)
                matches Err(reason) && e@ == reason && final(reader).cursor()
                == old(reader).cursor(),
        },
{
    match kind {
        ArrayKind::Bool => match reader.read_booleans(count) {
            Ok(values) => Ok(Type::BoolArray(values)),
            Err(e) => Err(e),
        },
        ArrayKind::Int32 => match reader.read_i32s_le(count) {
            Ok(values) => Ok(Type::Int32Array(values)),
            Err(e) => Err(e),
        },
        ArrayKind::Int64 => match reader.read_i64s_le(count) {
            Ok(values) => Ok(Type::Int64Array(values)),
            Err(e) => Err(e),
        },
        ArrayKind::Float32 => match reader.read_f32s_le(count) {
            Ok(values) => Ok(Type::Float32Array(values)),
            Err(e) => Err(e),
        },
        ArrayKind::Float64 => match reader.read_f64s_le(count) {
            Ok(values) => Ok(Type::Float64Array(values)),
            Err(e) => Err(e),
        },
    }
}

/// Decodes the array of `count` elements of kind `kind` that `bytes` start with. This is what
/// is done with the bytes that a deflated array inflates to.
pub fn decode_array(kind: ArrayKind, count: u32, bytes: Vec<u8>) -> (array: Result<
    Type,
    ReadError,
>)
    ensures
        match array {
            Ok(array) => elements_at(bytes@, 0, kind, count) matches Ok((elements, _)) && array@
                == elements,
            Err(e) => elements_at(bytes@, 0, kind, count) matches Err(reason) && e@ == reason,
        },
{
    let mut reader = BinaryReader::new(bytes, 0);
    read_elements(&mut reader, kind, count)
}

/// A parser of the binary dialect over a whole file held in memory.
#[derive(Debug)]
pub struct BinaryFBX {
    reader: BinaryReader,
    version: Option<Version>,
}

impl BinaryFBX {
    /// The bytes of the file.
    pub closed spec fn data(&self) -> Seq<u8> {
        self.reader.data()
    }

    /// The position in the file that the parser has reached.
    pub closed spec fn cursor(&self) -> nat {
        self.reader.cursor()
    }

    /// The position in the file that the parser has reached, as the grammar counts it.
    pub open spec fn at(&self) -> int {
        self.cursor() as int
    }

    /// The version of the document, once `read` has read it.
    pub closed spec fn version(&self) -> Option<Version> {
        self.version
    }

    /// Whether node headers hold 64-bit fields in the version that the parser has in mind.
    pub open spec fn wide(&self) -> bool {
        is_wide(self.version().unwrap().major(), self.version().unwrap().minor())
    }

    /// Whether the parser `before` has become the parser `self` by reading on in the same
    /// file, with the same version in mind.
    pub open spec fn continues(&self, before: &BinaryFBX) -> bool {
        self.data() == before.data() && self.version() == before.version()
    }

    /// A parser over the file `data`, positioned after the 23 bytes of the magic prefix (at
    /// the end of `data` where it is shorter than that). The prefix itself is not looked at.
    pub fn new(data: Vec<u8>) -> (parser: BinaryFBX)
        ensures
            parser.data() == data@,
            parser.version() is None,
            parser.cursor() == if data@.len() >= 23 {
                23
            } else {
                data@.len()
            },
    {
        BinaryFBX { reader: BinaryReader::new(data, 23), version: None }
    }

    /// The position in the file that the parser has reached.
    pub fn current_cursor(&self) -> (cursor: usize)
        ensures
            cursor == self.cursor(),
            cursor <= self.data().len(),
    {
        self.reader.current_cursor()
    }

    /// Whether node headers hold 64-bit fields, which they do from version 7.5 on.
    pub fn is_new_format(&self) -> (wide: bool)
        requires
            self.version() is Some,
        ensures
            wide == self.wide(),
    {
        match &self.version {
            Some(version) => version.is_new_format(),
            None => false,
        }
    }

    /// Reads a version field.
    pub fn read_version(&mut self) -> (version: Result<Version, ReadError>)
        ensures
            final(self).continues(old(self)),
            match version {
                Ok(version) => version_at(old(self).data(), old(self).at())
                    matches Ok(((major, minor), used)) && version.major() == major
                    && version.minor() == minor && final(self).cursor() == old(self).cursor()
                    + used,
                Err(e) => version_at(old(self).data(), old(self).at()) matches Err(
                    reason,
                ) && e@ == reason && final(self).cursor() == old(self).cursor(),
            },
    {
        let packed = self.reader.read_u32_le()?;
        let major = packed / 1000;
        let minor = (packed - major * 1000) / 100;
        Ok(Version::from((major % 0x1_0000) as u16, minor as u16))
    }

    /// Reads the payload of an array attribute of kind `kind`.
    pub fn read_vector(&mut self, kind: ArrayKind) -> (array: Result<Type, ReadError>)
        ensures
            final(self).continues(old(self)),
            match array {
                Ok(array) => {
                    &&& array_at(old(self).data(), old(self).at(), kind) matches Ok(
                        (elements, used),
                    ) && array@ == elements && final(self).cursor() == old(self).cursor() + used
                    &&& u32_le_at(old(self).data(), old(self).at()) matches Ok(
                        (count, _),
                    ) && array_len(array@) == count
                },
                Err(e) => array_at(old(self).data(), old(self).at(), kind)
                    matches Err(reason) && e@ == reason,
            },
    {
        let ghost data = self.reader.data();
        let ghost start = self.reader.cursor() as int;
        let count = self.reader.read_u32_le()?;
        let encoding = self.reader.read_u32_le()?;
        let encoded_len = self.reader.read_u32_le()?;
        proof {
            lemma_elements_len(data, start + 12, kind, count);
        }
        if encoding == 0 {
            read_elements(&mut self.reader, kind, count)
        } else if encoding == 1 {
            let encoded = self.reader.read_bytes_exact(encoded_len as usize)?;
            let width: u64 = match kind {
                ArrayKind::Bool => 1,
                ArrayKind::Int32 => 4,
                ArrayKind::Int64 => 8,
                ArrayKind::Float32 => 4,
                ArrayKind::Float64 => 8,
            };
            let inflated = zlib_inflate(encoded.as_slice(), width * (count as u64));
            proof {
                lemma_elements_len(inflated@, 0, kind, count);
            }
            decode_array(kind, count, inflated)
        } else {
            Err(ReadError::UnknownEncoding(encoding))
        }
    }

    /// Reads a length of four bytes and as many bytes after it.
    fn read_blob(&mut self) -> (bytes: Result<Vec<u8>, ReadError>)
        ensures
            final(self).continues(old(self)),
            match bytes {
                Ok(bytes) => blob_at(old(self).data(), old(self).at()) matches Ok((blob, used))
                    && bytes@ == blob && final(self).cursor() == old(self).cursor() + used,
                Err(e) => blob_at(old(self).data(), old(self).at()) matches Err(reason) && e@
                    == reason,
            },
    {
        let len = self.reader.read_u32_le()?;
        self.reader.read_bytes_exact(len as usize)
    }

    /// Reads one attribute: its type tag and its payload.
    pub fn read_attribute(&mut self) -> (attribute: Result<Type, ReadError>)
        ensures
            final(self).continues(old(self)),
            match attribute {
                Ok(attribute) => attribute_at(old(self).data(), old(self).at())
                    matches Ok((value, used)) && attribute@ == value && final(self).cursor()
                    == old(self).cursor() + used,
                Err(e) => attribute_at(old(self).data(), old(self).at())
                    matches Err(reason) && e@ == reason,
            },
    {
        let tag = self.reader.read_char()?;
        match tag {
            'C' => Ok(Type::Bool(self.reader.read_boolean()?)),
            'Y' => Ok(Type::Int16(self.reader.read_i16_le()?)),
            'I' => Ok(Type::Int32(self.reader.read_i32_le()?)),
            'L' => Ok(Type::Int64(self.reader.read_i64_le()?)),
            'F' => Ok(Type::Float32(self.reader.read_f32_le()?)),
            'D' => Ok(Type::Float64(self.reader.read_f64_le()?)),
            'b' => self.read_vector(ArrayKind::Bool),
            'i' => self.read_vector(ArrayKind::Int32),
            'l' => self.read_vector(ArrayKind::Int64),
            'f' => self.read_vector(ArrayKind::Float32),
            'd' => self.read_vector(ArrayKind::Float64),
            'R' => Ok(Type::Raw(self.read_blob()?)),
            'S' => Ok(Type::Str(self.read_blob()?)),
            _ => Err(ReadError::UnknownAttribute(tag as u8)),
        }
    }

    /// Reads `count` attributes that stand back to back.
    pub fn read_attributes(&mut self, count: u64) -> (attributes: Result<Vec<Type>, ReadError>)
        ensures
            final(self).continues(old(self)),
            match attributes {
                Ok(attributes) => attributes_at(
                    old(self).data(),
                    old(self).at(),
                    count as nat,
                ) matches Ok((values, used)) && attributes_view(attributes@) == values
                    && attributes@.len() == count && final(self).cursor() == old(self).cursor()
                    + used,
                Err(e) => attributes_at(old(self).data(), old(self).at(), count as nat)
                    matches Err(reason) && e@ == reason,
            },
    {
        let ghost data = self.data();
        let ghost start = self.at();
        let mut attributes: Vec<Type> = Vec::new();
        let mut i: u64 = 0;
        proof {
            lemma_extended_empty(attributes_at(data, start, count as nat));
            assert(attributes_view(attributes@) =~= Seq::empty());
        }
        while i < count
            invariant
                i <= count,
                self.continues(old(self)),
                data == old(self).data(),
                start == old(self).cursor(),
                start <= self.cursor(),
                attributes@.len() == i,
                attributes_at(data, start, count as nat) == extended(
                    attributes_view(attributes@),
                    (self.cursor() - start) as nat,
                    attributes_at(data, self.at(), (count - i) as nat),
                ),
            decreases count - i,
        {
            let ghost before = attributes_view(attributes@);
            let ghost used_before = (self.cursor() - start) as nat;
            let ghost here = self.at();
            let attribute = self.read_attribute()?;
            proof {
                lemma_extended_twice(
                    before,
                    used_before,
                    seq![attribute@],
                    (self.cursor() - here) as nat,
                    attributes_at(data, self.at(), (count - i - 1) as nat),
                );
                assert(attributes_view(attributes@.push(attribute)) =~= before + seq![
                    attribute@,
                ]);
            }
            attributes.push(attribute);
            i = i + 1;
        }
        proof {
            assert(attributes_view(attributes@) + Seq::empty() =~= attributes_view(attributes@));
        }
        Ok(attributes)
    }

    /// Reads a node header.
    pub fn read_header(&mut self) -> (header: Result<NodeHeader, ReadError>)
        requires
            old(self).version() is Some,
        ensures
            final(self).continues(old(self)),
            match header {
                Ok(header) => header_at(old(self).data(), old(self).at(), old(self).wide())
                    matches Ok((value, used)) && header == value && final(self).cursor()
                    == old(self).cursor() + used,
                Err(e) => header_at(old(self).data(), old(self).at(), old(self).wide())
                    matches Err(reason) && e@ == reason,
            },
    {
        let wide = self.is_new_format();
        let end_offset = self.read_offset(wide)?;
        let num_attributes = self.read_offset(wide)?;
        let attribute_list_bytes = self.read_offset(wide)?;
        let name_length = self.reader.read_u8()?;
        Ok(NodeHeader { end_offset, num_attributes, attribute_list_bytes, name_length })
    }

    /// Reads one field of a node header: eight bytes in the wide format, else four.
    fn read_offset(&mut self, wide: bool) -> (offset: Result<u64, ReadError>)
        ensures
            final(self).continues(old(self)),
            match offset {
                Ok(offset) => offset_at(old(self).data(), old(self).at(), wide) matches Ok(
                    (value, used),
                ) && offset == value && final(self).cursor() == old(self).cursor() + used,
                Err(e) => offset_at(old(self).data(), old(self).at(), wide) matches Err(reason)
                    && e@ == reason,
            },
    {
        if wide {
            self.reader.read_u64_le()
        } else {
            match self.reader.read_u32_le() {
                Ok(offset) => Ok(offset as u64),
                Err(e) => Err(e),
            }
        }
    }

    /// Reads a list of siblings: node records up to a sentinel, each with its subtree.
    pub fn read_nodes(&mut self) -> (nodes: Result<Vec<Node>, ReadError>)
        requires
            old(self).version() is Some,
        ensures
            final(self).continues(old(self)),
            match nodes {
                Ok(nodes) => nodes_at(old(self).data(), old(self).at(), old(self).wide())
                    matches Ok((list, used)) && nodes_view(nodes@) == list && final(self).cursor()
                    == old(self).cursor() + used,
                Err(e) => nodes_at(old(self).data(), old(self).at(), old(self).wide())
                    matches Err(reason) && e@ == reason,
            },
        decreases old(self).data().len() - old(self).cursor(), 0nat,
    {
        let ghost data = self.data();
        let ghost wide = self.wide();
        let ghost start = self.at();
        let mut nodes: Vec<Node> = Vec::new();
        proof {
            lemma_extended_empty(nodes_at(data, start, wide));
            assert(nodes_view(nodes@) =~= Seq::empty());
        }
        loop
            invariant
                self.continues(old(self)),
                self.version() is Some,
                data == old(self).data(),
                wide == old(self).wide(),
                start == old(self).cursor(),
                start <= self.cursor(),
                nodes_at(data, start, wide) == extended(
                    nodes_view(nodes@),
                    (self.cursor() - start) as nat,
                    nodes_at(data, self.at(), wide),
                ),
            decreases data.len() - self.cursor(),
        {
            let ghost before = nodes_view(nodes@);
            let ghost here = self.at();
            let header = self.read_header()?;
            if header.end_offset == 0 && header.num_attributes == 0 && header.attribute_list_bytes
                == 0 && header.name_length == 0 {
                proof {
                    assert(before + Seq::empty() =~= before);
                }
                return Ok(nodes);
            }
            let node = self.read_node(&header)?;
            proof {
                let body = (self.cursor() - here - header_len(wide)) as nat;
                lemma_nodes_step(data, here, wide, header, node@, body);
                lemma_extended_twice(
                    before,
                    (here - start) as nat,
                    seq![node@],
                    header_len(wide) + body,
                    nodes_at(data, self.at(), wide),
                );
                assert(nodes_view(nodes@.push(node)) =~= before + seq![node@]);
                lemma_node_body_len(data, here + header_len(wide), wide, header);
            }
            nodes.push(node);
        }
    }

    /// Reads what follows the header `header` of a node: the node's name, its attributes and
    /// its children.
    pub fn read_node(&mut self, header: &NodeHeader) -> (node: Result<Node, ReadError>)
        requires
            old(self).version() is Some,
        ensures
            final(self).continues(old(self)),
            match node {
                Ok(node) => node_body_at(
                    old(self).data(),
                    old(self).at(),
                    old(self).wide(),
                    *header,
                ) matches Ok((value, used)) && node@ == value && final(self).cursor()
                    == old(self).cursor() + used,
                Err(e) => node_body_at(
                    old(self).data(),
                    old(self).at(),
                    old(self).wide(),
                    *header,
                ) matches Err(reason) && e@ == reason,
            },
        decreases old(self).data().len() - old(self).cursor(), 2nat,
    {
        let ghost start = self.at();
        let name = self.reader.read_string(header.name_length as usize)?;
        let attributes = self.read_attributes(header.num_attributes)?;
        proof {
            lemma_attributes_len(
                self.data(),
                start + header.name_length,
                header.num_attributes as nat,
            );
        }
        let children = self.read_children(header.end_offset)?;
        Ok(Node::new(name, attributes, children))
    }

    /// Reads the children of a node whose record ends at `end_offset`: as long as the cursor
    /// lies before `end_offset`, one more list of siblings.
    pub fn read_children(&mut self, end_offset: u64) -> (children: Result<Vec<Node>, ReadError>)
        requires
            old(self).version() is Some,
        ensures
            final(self).continues(old(self)),
            match children {
                Ok(children) => children_at(
                    old(self).data(),
                    old(self).at(),
                    old(self).wide(),
                    end_offset,
                ) matches Ok((list, used)) && nodes_view(children@) == list && final(self).cursor()
                    == old(self).cursor() + used && final(self).cursor() >= end_offset,
                Err(e) => children_at(
                    old(self).data(),
                    old(self).at(),
                    old(self).wide(),
                    end_offset,
                ) matches Err(reason) && e@ == reason,
            },
        decreases old(self).data().len() - old(self).cursor(), 1nat,
    {
        let ghost data = self.data();
        let ghost wide = self.wide();
        let ghost start = self.at();
        let mut children: Vec<Node> = Vec::new();
        proof {
            lemma_extended_empty(children_at(data, start, wide, end_offset));
            assert(nodes_view(children@) =~= Seq::empty());
        }
        loop
            invariant
                self.continues(old(self)),
                self.version() is Some,
                data == old(self).data(),
                wide == old(self).wide(),
                start == old(self).cursor(),
                start <= self.cursor(),
                children_at(data, start, wide, end_offset) == extended(
                    nodes_view(children@),
                    (self.cursor() - start) as nat,
                    children_at(data, self.at(), wide, end_offset),
                ),
            decreases data.len() - self.cursor(),
        {
            let ghost before = nodes_view(children@);
            let ghost here = self.at();
            let cursor = self.current_cursor();
            if end_offset <= cursor as u64 {
                proof {
                    assert(before + Seq::empty() =~= before);
                }
                return Ok(children);
            }
            proof {
                lemma_children_step(data, here, wide, end_offset);
            }
            let mut list = self.read_nodes()?;
            proof {
                lemma_extended_twice(
                    before,
                    (here - start) as nat,
                    nodes_view(list@),
                    (self.cursor() - here) as nat,
                    children_at(data, self.at(), wide, end_offset),
                );
                assert(nodes_view(children@ + list@) =~= before + nodes_view(list@));
                lemma_nodes_len(data, here, wide);
            }
            children.append(&mut list);
        }
    }

    /// Reads the opaque block of 16 bytes that the trailer starts with.
    pub fn read_footer1(&mut self) -> (footer: Result<Vec<u8>, ReadError>)
        ensures
            final(self).continues(old(self)),
            match footer {
                Ok(footer) => bytes_at(old(self).data(), old(self).at(), 16)
                    == Ok::<(Seq<u8>, nat), ReadErrorModel>((footer@, 16)) && final(self).cursor()
                    == old(self).cursor() + 16,
                Err(e) => bytes_at(old(self).data(), old(self).at(), 16) is Err && e@
                    == ReadErrorModel::Truncated && final(self).cursor() == old(self).cursor(),
            },
    {
        self.reader.read_bytes_exact(16)
    }

    /// Steps over the padding of the trailer, which brings the cursor to the last byte
    /// before a multiple of 16. Where the padding is all there, this never fails.
    pub fn read_padding(&mut self) -> (done: Result<(), ReadError>)
        ensures
            final(self).continues(old(self)),
            match done {
                Ok(_) => padding_at(old(self).data(), old(self).at()) matches Ok(
                    (_, used),
                ) && final(self).cursor() == old(self).cursor() + used && (final(self).cursor()
                    + 1) % 16 == 0,
                Err(e) => padding_at(old(self).data(), old(self).at()) is Err && e@
                    == ReadErrorModel::Truncated && final(self).cursor() == old(self).cursor(),
            },
    {
        let cursor = self.reader.current_cursor();
        let remain = (16 - cursor % 16) - 1;
        if remain > 0 {
            let _ = self.reader.read_bytes_exact(remain)?;
        }
        let cursor = self.reader.current_cursor();
        if cursor % 16 == 15 {
            Ok(())
        } else {
            Err(ReadError::MisalignedFooter)
        }
    }

    /// Reads the four bytes that come before the trailing version, and tells by how many
    /// bytes the version that follows is cut short: `None` where the four bytes are the zeros
    /// of a well-formed file.
    pub fn read_footer2(&mut self) -> (correction: Result<Option<usize>, ReadError>)
        requires
            old(self).version() is Some,
        ensures
            final(self).continues(old(self)),
            match correction {
                Ok(correction) => footer2_at(
                    old(self).data(),
                    old(self).at(),
                    old(self).version().unwrap().major(),
                    old(self).version().unwrap().minor(),
                ) matches Ok((value, used)) && final(self).cursor() == old(self).cursor() + used
                    && match correction {
                    Some(correction) => value == Some(correction as nat),
                    None => value is None,
                },
                Err(e) => footer2_at(
                    old(self).data(),
                    old(self).at(),
                    old(self).version().unwrap().major(),
                    old(self).version().unwrap().minor(),
                ) matches Err(reason) && e@ == reason,
            },
    {
        let bytes = self.reader.read_bytes_exact(4)?;
        if is_all_zero(&bytes) {
            return Ok(None);
        }
        let version = match &self.version {
            Some(version) => version.to_u8_le(),
            None => [0, 0, 0, 0],
        };
        let mut i: usize = 0;
        while i < 3
            invariant
                i <= 3,
                bytes@.len() == 4,
                version@.len() == 4,
                self.continues(old(self)),
                self.cursor() == old(self).cursor() + 4,
                bytes_at(old(self).data(), old(self).at(), 4) == Ok::<
                    (Seq<u8>, nat),
                    ReadErrorModel,
                >((bytes@, 4)),
                bytes@ != zeros(4),
                self.version() matches Some(v) && version@[0] == packed_version(
                    v.major(),
                    v.minor(),
                ) % 0x100 && version@[1] == (packed_version(v.major(), v.minor()) / 0x100) % 0x100,
                forall|j: int|
                    0 <= j < i ==> !#[trigger] version_starts_at(
                        bytes@,
                        j,
                        self.version().unwrap().major(),
                        self.version().unwrap().minor(),
                    ),
            decreases 3 - i,
        {
            if bytes[i] == version[0] && bytes[i + 1] == version[1] {
                return Ok(Some(i));
            }
            i = i + 1;
        }
        Err(ReadError::InvalidFooter2Pattern)
    }

    /// Reads the block of 120 bytes of the trailer, which must all be zero.
    pub fn read_footer3(&mut self) -> (done: Result<(), ReadError>)
        ensures
            final(self).continues(old(self)),
            match done {
                Ok(_) => footer3_at(old(self).data(), old(self).at()) matches Ok(
                    (_, used),
                ) && final(self).cursor() == old(self).cursor() + used,
                Err(e) => footer3_at(old(self).data(), old(self).at()) matches Err(
                    reason,
                ) && e@ == reason,
            },
    {
        let bytes = self.reader.read_bytes_exact(120)?;
        if is_all_zero(&bytes) {
            Ok(())
        } else {
            Err(ReadError::Footer3Mismatch(bytes))
        }
    }

    /// Reads the last 16 bytes of the trailer, which must be the magic tail.
    pub fn read_footer4(&mut self) -> (done: Result<(), ReadError>)
        ensures
            final(self).continues(old(self)),
            match done {
                Ok(_) => footer4_at(old(self).data(), old(self).at()) matches Ok(
                    (_, used),
                ) && final(self).cursor() == old(self).cursor() + used,
                Err(e) => footer4_at(old(self).data(), old(self).at()) matches Err(
                    reason,
                ) && e@ == reason,
            },
    {
        let bytes = self.reader.read_bytes_exact(16)?;
        if is_magic_tail(&bytes) {
            Ok(())
        } else {
            Err(ReadError::Footer4Mismatch(bytes))
        }
    }
}

impl BaseFBXReader for BinaryFBX {
    /// Reads the document from the cursor on: the version, the nodes and the trailer.
    fn read(&mut self) -> (object: Result<Object, ReadError>)
        ensures
            final(self).data() == old(self).data(),
            match object {
                Ok(object) => document_at(old(self).data(), old(self).at())
                    matches Ok((document, used)) && object@ == document && final(self).cursor()
                    == old(self).cursor() + used && final(self).version() is Some
                    && final(self).version().unwrap().major() == document.major
                    && final(self).version().unwrap().minor() == document.minor,
                Err(e) => document_at(old(self).data(), old(self).at()) matches Err(
                    reason,
                ) && e@ == reason,
            },
    {
        let version = self.read_version()?;
        self.version = Some(version);
        let children = self.read_nodes()?;
        let footer = self.read_footer1()?;
        self.read_padding()?;
        let correction = self.read_footer2()?;
        match correction {
            None => {
                let _ = self.read_version()?;
            },
            Some(correction) => {
                let _ = self.reader.read_bytes_exact(correction)?;
            },
        }
        self.read_footer3()?;
        self.read_footer4()?;
        Ok(Object::new(version, children, Some(footer)))
    }
}

} // verus!
