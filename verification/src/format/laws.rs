//! What holds of every document that the grammar describes.
use crate::binary::reader::{bytes_at, u32_le_at, Parsed};
use crate::error::ReadErrorModel;
use crate::format::base::NodeModel;
use crate::format::grammar::{
    array_at, array_len, attribute_at, attributes_at, children_at, document_at, elements_at,
    elements_len, extended, footer2_at, header_at, header_len, is_wide, magic_tail,
    node_body_at, nodes_after, nodes_at, padding_at, padding_len, remaining, trailer_at,
    version_at, ArrayKind, NodeHeader,
};
use crate::inflate::zlib_inflated;
use vstd::prelude::*;

verus! {

/// To put nothing in front changes nothing.
pub proof fn lemma_extended_empty<T>(rest: Parsed<Seq<T>>)
    ensures
        extended(Seq::empty(), 0, rest) == rest,
{
    if let Ok((more, n)) = rest {
        assert(Seq::<T>::empty() + more =~= more);
    }
}

/// To put `second` in front and then `first` is to put `first + second` in front.
pub proof fn lemma_extended_twice<T>(
    first: Seq<T>,
    first_used: nat,
    second: Seq<T>,
    second_used: nat,
    rest: Parsed<Seq<T>>,
)
    ensures
        extended(first, first_used, extended(second, second_used, rest)) == extended(
            first + second,
            first_used + second_used,
            rest,
        ),
{
    if let Ok((more, n)) = rest {
        assert(first + (second + more) =~= (first + second) + more);
    }
}

/// A list of siblings is its first node, where it has one, and the list that follows it.
pub proof fn lemma_nodes_step(
    data: Seq<u8>,
    pos: int,
    wide: bool,
    header: NodeHeader,
    node: NodeModel,
    body: nat,
)
    requires
        header_at(data, pos, wide) == Ok::<(NodeHeader, nat), ReadErrorModel>(
            (header, header_len(wide)),
        ),
        !header.is_sentinel(),
        node_body_at(data, pos + header_len(wide), wide, header) == Ok::<
            (NodeModel, nat),
            ReadErrorModel,
        >((node, body)),
    ensures
        nodes_at(data, pos, wide) == extended(
            seq![node],
            header_len(wide) + body,
            nodes_at(data, pos + header_len(wide) + body, wide),
        ),
{
    let h = header_len(wide);
    let next_pos = pos + h + body;
    match header_at(data, next_pos, wide) {
        Ok((next, h2)) => {
            let rest = nodes_after(data, next_pos + h2, wide, next);
            assert(nodes_after(data, pos + h, wide, header) == extended(
                seq![node],
                body + h2,
                rest,
            ));
            lemma_extended_twice(Seq::empty(), h, seq![node], body + h2, rest);
            lemma_extended_twice(seq![node], h + body, Seq::empty(), h2, rest);
            assert(Seq::<NodeModel>::empty() + seq![node] =~= seq![node] + Seq::empty());
        },
        Err(e) => {},
    }
}

/// The children of a node, where the position lies before the end of its record, are a list
/// of siblings and the children that follow it.
pub proof fn lemma_children_step(data: Seq<u8>, pos: int, wide: bool, end_offset: u64)
    requires
        pos < end_offset,
    ensures
        children_at(data, pos, wide, end_offset) == match nodes_at(data, pos, wide) {
            Ok((list, used)) => extended(
                list,
                used,
                children_at(data, pos + used, wide, end_offset),
            ),
            Err(e) => Err(e),
        },
{
    if let Ok((header, h)) = header_at(data, pos, wide) {
        lemma_extended_empty(nodes_after(data, pos + h, wide, header));
        if let Ok((list, used)) = nodes_after(data, pos + h, wide, header) {
            assert(Seq::<NodeModel>::empty() + list =~= list);
        }
    }
}

/// An array that was read holds as many elements as it was read for.
pub proof fn lemma_elements_len(data: Seq<u8>, pos: int, kind: ArrayKind, count: u32)
    ensures
        elements_at(data, pos, kind, count) matches Ok((array, used)) ==> array_len(array)
            == count && used == elements_len(kind, count),
{
}

/// An array attribute holds as many elements as its header says, whether its elements stand
/// in the file as they are or deflated.
pub proof fn lemma_array_len(data: Seq<u8>, pos: int, kind: ArrayKind)
    ensures
        array_at(data, pos, kind) matches Ok((array, used)) ==> u32_le_at(data, pos) matches Ok(
            (count, _),
        ) && array_len(array) == count && pos + used <= data.len(),
{
    if let Ok((count, _)) = u32_le_at(data, pos) {
        lemma_elements_len(data, pos + 12, kind, count);
        if let Ok((encoded_len, _)) = u32_le_at(data, pos + 8) {
            if let Ok((encoded, _)) = bytes_at(data, pos + 12, encoded_len as nat) {
                let limit = elements_len(kind, count) as u64;
                lemma_elements_len(zlib_inflated(encoded, limit), 0, kind, count);
            }
        }
    }
}

/// An attribute lies within the data that it is read from.
pub proof fn lemma_attribute_len(data: Seq<u8>, pos: int)
    ensures
        attribute_at(data, pos) matches Ok((_, used)) ==> 0 <= pos && pos + used <= data.len()
            && used >= 1,
{
    if bytes_at(data, pos, 1) is Ok {
        lemma_array_len(data, pos + 1, ArrayKind::Bool);
        lemma_array_len(data, pos + 1, ArrayKind::Int32);
        lemma_array_len(data, pos + 1, ArrayKind::Int64);
        lemma_array_len(data, pos + 1, ArrayKind::Float32);
        lemma_array_len(data, pos + 1, ArrayKind::Float64);
    }
}

/// Attributes that were read lie within the data, and there are as many of them as were
/// asked for.
pub proof fn lemma_attributes_len(data: Seq<u8>, pos: int, count: nat)
    ensures
        attributes_at(data, pos, count) matches Ok((attributes, used)) ==> attributes.len()
            == count && (pos <= data.len() ==> pos + used <= data.len()),
    decreases count,
{
    if count > 0 {
        lemma_attribute_len(data, pos);
        if let Ok((first, used)) = attribute_at(data, pos) {
            lemma_attributes_len(data, pos + used, (count - 1) as nat);
        }
    }
}

/// The rest of a list of siblings lies within the data.
pub proof fn lemma_nodes_after_len(data: Seq<u8>, pos: int, wide: bool, header: NodeHeader)
    ensures
        nodes_after(data, pos, wide, header) matches Ok((_, used)) ==> (pos <= data.len() ==> pos
            + used <= data.len()),
    decreases remaining(data, pos), 2nat,
{
    if !header.is_sentinel() {
        lemma_node_body_len(data, pos, wide, header);
        if let Ok((node, used)) = node_body_at(data, pos, wide, header) {
            if let Ok((next, h)) = header_at(data, pos + used, wide) {
                lemma_nodes_after_len(data, pos + used + h, wide, next);
            }
        }
    }
}

/// Every node that was read has the name and as many attributes as its header says, lies
/// within the data, and ends at or after the end of the record that its header gives.
pub proof fn lemma_node_body_len(data: Seq<u8>, pos: int, wide: bool, header: NodeHeader)
    ensures
        node_body_at(data, pos, wide, header) matches Ok((node, used)) ==> node.name.len()
            == header.name_length && node.attributes.len() == header.num_attributes && 0 <= pos
            && pos + used <= data.len() && pos + used >= header.end_offset,
    decreases remaining(data, pos), 1nat,
{
    if let Ok((name, a)) = bytes_at(data, pos, header.name_length as nat) {
        lemma_attributes_len(data, pos + a, header.num_attributes as nat);
        if let Ok((attributes, b)) = attributes_at(data, pos + a, header.num_attributes as nat) {
            lemma_children_len(data, pos + a + b, wide, header.end_offset);
        }
    }
}

/// The children of a node lie within the data and end at or after the end of its record.
/// Where the position has reached that end, there are no children left to read.
pub proof fn lemma_children_len(data: Seq<u8>, pos: int, wide: bool, end_offset: u64)
    ensures
        children_at(data, pos, wide, end_offset) matches Ok((children, used)) ==> pos + used
            >= end_offset && (pos <= data.len() ==> pos + used <= data.len()) && (pos
            >= end_offset ==> used == 0 && children.len() == 0),
    decreases remaining(data, pos), 0nat,
{
    if pos < end_offset {
        if let Ok((header, h)) = header_at(data, pos, wide) {
            lemma_nodes_after_len(data, pos + h, wide, header);
            if let Ok((list, used)) = nodes_after(data, pos + h, wide, header) {
                lemma_children_len(data, pos + h + used, wide, end_offset);
            }
        }
    }
}

/// A list of siblings lies within the data and takes at least the bytes of its sentinel.
pub proof fn lemma_nodes_len(data: Seq<u8>, pos: int, wide: bool)
    ensures
        nodes_at(data, pos, wide) matches Ok((_, used)) ==> used >= header_len(wide) && 0 <= pos
            && pos + used <= data.len(),
{
    if let Ok((header, h)) = header_at(data, pos, wide) {
        lemma_nodes_after_len(data, pos + h, wide, header);
    }
}

/// After the padding, the next position is a multiple of 16.
pub proof fn lemma_padding_aligns(data: Seq<u8>, pos: int)
    ensures
        padding_at(data, pos) matches Ok((_, used)) ==> (pos + used + 1) % 16 == 0 && used < 16,
{
}

/// Whether `a` and `b` hold the same bytes at their first `len` positions.
pub open spec fn agree(a: Seq<u8>, b: Seq<u8>, len: int) -> bool {
    len <= a.len() && len <= b.len() && forall|i: int| 0 <= i < len ==> a[i] == b[i]
}

/// Bytes that were read from `a` are read from any `b` that holds them too.
pub proof fn lemma_bytes_agree(a: Seq<u8>, b: Seq<u8>, pos: int, len: nat)
    requires
        bytes_at(a, pos, len) is Ok,
        agree(a, b, pos + len),
    ensures
        bytes_at(b, pos, len) == bytes_at(a, pos, len),
{
    assert(a.subrange(pos, pos + len) =~= b.subrange(pos, pos + len));
}

/// An array payload that was read from `a` is read from any `b` that holds its bytes too.
pub proof fn lemma_array_agree(a: Seq<u8>, b: Seq<u8>, pos: int, kind: ArrayKind)
    requires
        array_at(a, pos, kind) matches Ok((_, used)) && agree(a, b, pos + used),
    ensures
        array_at(b, pos, kind) == array_at(a, pos, kind),
{
    lemma_array_len(a, pos, kind);
    lemma_bytes_agree(a, b, pos, 4);
    lemma_bytes_agree(a, b, pos + 4, 4);
    lemma_bytes_agree(a, b, pos + 8, 4);
    if let (Ok((count, _)), Ok((encoding, _)), Ok((encoded_len, _))) = (
        u32_le_at(a, pos),
        u32_le_at(a, pos + 4),
        u32_le_at(a, pos + 8),
    ) {
        if encoding == 0 {
            lemma_bytes_agree(a, b, pos + 12, elements_len(kind, count));
        } else if encoding == 1 {
            lemma_bytes_agree(a, b, pos + 12, encoded_len as nat);
        }
    }
}

/// An attribute that was read from `a` is read from any `b` that holds its bytes too.
pub proof fn lemma_attribute_agree(a: Seq<u8>, b: Seq<u8>, pos: int)
    requires
        attribute_at(a, pos) matches Ok((_, used)) && agree(a, b, pos + used),
    ensures
        attribute_at(b, pos) == attribute_at(a, pos),
{
    lemma_bytes_agree(a, b, pos, 1);
    let tag = a[pos] as char;
    let at = pos + 1;
    if tag == 'C' {
        lemma_bytes_agree(a, b, at, 1);
    } else if tag == 'Y' {
        lemma_bytes_agree(a, b, at, 2);
    } else if tag == 'I' || tag == 'F' {
        lemma_bytes_agree(a, b, at, 4);
    } else if tag == 'L' || tag == 'D' {
        lemma_bytes_agree(a, b, at, 8);
    } else if tag == 'b' {
        lemma_array_agree(a, b, at, ArrayKind::Bool);
    } else if tag == 'i' {
        lemma_array_agree(a, b, at, ArrayKind::Int32);
    } else if tag == 'l' {
        lemma_array_agree(a, b, at, ArrayKind::Int64);
    } else if tag == 'f' {
        lemma_array_agree(a, b, at, ArrayKind::Float32);
    } else if tag == 'd' {
        lemma_array_agree(a, b, at, ArrayKind::Float64);
    } else if tag == 'R' || tag == 'S' {
        lemma_bytes_agree(a, b, at, 4);
        if let Ok((len, _)) = u32_le_at(a, at) {
            lemma_bytes_agree(a, b, at + 4, len as nat);
        }
    }
}

/// Attributes that were read from `a` are read from any `b` that holds their bytes too.
pub proof fn lemma_attributes_agree(a: Seq<u8>, b: Seq<u8>, pos: int, count: nat)
    requires
        attributes_at(a, pos, count) matches Ok((_, used)) && agree(a, b, pos + used),
    ensures
        attributes_at(b, pos, count) == attributes_at(a, pos, count),
    decreases count,
{
    if count > 0 {
        if let Ok((first, used)) = attribute_at(a, pos) {
            lemma_attribute_agree(a, b, pos);
            lemma_attributes_agree(a, b, pos + used, (count - 1) as nat);
        }
    }
}

/// A node header that was read from `a` is read from any `b` that holds its bytes too.
pub proof fn lemma_header_agree(a: Seq<u8>, b: Seq<u8>, pos: int, wide: bool)
    requires
        header_at(a, pos, wide) is Ok,
        agree(a, b, pos + header_len(wide)),
    ensures
        header_at(b, pos, wide) == header_at(a, pos, wide),
{
    if wide {
        lemma_bytes_agree(a, b, pos, 8);
        lemma_bytes_agree(a, b, pos + 8, 8);
        lemma_bytes_agree(a, b, pos + 16, 8);
        lemma_bytes_agree(a, b, pos + 24, 1);
    } else {
        lemma_bytes_agree(a, b, pos, 4);
        lemma_bytes_agree(a, b, pos + 4, 4);
        lemma_bytes_agree(a, b, pos + 8, 4);
        lemma_bytes_agree(a, b, pos + 12, 1);
    }
}

/// The body of a node that was read from `a` is read from any `b` that holds its bytes too.
pub proof fn lemma_node_body_agree(
    a: Seq<u8>,
    b: Seq<u8>,
    pos: int,
    wide: bool,
    header: NodeHeader,
)
    requires
        node_body_at(a, pos, wide, header) matches Ok((_, used)) && agree(a, b, pos + used),
    ensures
        node_body_at(b, pos, wide, header) == node_body_at(a, pos, wide, header),
    decreases remaining(a, pos), 1nat,
{
    if let Ok((name, n)) = bytes_at(a, pos, header.name_length as nat) {
        lemma_bytes_agree(a, b, pos, header.name_length as nat);
        if let Ok((attributes, m)) = attributes_at(a, pos + n, header.num_attributes as nat) {
            lemma_attributes_agree(a, b, pos + n, header.num_attributes as nat);
            lemma_children_agree(a, b, pos + n + m, wide, header.end_offset);
        }
    }
}

/// The rest of a list of siblings that was read from `a` is read from any `b` that holds
/// its bytes too.
pub proof fn lemma_nodes_after_agree(
    a: Seq<u8>,
    b: Seq<u8>,
    pos: int,
    wide: bool,
    header: NodeHeader,
)
    requires
        nodes_after(a, pos, wide, header) matches Ok((_, used)) && agree(a, b, pos + used),
    ensures
        nodes_after(b, pos, wide, header) == nodes_after(a, pos, wide, header),
    decreases remaining(a, pos), 2nat,
{
    if !header.is_sentinel() {
        if let Ok((node, used)) = node_body_at(a, pos, wide, header) {
            lemma_node_body_agree(a, b, pos, wide, header);
            if let Ok((next, h)) = header_at(a, pos + used, wide) {
                lemma_header_agree(a, b, pos + used, wide);
                lemma_nodes_after_agree(a, b, pos + used + h, wide, next);
            }
        }
    }
}

/// The children of a node that were read from `a` are read from any `b` that holds their
/// bytes too.
pub proof fn lemma_children_agree(a: Seq<u8>, b: Seq<u8>, pos: int, wide: bool, end_offset: u64)
    requires
        children_at(a, pos, wide, end_offset) matches Ok((_, used)) && agree(a, b, pos + used),
    ensures
        children_at(b, pos, wide, end_offset) == children_at(a, pos, wide, end_offset),
    decreases remaining(a, pos), 0nat,
{
    if pos < end_offset {
        if let Ok((header, h)) = header_at(a, pos, wide) {
            lemma_header_agree(a, b, pos, wide);
            if let Ok((list, used)) = nodes_after(a, pos + h, wide, header) {
                lemma_nodes_after_agree(a, b, pos + h, wide, header);
                lemma_children_agree(a, b, pos + h + used, wide, end_offset);
            }
        }
    }
}

/// A list of siblings that was read from `a` is read from any `b` that holds its bytes too.
pub proof fn lemma_nodes_agree(a: Seq<u8>, b: Seq<u8>, pos: int, wide: bool)
    requires
        nodes_at(a, pos, wide) matches Ok((_, used)) && agree(a, b, pos + used),
    ensures
        nodes_at(b, pos, wide) == nodes_at(a, pos, wide),
{
    if let Ok((header, h)) = header_at(a, pos, wide) {
        lemma_header_agree(a, b, pos, wide);
        lemma_nodes_after_agree(a, b, pos + h, wide, header);
    }
}

/// A trailer that was read from `a` is read from any `b` that holds its bytes too.
pub proof fn lemma_trailer_agree(a: Seq<u8>, b: Seq<u8>, pos: int, major: u16, minor: u16)
    requires
        trailer_at(a, pos, major, minor) matches Ok((_, used)) && agree(a, b, pos + used),
    ensures
        trailer_at(b, pos, major, minor) == trailer_at(a, pos, major, minor),
{
    lemma_bytes_agree(a, b, pos, 16);
    let padding = pos + 16;
    lemma_bytes_agree(a, b, padding, padding_len(padding));
    let footer2 = padding + padding_len(padding);
    lemma_bytes_agree(a, b, footer2, 4);
    let version = footer2 + 4;
    if let Ok((correction, _)) = footer2_at(a, footer2, major, minor) {
        let rest: nat = match correction {
            None => 4,
            Some(correction) => correction,
        };
        lemma_bytes_agree(a, b, version, rest);
        lemma_bytes_agree(a, b, version + rest, 120);
        lemma_bytes_agree(a, b, version + rest + 120, 16);
    }
}

/// A document that was read from `a` is read from any `b` that holds its bytes too.
pub proof fn lemma_document_agree(a: Seq<u8>, b: Seq<u8>, pos: int)
    requires
        document_at(a, pos) matches Ok((_, used)) && agree(a, b, pos + used),
    ensures
        document_at(b, pos) == document_at(a, pos),
{
    lemma_bytes_agree(a, b, pos, 4);
    if let Ok(((major, minor), n)) = version_at(a, pos) {
        let wide = is_wide(major, minor);
        if let Ok((children, m)) = nodes_at(a, pos + n, wide) {
            lemma_nodes_agree(a, b, pos + n, wide);
            lemma_trailer_agree(a, b, pos + n + m, major, minor);
        }
    }
}

/// A trailer that was read lies within the data and ends with the magic tail.
pub proof fn lemma_trailer_len(data: Seq<u8>, pos: int, major: u16, minor: u16)
    ensures
        trailer_at(data, pos, major, minor) matches Ok((_, used)) ==> 0 <= pos && pos + used
            <= data.len() && used >= 156 && data.subrange(pos + used - 16, pos + used)
            == magic_tail(),
{
    let padding = pos + 16;
    let footer2 = padding + padding_len(padding);
    if let Ok((correction, _)) = footer2_at(data, footer2, major, minor) {
        let rest: nat = match correction {
            None => 4,
            Some(correction) => correction,
        };
        let tail = footer2 + 4 + rest + 120;
        if let Ok((bytes, _)) = bytes_at(data, tail, 16) {
            assert(bytes == data.subrange(tail, tail + 16));
        }
    }
}

/// A document that was read lies within the data and ends with the magic tail.
pub proof fn lemma_document_len(data: Seq<u8>, pos: int)
    ensures
        document_at(data, pos) matches Ok((_, used)) ==> 0 <= pos && pos + used <= data.len()
            && used >= 16 && data.subrange(pos + used - 16, pos + used) == magic_tail(),
{
    if let Ok(((major, minor), n)) = version_at(data, pos) {
        let wide = is_wide(major, minor);
        lemma_nodes_len(data, pos + n, wide);
        if let Ok((children, m)) = nodes_at(data, pos + n, wide) {
            lemma_trailer_len(data, pos + n + m, major, minor);
        }
    }
}

/// A document read from the file that ends where the document ends is the same document,
/// and the whole file is taken: nothing of the file is left over.
pub proof fn lemma_document_takes_its_file(data: Seq<u8>, pos: int)
    requires
        document_at(data, pos) is Ok,
    ensures
        document_at(data, pos) matches Ok((_, used)) && pos + used <= data.len() && document_at(
            data.take(pos + used),
            pos,
        ) == document_at(data, pos),
{
    lemma_document_len(data, pos);
    if let Ok((_, used)) = document_at(data, pos) {
        lemma_document_agree(data, data.take(pos + used), pos);
    }
}

/// An attribute with an unknown type tag is reported with the byte that stands there.
pub proof fn lemma_unknown_tag(data: Seq<u8>, pos: int)
    ensures
        attribute_at(data, pos) matches Err(ReadErrorModel::UnknownAttribute(tag)) ==> 0 <= pos
            < data.len() && tag == data[pos],
{
    if bytes_at(data, pos, 1) is Ok {
        let byte = data[pos];
        assert(data.subrange(pos, pos + 1)[0] == byte);
        assert((byte as char) as u8 == byte);
    }
}

} // verus!
