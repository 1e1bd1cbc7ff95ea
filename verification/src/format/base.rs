//! The document tree: attributes, nodes and documents, each with its mathematical value.
use crate::error::{ReadError, ReadErrorModel};
use crate::format::version::Version;
use crate::text::utf8_text;
use vstd::prelude::*;
use vstd::utf8::{decode_utf8, valid_utf8};

verus! {

/// An attribute as a mathematical value. A float stands here as its IEEE-754 bit pattern.
pub enum AttributeModel {
    Bool(bool),
    Int16(i16),
    Int32(i32),
    Int64(i64),
    Float32(u32),
    Float64(u64),
    BoolArray(Seq<bool>),
    Int32Array(Seq<i32>),
    Int64Array(Seq<i64>),
    Float32Array(Seq<u32>),
    Float64Array(Seq<u64>),
    Raw(Seq<u8>),
    Str(Seq<u8>),
}

/// A node as a mathematical value.
pub struct NodeModel {
    pub name: Seq<u8>,
    pub attributes: Seq<AttributeModel>,
    pub children: Seq<NodeModel>,
}

/// A document as a mathematical value.
pub struct ObjectModel {
    pub major: u16,
    pub minor: u16,
    pub children: Seq<NodeModel>,
    pub footer: Option<Seq<u8>>,
}

/// A typed payload attached to a node.
///
/// The two float variants and the two float arrays hold IEEE-754 bit patterns, which
/// `f32::from_bits` and `f64::from_bits` turn into numbers.
#[derive(Debug, PartialEq)]
pub enum Type {
    Bool(bool),
    Int16(i16),
    Int32(i32),
    Int64(i64),
    Float32(u32),
    Float64(u64),
    BoolArray(Vec<bool>),
    Int32Array(Vec<i32>),
    Int64Array(Vec<i64>),
    Float32Array(Vec<u32>),
    Float64Array(Vec<u64>),
    /// An opaque blob.
    Raw(Vec<u8>),
    /// A byte string. It need not be UTF-8, and is kept byte for byte.
    Str(Vec<u8>),
}

impl View for Type {
    type V = AttributeModel;

    open spec fn view(&self) -> AttributeModel {
        match self {
            Type::Bool(b) => AttributeModel::Bool(*b),
            Type::Int16(i) => AttributeModel::Int16(*i),
            Type::Int32(i) => AttributeModel::Int32(*i),
            Type::Int64(i) => AttributeModel::Int64(*i),
            Type::Float32(bits) => AttributeModel::Float32(*bits),
            Type::Float64(bits) => AttributeModel::Float64(*bits),
            Type::BoolArray(v) => AttributeModel::BoolArray(v@),
            Type::Int32Array(v) => AttributeModel::Int32Array(v@),
            Type::Int64Array(v) => AttributeModel::Int64Array(v@),
            Type::Float32Array(v) => AttributeModel::Float32Array(v@),
            Type::Float64Array(v) => AttributeModel::Float64Array(v@),
            Type::Raw(v) => AttributeModel::Raw(v@),
            Type::Str(v) => AttributeModel::Str(v@),
        }
    }
}

impl Clone for Type {
    fn clone(&self) -> (copy: Type)
        ensures
            copy@ == self@,
    {
        match self {
            Type::Bool(b) => Type::Bool(*b),
            Type::Int16(i) => Type::Int16(*i),
            Type::Int32(i) => Type::Int32(*i),
            Type::Int64(i) => Type::Int64(*i),
            Type::Float32(bits) => Type::Float32(*bits),
            Type::Float64(bits) => Type::Float64(*bits),
            Type::BoolArray(v) => Type::BoolArray(v.clone()),
            Type::Int32Array(v) => Type::Int32Array(v.clone()),
            Type::Int64Array(v) => Type::Int64Array(v.clone()),
            Type::Float32Array(v) => Type::Float32Array(v.clone()),
            Type::Float64Array(v) => Type::Float64Array(v.clone()),
            Type::Raw(v) => Type::Raw(v.clone()),
            Type::Str(v) => Type::Str(v.clone()),
        }
    }
}

impl Type {
    pub fn as_bool(&self) -> (result: Option<bool>)
        ensures
            result == (match self@ {
                AttributeModel::Bool(value) => Some(value),
                _ => None,
            }),
    {
        match self {
            Type::Bool(value) => Some(*value),
            _ => None,
        }
    }

    pub fn as_int16(&self) -> (result: Option<i16>)
        ensures
            result == (match self@ {
                AttributeModel::Int16(value) => Some(value),
                _ => None,
            }),
    {
        match self {
            Type::Int16(value) => Some(*value),
            _ => None,
        }
    }

    pub fn as_int32(&self) -> (result: Option<i32>)
        ensures
            result == (match self@ {
                AttributeModel::Int32(value) => Some(value),
                _ => None,
            }),
    {
        match self {
            Type::Int32(value) => Some(*value),
            _ => None,
        }
    }

    pub fn as_int64(&self) -> (result: Option<i64>)
        ensures
            result == (match self@ {
                AttributeModel::Int64(value) => Some(value),
                _ => None,
            }),
    {
        match self {
            Type::Int64(value) => Some(*value),
            _ => None,
        }
    }

    /// The bit pattern of a single-precision float.
    pub fn as_float(&self) -> (result: Option<u32>)
        ensures
            result == (match self@ {
                AttributeModel::Float32(value) => Some(value),
                _ => None,
            }),
    {
        match self {
            Type::Float32(value) => Some(*value),
            _ => None,
        }
    }

    /// The bit pattern of a double-precision float.
    pub fn as_double(&self) -> (result: Option<u64>)
        ensures
            result == (match self@ {
                AttributeModel::Float64(value) => Some(value),
                _ => None,
            }),
    {
        match self {
            Type::Float64(value) => Some(*value),
            _ => None,
        }
    }

    pub fn as_int32_array(&self) -> (result: Option<Vec<i32>>)
        ensures
            match self@ {
                AttributeModel::Int32Array(value) => result matches Some(copy) && copy@ == value,
                _ => result is None,
            },
    {
        match self {
            Type::Int32Array(value) => Some(value.clone()),
            _ => None,
        }
    }

    pub fn as_int64_array(&self) -> (result: Option<Vec<i64>>)
        ensures
            match self@ {
                AttributeModel::Int64Array(value) => result matches Some(copy) && copy@ == value,
                _ => result is None,
            },
    {
        match self {
            Type::Int64Array(value) => Some(value.clone()),
            _ => None,
        }
    }

    /// The bit patterns of an array of single-precision floats.
    pub fn as_float_array(&self) -> (result: Option<Vec<u32>>)
        ensures
            match self@ {
                AttributeModel::Float32Array(value) => result matches Some(copy) && copy@ == value,
                _ => result is None,
            },
    {
        match self {
            Type::Float32Array(value) => Some(value.clone()),
            _ => None,
        }
    }

    /// The bit patterns of an array of double-precision floats.
    pub fn as_double_array(&self) -> (result: Option<Vec<u64>>)
        ensures
            match self@ {
                AttributeModel::Float64Array(value) => result matches Some(copy) && copy@ == value,
                _ => result is None,
            },
    {
        match self {
            Type::Float64Array(value) => Some(value.clone()),
            _ => None,
        }
    }

    pub fn as_binary(&self) -> (result: Option<Vec<u8>>)
        ensures
            match self@ {
                AttributeModel::Raw(value) => result matches Some(copy) && copy@ == value,
                _ => result is None,
            },
    {
        match self {
            Type::Raw(value) => Some(value.clone()),
            _ => None,
        }
    }

    /// The bytes of a string attribute, as they stand in the file.
    pub fn as_str(&self) -> (result: Option<Vec<u8>>)
        ensures
            match self@ {
                AttributeModel::Str(value) => result matches Some(copy) && copy@ == value,
                _ => result is None,
            },
    {
        match self {
            Type::Str(value) => Some(value.clone()),
            _ => None,
        }
    }

    /// The text of a string attribute. A string attribute whose bytes are not UTF-8 has
    /// none, and is reported as `InvalidUtf8` with its bytes.
    pub fn as_utf8(&self) -> (result: Result<Option<String>, ReadError>)
        ensures
            match self@ {
                AttributeModel::Str(bytes) => match result {
                    Ok(text) => text matches Some(text) && text@ == decode_utf8(bytes)
                        && valid_utf8(bytes),
                    Err(e) => !valid_utf8(bytes) && e@ == ReadErrorModel::InvalidUtf8(bytes),
                },
                _ => result matches Ok(None),
            },
    {
        match self {
            Type::Str(bytes) => match utf8_text(bytes.as_slice()) {
                Ok(text) => Ok(Some(text)),
                Err(e) => Err(e),
            },
            _ => Ok(None),
        }
    }
}

/// The attributes in `attributes`, each as a mathematical value.
pub open spec fn attributes_view(attributes: Seq<Type>) -> Seq<AttributeModel> {
    Seq::new(attributes.len(), |i: int| attributes[i]@)
}

/// The nodes in `nodes`, each as a mathematical value.
pub open spec fn nodes_view(nodes: Seq<Node>) -> Seq<NodeModel> {
    Seq::new(nodes.len(), |i: int| nodes[i]@)
}

/// A copy of `attributes`.
pub fn clone_attributes(attributes: &Vec<Type>) -> (copy: Vec<Type>)
    ensures
        attributes_view(copy@) == attributes_view(attributes@),
{
    let mut copy: Vec<Type> = Vec::new();
    let mut i: usize = 0;
    while i < attributes.len()
        invariant
            i <= attributes.len(),
            copy.len() == i,
            forall|j: int| 0 <= j < i ==> copy@[j]@ == attributes@[j]@,
        decreases attributes.len() - i,
    {
        copy.push(attributes[i].clone());
        i = i + 1;
    }
    assert(attributes_view(copy@) =~= attributes_view(attributes@));
    copy
}

/// A copy of `nodes`, subtrees included.
pub fn clone_nodes(nodes: &Vec<Node>) -> (copy: Vec<Node>)
    ensures
        nodes_view(copy@) == nodes_view(nodes@),
    decreases nodes,
{
    let mut copy: Vec<Node> = Vec::new();
    let mut i: usize = 0;
    while i < nodes.len()
        invariant
            i <= nodes.len(),
            copy.len() == i,
            forall|j: int| 0 <= j < i ==> copy@[j]@ == nodes@[j]@,
        decreases nodes.len() - i,
    {
        copy.push(nodes[i].clone());
        i = i + 1;
    }
    assert(nodes_view(copy@) =~= nodes_view(nodes@));
    copy
}

/// A named record with attributes and ordered children.
#[derive(Debug, PartialEq)]
pub struct Node {
    name: Vec<u8>,
    attributes: Vec<Type>,
    children: Vec<Node>,
}

impl View for Node {
    type V = NodeModel;

    closed spec fn view(&self) -> NodeModel {
        self.model()
    }
}

impl Clone for Node {
    fn clone(&self) -> (copy: Node)
        ensures
            copy@ == self@,
        decreases self,
    {
        let copy = Node {
            name: self.name.clone(),
            attributes: clone_attributes(&self.attributes),
            children: clone_nodes(&self.children),
        };
        proof {
            copy.lemma_view();
            self.lemma_view();
        }
        copy
    }
}

impl Node {
    /// The node as a mathematical value, subtree included.
    spec fn model(&self) -> NodeModel
        decreases self,
    {
        NodeModel {
            name: self.name@,
            attributes: attributes_view(self.attributes@),
            children: Seq::new(
                self.children@.len(),
                |i: int|
                    if 0 <= i < self.children@.len() {
                        self.children@[i].model()
                    } else {
                        arbitrary()
                    },
            ),
        }
    }

    /// The view of a node is made of the views of its parts.
    proof fn lemma_view(&self)
        ensures
            self@ == (NodeModel {
                name: self.name@,
                attributes: attributes_view(self.attributes@),
                children: nodes_view(self.children@),
            }),
    {
        assert(self@.children =~= nodes_view(self.children@));
    }

    pub fn new(name: Vec<u8>, attributes: Vec<Type>, children: Vec<Node>) -> (node: Node)
        ensures
            node@ == (NodeModel {
                name: name@,
                attributes: attributes_view(attributes@),
                children: nodes_view(children@),
            }),
    {
        let node = Node { name, attributes, children };
        proof {
            node.lemma_view();
        }
        node
    }

    /// The name, as the bytes that the file holds.
    pub fn name(&self) -> (name: Vec<u8>)
        ensures
            name@ == self@.name,
    {
        self.name.clone()
    }

    pub fn attributes(&self) -> (attributes: Vec<Type>)
        ensures
            attributes_view(attributes@) == self@.attributes,
    {
        clone_attributes(&self.attributes)
    }

    pub fn children(&self) -> (children: Vec<Node>)
        ensures
            nodes_view(children@) == self@.children,
    {
        proof {
            self.lemma_view();
        }
        clone_nodes(&self.children)
    }
}

/// A parsed document: its version, its top-level nodes and the opaque block of its trailer.
#[derive(Debug, PartialEq)]
pub struct Object {
    version: Version,
    children: Vec<Node>,
    footer: Option<Vec<u8>>,
}

impl View for Object {
    type V = ObjectModel;

    closed spec fn view(&self) -> ObjectModel {
        ObjectModel {
            major: self.version.major(),
            minor: self.version.minor(),
            children: nodes_view(self.children@),
            footer: match self.footer {
                Some(bytes) => Some(bytes@),
                None => None,
            },
        }
    }
}

impl Object {
    pub fn new(version: Version, children: Vec<Node>, footer: Option<Vec<u8>>) -> (object: Object)
        ensures
            object@ == (ObjectModel {
                major: version.major(),
                minor: version.minor(),
                children: nodes_view(children@),
                footer: match footer {
                    Some(bytes) => Some(bytes@),
                    None => None,
                },
            }),
    {
        Object { version, children, footer }
    }

    pub fn version(self) -> (version: Version)
        ensures
            version.major() == self@.major,
            version.minor() == self@.minor,
    {
        self.version
    }

    pub fn children(&self) -> (children: Vec<Node>)
        ensures
            nodes_view(children@) == self@.children,
    {
        clone_nodes(&self.children)
    }

    /// The 16 bytes between the node tree and the padded trailer.
    pub fn footer(&self) -> (footer: Option<Vec<u8>>)
        ensures
            match self@.footer {
                Some(bytes) => footer matches Some(copy) && copy@ == bytes,
                None => footer is None,
            },
    {
        match &self.footer {
            Some(bytes) => Some(bytes.clone()),
            None => None,
        }
    }
}

/// What a reader of one dialect of the format offers.
pub trait BaseFBXReader: std::fmt::Debug {
    fn read(&mut self) -> Result<Object, ReadError>;
}

/// What a writer of the format offers. Writing is not part of this library yet.
pub trait BaseFBXWriter: std::fmt::Debug {

}

/// Marks the types that can stand as an attribute's payload.
pub trait Attribute: std::fmt::Debug {

}

} // verus!
