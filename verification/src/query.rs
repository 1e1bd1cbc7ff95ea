//! Lookup of nodes by name and of attribute values, on a parsed document.
use crate::format::base::{nodes_view, attributes_view, NodeModel, ObjectModel};
use crate::format::{Node, Object, Type};
use vstd::prelude::*;
use vstd::string::StringSliceAdditionalSpecFns;

verus! {

/// The first of `nodes` whose name is `name`, byte for byte.
pub open spec fn first_named(nodes: Seq<NodeModel>, name: Seq<u8>) -> Option<NodeModel>
    decreases nodes.len(),
{
    if nodes.len() == 0 {
        None
    } else if nodes[0].name == name {
        Some(nodes[0])
    } else {
        first_named(nodes.drop_first(), name)
    }
}

/// Those of `nodes` whose name is `name`, byte for byte, in their order.
pub open spec fn all_named(nodes: Seq<NodeModel>, name: Seq<u8>) -> Seq<NodeModel>
    decreases nodes.len(),
{
    if nodes.len() == 0 {
        Seq::empty()
    } else if nodes.last().name == name {
        all_named(nodes.drop_last(), name).push(nodes.last())
    } else {
        all_named(nodes.drop_last(), name)
    }
}

/// Whether `a` and `b` hold the same bytes.
pub fn bytes_equal(a: &[u8], b: &[u8]) -> (same: bool)
    ensures
        same == (a@ == b@),
{
    if a.len() != b.len() {
        return false;
    }
    let mut i: usize = 0;
    while i < a.len()
        invariant
            i <= a.len(),
            a@.len() == b@.len(),
            forall|j: int| 0 <= j < i ==> a@[j] == b@[j],
        decreases a.len() - i,
    {
        if a[i] != b[i] {
            return false;
        }
        i = i + 1;
    }
    assert(a@ =~= b@);
    true
}

/// A copy of the first of `nodes` whose name is `name`.
pub fn find_first(nodes: &Vec<Node>, name: &[u8]) -> (found: Option<Node>)
    ensures
        match found {
            Some(node) => first_named(nodes_view(nodes@), name@) == Some(node@),
            None => first_named(nodes_view(nodes@), name@) is None,
        },
{
    let ghost all = nodes_view(nodes@);
    let mut i: usize = 0;
    assert(all.skip(0) =~= all);
    while i < nodes.len()
        invariant
            i <= nodes.len(),
            all == nodes_view(nodes@),
            first_named(all, name@) == first_named(all.skip(i as int), name@),
        decreases nodes.len() - i,
    {
        proof {
            assert(all.skip(i as int).drop_first() =~= all.skip(i + 1));
        }
        let candidate = nodes[i].name();
        if bytes_equal(candidate.as_slice(), name) {
            return Some(nodes[i].clone());
        }
        i = i + 1;
    }
    None
}

/// A document, offered for lookup.
#[derive(Debug)]
pub struct FBXReader {
    object: Object,
}

impl View for FBXReader {
    type V = ObjectModel;

    closed spec fn view(&self) -> ObjectModel {
        self.object@
    }
}

impl FBXReader {
    pub fn from(object: Object) -> (reader: FBXReader)
        ensures
            reader@ == object@,
    {
        FBXReader { object }
    }

    /// The first top-level node whose name is `name`.
    pub fn get(&self, name: &str) -> (found: Option<FBXNodeReader>)
        ensures
            match found {
                Some(node) => first_named(self@.children, name.spec_bytes()) == Some(node@),
                None => first_named(self@.children, name.spec_bytes()) is None,
            },
    {
        let children = self.object.children();
        match find_first(&children, name.as_bytes()) {
            Some(node) => Some(FBXNodeReader::from(node)),
            None => None,
        }
    }
}

/// A node, offered for lookup.
#[derive(Debug)]
pub struct FBXNodeReader {
    node: Node,
}

impl View for FBXNodeReader {
    type V = NodeModel;

    closed spec fn view(&self) -> NodeModel {
        self.node@
    }
}

impl FBXNodeReader {
    pub fn from(node: Node) -> (reader: FBXNodeReader)
        ensures
            reader@ == node@,
    {
        FBXNodeReader { node }
    }

    /// The children whose name is `name`, in their order.
    pub fn get_nodes(&self, name: &str) -> (found: Vec<FBXNodeReader>)
        ensures
            readers_view(found@) == all_named(self@.children, name.spec_bytes()),
    {
        let children = self.node.children();
        let wanted = name.as_bytes();
        let ghost all = nodes_view(children@);
        let mut found: Vec<FBXNodeReader> = Vec::new();
        let mut i: usize = 0;
        assert(readers_view(found@) =~= all_named(all.take(0), wanted@));
        while i < children.len()
            invariant
                i <= children.len(),
                all == nodes_view(children@),
                readers_view(found@) == all_named(all.take(i as int), wanted@),
            decreases children.len() - i,
        {
            proof {
                assert(all.take(i + 1).drop_last() =~= all.take(i as int));
            }
            let candidate = children[i].name();
            if bytes_equal(candidate.as_slice(), wanted) {
                let reader = FBXNodeReader::from(children[i].clone());
                assert(readers_view(found@.push(reader)) =~= readers_view(found@).push(reader@));
                found.push(reader);
            }
            i = i + 1;
        }
        assert(all.take(children.len() as int) =~= all);
        found
    }

    /// The first child whose name is `name`.
    pub fn get_node(&self, name: &str) -> (found: Option<FBXNodeReader>)
        ensures
            match found {
                Some(node) => first_named(self@.children, name.spec_bytes()) == Some(node@),
                None => first_named(self@.children, name.spec_bytes()) is None,
            },
    {
        let children = self.node.children();
        match find_first(&children, name.as_bytes()) {
            Some(node) => Some(FBXNodeReader::from(node)),
            None => None,
        }
    }

    /// The attributes of the node.
    pub fn get_values(&self) -> (values: Vec<Type>)
        ensures
            attributes_view(values@) == self@.attributes,
    {
        self.node.attributes()
    }

    /// The attribute of the node, where it has exactly one.
    pub fn get_value(&self) -> (value: Option<Type>)
        ensures
            match value {
                Some(value) => self@.attributes.len() == 1 && value@ == self@.attributes[0],
                None => self@.attributes.len() != 1,
            },
    {
        let mut values = self.get_values();
        if values.len() != 1 {
            return None;
        }
        assert(attributes_view(values@)[0] == values@[0]@);
        values.pop()
    }
}

/// The nodes that `readers` offer, each as a mathematical value.
pub open spec fn readers_view(readers: Seq<FBXNodeReader>) -> Seq<NodeModel> {
    Seq::new(readers.len(), |i: int| readers[i]@)
}

} // verus!
