use fbx::error::ReadError;
use fbx::format::{Node, Object, Type, Version};
use fbx::query::{bytes_equal, find_first, FBXNodeReader, FBXReader};
use fbx::text::utf8_text;

fn leaf(name: &[u8], attributes: Vec<Type>) -> Node {
    Node::new(name.to_vec(), attributes, vec![])
}

fn sample() -> FBXReader {
    let extension = Node::new(
        b"FBXHeaderExtension".to_vec(),
        vec![],
        vec![
            leaf(b"FBXHeaderVersion", vec![Type::Int32(1003)]),
            leaf(b"Creator", vec![Type::Str(b"Blender (stable FBX IO) - 2.83.20".to_vec())]),
            leaf(b"Item", vec![Type::Int32(1)]),
            leaf(b"Other", vec![]),
            leaf(b"Item", vec![Type::Int32(2), Type::Int32(3)]),
            leaf(b"item", vec![Type::Int32(4)]),
        ],
    );
    let roots = vec![
        leaf(b"First", vec![Type::Bool(true)]),
        extension,
        leaf(b"First", vec![Type::Bool(false)]),
    ];
    FBXReader::from(Object::new(Version::from(7, 4), roots, None))
}

#[test]
fn header_version_and_creator_are_found() {
    let reader = sample();
    let extension = reader.get("FBXHeaderExtension").unwrap();
    let version = extension.get_node("FBXHeaderVersion").unwrap().get_value().unwrap();
    assert_eq!(version.as_int32(), Some(1003));
    assert_eq!(version.as_int64(), None);
    let creator = extension.get_node("Creator").unwrap().get_value().unwrap();
    assert!(creator.as_str().unwrap().starts_with(b"Blender"));
    assert!(creator.as_utf8().unwrap().unwrap().starts_with("Blender"));
}

#[test]
fn get_gives_the_first_root_of_that_name() {
    let reader = sample();
    let first = reader.get("First").unwrap();
    assert_eq!(first.get_values(), vec![Type::Bool(true)]);
    assert!(reader.get("Second").is_none());
    assert!(reader.get("first").is_none());
    assert!(reader.get("Firs").is_none());
    assert!(reader.get("First ").is_none());
    assert!(reader.get("").is_none());
    // Children are not looked through.
    assert!(reader.get("Creator").is_none());
}

#[test]
fn get_node_gives_the_first_child_of_that_name() {
    let extension = sample().get("FBXHeaderExtension").unwrap();
    assert_eq!(extension.get_node("Item").unwrap().get_values(), vec![Type::Int32(1)]);
    assert_eq!(extension.get_node("item").unwrap().get_values(), vec![Type::Int32(4)]);
    assert!(extension.get_node("Missing").is_none());
    assert!(extension.get_node("First").is_none());
}

#[test]
fn get_nodes_gives_the_children_of_that_name_in_order() {
    let extension = sample().get("FBXHeaderExtension").unwrap();
    let items: Vec<Vec<Type>> =
        extension.get_nodes("Item").iter().map(|node| node.get_values()).collect();
    assert_eq!(items, vec![vec![Type::Int32(1)], vec![Type::Int32(2), Type::Int32(3)]]);
    assert_eq!(extension.get_nodes("Other").len(), 1);
    assert_eq!(extension.get_nodes("Missing").len(), 0);
    assert_eq!(sample().get("First").unwrap().get_nodes("Item").len(), 0);
}

#[test]
fn get_value_needs_exactly_one_attribute() {
    let extension = sample().get("FBXHeaderExtension").unwrap();
    assert_eq!(extension.get_value(), None);
    assert_eq!(extension.get_node("Other").unwrap().get_value(), None);
    assert_eq!(extension.get_node("Item").unwrap().get_value(), Some(Type::Int32(1)));
    let two = &extension.get_nodes("Item")[1];
    assert_eq!(two.get_values().len(), 2);
    assert_eq!(two.get_value(), None);
}

#[test]
fn names_that_are_not_ascii_are_compared_by_their_utf8_bytes() {
    let node = Node::new(
        b"root".to_vec(),
        vec![],
        vec![leaf("Stra\u{df}e".as_bytes(), vec![Type::Int16(1)]), leaf(b"Stra\xdfe", vec![])],
    );
    let reader = FBXNodeReader::from(node);
    assert_eq!(reader.get_node("Stra\u{df}e").unwrap().get_values(), vec![Type::Int16(1)]);
    assert_eq!(reader.get_nodes("Stra\u{df}e").len(), 1);
}

#[test]
fn find_first_takes_bytes() {
    let nodes = vec![leaf(b"a\x00\x01b", vec![Type::Int16(7)]), leaf(b"\xff", vec![])];
    assert_eq!(find_first(&nodes, b"a\x00\x01b"), Some(leaf(b"a\x00\x01b", vec![Type::Int16(7)])));
    assert_eq!(find_first(&nodes, b"\xff"), Some(leaf(b"\xff", vec![])));
    assert_eq!(find_first(&nodes, b"a"), None);
    assert_eq!(find_first(&vec![], b"a"), None);
}

#[test]
fn bytes_are_equal_where_each_byte_is() {
    assert!(bytes_equal(b"", b""));
    assert!(bytes_equal(b"abc", b"abc"));
    assert!(!bytes_equal(b"abc", b"abd"));
    assert!(!bytes_equal(b"abc", b"ab"));
    assert!(!bytes_equal(b"ab", b"abc"));
    assert!(!bytes_equal(b"xbc", b"abc"));
}

#[test]
fn each_accessor_gives_its_own_variant_only() {
    let values = vec![
        Type::Bool(true),
        Type::Int16(-1),
        Type::Int32(-2),
        Type::Int64(-3),
        Type::Float32(1.5f32.to_bits()),
        Type::Float64(2.5f64.to_bits()),
        Type::BoolArray(vec![true]),
        Type::Int32Array(vec![4]),
        Type::Int64Array(vec![5]),
        Type::Float32Array(vec![0.5f32.to_bits()]),
        Type::Float64Array(vec![0.25f64.to_bits()]),
        Type::Raw(vec![6]),
        Type::Str(vec![b'7']),
    ];
    for (i, value) in values.iter().enumerate() {
        assert_eq!(value.as_bool(), if i == 0 { Some(true) } else { None });
        assert_eq!(value.as_int16(), if i == 1 { Some(-1) } else { None });
        assert_eq!(value.as_int32(), if i == 2 { Some(-2) } else { None });
        assert_eq!(value.as_int64(), if i == 3 { Some(-3) } else { None });
        assert_eq!(value.as_float().map(f32::from_bits), if i == 4 { Some(1.5) } else { None });
        assert_eq!(value.as_double().map(f64::from_bits), if i == 5 { Some(2.5) } else { None });
        assert_eq!(value.as_int32_array(), if i == 7 { Some(vec![4]) } else { None });
        assert_eq!(value.as_int64_array(), if i == 8 { Some(vec![5]) } else { None });
        assert_eq!(
            value.as_float_array(),
            if i == 9 { Some(vec![0.5f32.to_bits()]) } else { None }
        );
        assert_eq!(
            value.as_double_array(),
            if i == 10 { Some(vec![0.25f64.to_bits()]) } else { None }
        );
        assert_eq!(value.as_binary(), if i == 11 { Some(vec![6]) } else { None });
        assert_eq!(value.as_str(), if i == 12 { Some(vec![b'7']) } else { None });
        assert_eq!(value.as_utf8(), Ok(if i == 12 { Some("7".to_string()) } else { None }));
        assert_eq!(&value.clone(), value);
    }
}

#[test]
fn text_of_a_string_attribute() {
    assert_eq!(Type::Str(b"Model".to_vec()).as_utf8(), Ok(Some("Model".to_string())));
    assert_eq!(Type::Str(vec![]).as_utf8(), Ok(Some(String::new())));
    assert_eq!(
        Type::Str("gr\u{fc}n \u{1f600}".as_bytes().to_vec()).as_utf8(),
        Ok(Some("gr\u{fc}n \u{1f600}".to_string()))
    );
    assert_eq!(
        Type::Str(b"Model\x00\x01Cube".to_vec()).as_utf8(),
        Ok(Some("Model\u{0}\u{1}Cube".to_string()))
    );
    for bytes in [&b"\xff"[..], b"ab\x80", b"\xc3", b"\xed\xa0\x80", b"\xc0\xaf"] {
        assert_eq!(
            Type::Str(bytes.to_vec()).as_utf8(),
            Err(ReadError::InvalidUtf8(bytes.to_vec()))
        );
        assert_eq!(utf8_text(bytes), Err(ReadError::InvalidUtf8(bytes.to_vec())));
    }
    // Bytes that are not a string attribute are not read as text.
    assert_eq!(Type::Raw(b"\xff".to_vec()).as_utf8(), Ok(None));
    assert_eq!(utf8_text(b"abc"), Ok("abc".to_string()));
}

#[test]
fn copies_of_nodes_are_equal_to_them() {
    let node = Node::new(
        b"a".to_vec(),
        vec![Type::Int32Array(vec![1, 2]), Type::Str(b"s".to_vec())],
        vec![
            leaf(b"b", vec![Type::Bool(true)]),
            Node::new(b"c".to_vec(), vec![], vec![leaf(b"d", vec![])]),
        ],
    );
    assert_eq!(node.clone(), node);
    assert_eq!(node.children()[1].children(), vec![leaf(b"d", vec![])]);
    assert_eq!(node.name(), b"a".to_vec());
    let object = Object::new(Version::from(7, 7), vec![node.clone()], Some(vec![1, 2]));
    assert_eq!(object.children(), vec![node]);
    assert_eq!(object.footer(), Some(vec![1, 2]));
    assert!(object.version() == Version::from(7, 7));
    let object = Object::new(Version::from(7, 7), vec![], None);
    assert_eq!(object.footer(), None);
}
