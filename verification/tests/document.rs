use fbx::binary::reader::BinaryReader;
use fbx::error::ReadError;
use fbx::format::binary::{decode_array, read_elements};
use fbx::format::grammar::{ArrayKind, NodeHeader};
use fbx::format::{BaseFBXReader, BinaryFBX, Node, Object, Type, Version};
use fbx::{has_fbx_magic_bytes, read_fbx, FBX_MAGIC_BINARY_BYTES};
use std::io::Write;

const MAGIC_TAIL: [u8; 16] = [
    0xf8, 0x5a, 0x8c, 0x6a, 0xde, 0xf5, 0xd9, 0x7e, 0xec, 0xe9, 0x0c, 0xe3, 0x75, 0x8f, 0x29, 0x0b,
];

const FOOTER: [u8; 16] = [
    0xa0, 0xa1, 0xa2, 0xa3, 0xa4, 0xa5, 0xa6, 0xa7, 0xa8, 0xa9, 0xaa, 0xab, 0xac, 0xad, 0xae, 0xaf,
];

/// A file under construction.
struct File {
    bytes: Vec<u8>,
    wide: bool,
    packed: u32,
}

impl File {
    fn new(major: u32, minor: u32) -> File {
        let packed = major * 1000 + minor * 100;
        let mut bytes = b"Kaydara FBX Binary  \x00\x1a\x00".to_vec();
        bytes.extend_from_slice(&packed.to_le_bytes());
        File { bytes, wide: (major, minor) >= (7, 5), packed }
    }

    fn field(&mut self, value: u64) {
        if self.wide {
            self.bytes.extend_from_slice(&value.to_le_bytes());
        } else {
            self.bytes.extend_from_slice(&(value as u32).to_le_bytes());
        }
    }

    /// Starts a node record and returns where its end offset is to be written.
    fn open(&mut self, name: &[u8], attributes: &[Vec<u8>]) -> usize {
        let at = self.bytes.len();
        self.field(0);
        self.field(attributes.len() as u64);
        self.field(attributes.iter().map(|a| a.len() as u64).sum());
        self.bytes.push(name.len() as u8);
        self.bytes.extend_from_slice(name);
        for attribute in attributes {
            self.bytes.extend_from_slice(attribute);
        }
        at
    }

    /// Ends the node record that was started at `at`.
    fn close(&mut self, at: usize) {
        let end = self.bytes.len() as u64;
        if self.wide {
            self.bytes[at..at + 8].copy_from_slice(&end.to_le_bytes());
        } else {
            self.bytes[at..at + 4].copy_from_slice(&(end as u32).to_le_bytes());
        }
    }

    fn sentinel(&mut self) {
        self.field(0);
        self.field(0);
        self.field(0);
        self.bytes.push(0);
    }

    /// A node without children.
    fn leaf(&mut self, name: &[u8], attributes: &[Vec<u8>]) {
        let at = self.open(name, attributes);
        self.close(at);
    }

    fn padding(&mut self) {
        let count = 15 - self.bytes.len() % 16;
        self.bytes.extend(std::iter::repeat(0).take(count));
    }

    fn trailer(&mut self) {
        self.bytes.extend_from_slice(&FOOTER);
        self.padding();
        self.bytes.extend_from_slice(&[0, 0, 0, 0]);
        self.bytes.extend_from_slice(&self.packed.to_le_bytes());
        self.bytes.extend_from_slice(&[0; 120]);
        self.bytes.extend_from_slice(&MAGIC_TAIL);
    }
}

fn tagged(tag: u8, payload: &[u8]) -> Vec<u8> {
    let mut bytes = vec![tag];
    bytes.extend_from_slice(payload);
    bytes
}

fn int32(value: i32) -> Vec<u8> {
    tagged(b'I', &value.to_le_bytes())
}

fn blob(tag: u8, bytes: &[u8]) -> Vec<u8> {
    let mut payload = (bytes.len() as u32).to_le_bytes().to_vec();
    payload.extend_from_slice(bytes);
    tagged(tag, &payload)
}

fn array(tag: u8, count: u32, encoding: u32, encoded: &[u8]) -> Vec<u8> {
    let mut payload = count.to_le_bytes().to_vec();
    payload.extend_from_slice(&encoding.to_le_bytes());
    payload.extend_from_slice(&(encoded.len() as u32).to_le_bytes());
    payload.extend_from_slice(encoded);
    tagged(tag, &payload)
}

fn deflated(bytes: &[u8]) -> Vec<u8> {
    let mut encoder =
        flate2::write::ZlibEncoder::new(Vec::new(), flate2::Compression::default());
    encoder.write_all(bytes).unwrap();
    encoder.finish().unwrap()
}

fn doubles(values: &[f64]) -> Vec<u8> {
    values.iter().flat_map(|v| v.to_le_bytes()).collect()
}

fn node(name: &[u8], attributes: Vec<Type>, children: Vec<Node>) -> Node {
    Node::new(name.to_vec(), attributes, children)
}

fn document(major: u16, minor: u16, children: Vec<Node>) -> Object {
    Object::new(Version::from(major, minor), children, Some(FOOTER.to_vec()))
}

/// The smallest file: no nodes.
fn empty_file(major: u32, minor: u32) -> File {
    let mut file = File::new(major, minor);
    file.sentinel();
    file
}

#[test]
fn magic_prefix_is_recognised() {
    assert_eq!(&FBX_MAGIC_BINARY_BYTES[..], &b"Kaydara FBX Binary  \x00\x1a\x00"[..]);
    assert!(has_fbx_magic_bytes(&FBX_MAGIC_BINARY_BYTES));
    let mut longer = FBX_MAGIC_BINARY_BYTES.to_vec();
    longer.push(7);
    assert!(has_fbx_magic_bytes(&longer));
    assert!(!has_fbx_magic_bytes(&FBX_MAGIC_BINARY_BYTES[..22]));
    assert!(!has_fbx_magic_bytes(&[]));
    for i in 0..23 {
        let mut other = FBX_MAGIC_BINARY_BYTES.to_vec();
        other[i] ^= 1;
        assert!(!has_fbx_magic_bytes(&other));
    }
}

#[test]
fn a_file_without_the_magic_prefix_is_not_binary() {
    assert_eq!(read_fbx(Vec::new()), Err(ReadError::NotBinaryFBX));
    assert_eq!(read_fbx(b"; FBX 7.4.0 project file".to_vec()), Err(ReadError::NotBinaryFBX));
    let mut file = empty_file(7, 4);
    file.trailer();
    file.bytes[20] = 0x20;
    assert_eq!(read_fbx(file.bytes), Err(ReadError::NotBinaryFBX));
}

#[test]
fn empty_node_list() {
    for (major, minor) in [(7u16, 4u16), (7, 5)] {
        let mut file = empty_file(major as u32, minor as u32);
        file.trailer();
        assert_eq!(read_fbx(file.bytes), Ok(document(major, minor, vec![])));
    }
}

#[test]
fn the_parser_stops_at_the_end_of_the_file() {
    let mut file = File::new(7, 4);
    file.leaf(b"X", &[int32(42)]);
    file.sentinel();
    file.trailer();
    let len = file.bytes.len();
    let mut parser = BinaryFBX::new(file.bytes);
    assert_eq!(parser.current_cursor(), 23);
    assert!(parser.read().is_ok());
    assert_eq!(parser.current_cursor(), len);
}

#[test]
fn bytes_after_the_trailer_are_not_read() {
    let mut file = empty_file(7, 4);
    file.trailer();
    let len = file.bytes.len();
    file.bytes.extend_from_slice(&[1, 2, 3]);
    let mut parser = BinaryFBX::new(file.bytes);
    assert_eq!(parser.read(), Ok(document(7, 4, vec![])));
    assert_eq!(parser.current_cursor(), len);
}

#[test]
fn one_root_with_one_int32() {
    let mut file = File::new(7, 4);
    file.leaf(b"X", &[int32(42)]);
    file.sentinel();
    file.trailer();
    let object = read_fbx(file.bytes).unwrap();
    assert_eq!(object, document(7, 4, vec![node(b"X", vec![Type::Int32(42)], vec![])]));
    let roots = object.children();
    assert_eq!(roots.len(), 1);
    assert_eq!(roots[0].name(), b"X".to_vec());
    assert_eq!(roots[0].attributes(), vec![Type::Int32(42)]);
    assert_eq!(roots[0].children(), vec![]);
    assert_eq!(object.footer(), Some(FOOTER.to_vec()));
    assert!(object.version() == Version::from(7, 4));
}

fn file_with_double_array(encoding: u32) -> Vec<u8> {
    let raw = doubles(&[1.0, 2.0, 3.0]);
    let encoded = if encoding == 1 { deflated(&raw) } else { raw };
    let mut file = File::new(7, 5);
    let a = file.open(b"A", &[]);
    file.leaf(b"B", &[array(b'd', 3, encoding, &encoded)]);
    file.sentinel();
    file.close(a);
    file.sentinel();
    file.trailer();
    file.bytes
}

#[test]
fn raw_double_array_in_a_child() {
    let object = read_fbx(file_with_double_array(0)).unwrap();
    let roots = object.children();
    let values = roots[0].children()[0].attributes()[0].as_double_array().unwrap();
    let values: Vec<f64> = values.into_iter().map(f64::from_bits).collect();
    assert_eq!(values, vec![1.0, 2.0, 3.0]);
    assert_eq!(roots[0].name(), b"A".to_vec());
    assert_eq!(roots[0].children()[0].name(), b"B".to_vec());
    assert!(object.version() == Version::from(7, 5));
}

#[test]
fn deflated_double_array_in_a_child() {
    let object = read_fbx(file_with_double_array(1)).unwrap();
    assert_eq!(object, read_fbx(file_with_double_array(0)).unwrap());
    let values = object.children()[0].children()[0].attributes()[0].as_double_array().unwrap();
    let values: Vec<f64> = values.into_iter().map(f64::from_bits).collect();
    assert_eq!(values, vec![1.0, 2.0, 3.0]);
}

#[test]
fn old_and_new_header_widths() {
    for (major, minor, header) in [(7u16, 4u16, 13usize), (7, 5, 25), (7, 7, 25), (6, 1, 13)] {
        let mut file = File::new(major as u32, minor as u32);
        let outer = file.open(b"Outer", &[int32(1)]);
        assert_eq!(outer, 27);
        file.leaf(b"Inner", &[int32(2), int32(3)]);
        file.sentinel();
        file.close(outer);
        file.leaf(b"Next", &[]);
        file.sentinel();
        // Outer: header, name, one attribute; Inner: header, name, two attributes; a
        // sentinel; Next: header, name; a sentinel.
        assert_eq!(file.bytes.len(), 27 + (header + 5 + 5) + (header + 5 + 10) + header
            + (header + 4) + header);
        file.trailer();
        let expected = document(
            major,
            minor,
            vec![
                node(
                    b"Outer",
                    vec![Type::Int32(1)],
                    vec![node(b"Inner", vec![Type::Int32(2), Type::Int32(3)], vec![])],
                ),
                node(b"Next", vec![], vec![]),
            ],
        );
        assert_eq!(read_fbx(file.bytes), Ok(expected));
    }
}

#[test]
fn a_wide_header_read_as_narrow_does_not_give_the_same_nodes() {
    let mut file = File::new(7, 5);
    file.leaf(b"X", &[int32(42)]);
    file.sentinel();
    file.trailer();
    let good = read_fbx(file.bytes.clone());
    assert_eq!(good, Ok(document(7, 5, vec![node(b"X", vec![Type::Int32(42)], vec![])])));
    // The same body under version 7.4:
    file.bytes[23..27].copy_from_slice(&7400u32.to_le_bytes());
    assert!(read_fbx(file.bytes) != good);
}

#[test]
fn node_name_of_255_bytes() {
    let name: Vec<u8> = (0..255u32).map(|i| (i % 251) as u8).collect();
    let mut file = File::new(7, 4);
    file.leaf(&name, &[]);
    file.sentinel();
    file.trailer();
    assert_eq!(read_fbx(file.bytes), Ok(document(7, 4, vec![node(&name, vec![], vec![])])));
}

#[test]
fn names_and_strings_are_kept_byte_for_byte() {
    let name = b"Na\x00\x01me\xff";
    let text = b"Model\x00\x01Cube\xfe";
    let mut file = File::new(7, 4);
    file.leaf(name, &[blob(b'S', text), blob(b'R', &[0, 1, 2, 255])]);
    file.sentinel();
    file.trailer();
    let expected = document(
        7,
        4,
        vec![node(name, vec![Type::Str(text.to_vec()), Type::Raw(vec![0, 1, 2, 255])], vec![])],
    );
    assert_eq!(read_fbx(file.bytes), Ok(expected));
}

#[test]
fn node_without_attributes() {
    let mut file = File::new(7, 5);
    let a = file.open(b"A", &[]);
    file.leaf(b"B", &[]);
    file.sentinel();
    file.close(a);
    file.sentinel();
    file.trailer();
    let object = read_fbx(file.bytes).unwrap();
    assert_eq!(object, document(7, 5, vec![node(b"A", vec![], vec![node(b"B", vec![], vec![])])]));
    assert_eq!(object.children()[0].attributes().len(), 0);
}

#[test]
fn every_scalar_attribute() {
    let attributes = vec![
        tagged(b'C', &[1]),
        tagged(b'C', b"T"),
        tagged(b'C', b"Y"),
        tagged(b'Y', &(-2i16).to_le_bytes()),
        tagged(b'I', &(-3i32).to_le_bytes()),
        tagged(b'L', &(-4i64).to_le_bytes()),
        tagged(b'F', &1.5f32.to_le_bytes()),
        tagged(b'D', &(-2.5f64).to_le_bytes()),
    ];
    let mut file = File::new(7, 4);
    file.leaf(b"Scalars", &attributes);
    file.sentinel();
    file.trailer();
    let expected = vec![
        Type::Bool(true),
        Type::Bool(false),
        Type::Bool(true),
        Type::Int16(-2),
        Type::Int32(-3),
        Type::Int64(-4),
        Type::Float32(1.5f32.to_bits()),
        Type::Float64((-2.5f64).to_bits()),
    ];
    assert_eq!(read_fbx(file.bytes), Ok(document(7, 4, vec![node(b"Scalars", expected, vec![])])));
}

#[test]
fn every_array_attribute_raw_and_deflated() {
    let bools = vec![0u8, 1, b'Y', b'T'];
    let ints: Vec<u8> = [5i32, -6].iter().flat_map(|v| v.to_le_bytes()).collect();
    let longs: Vec<u8> = [7i64, -8, 9].iter().flat_map(|v| v.to_le_bytes()).collect();
    let singles: Vec<u8> = [0.5f32, -0.25].iter().flat_map(|v| v.to_le_bytes()).collect();
    let reals = doubles(&[1.0, 2.0, 3.0]);
    let expected = vec![
        Type::BoolArray(vec![false, true, true, false]),
        Type::Int32Array(vec![5, -6]),
        Type::Int64Array(vec![7, -8, 9]),
        Type::Float32Array(vec![0.5f32.to_bits(), (-0.25f32).to_bits()]),
        Type::Float64Array(vec![1.0f64.to_bits(), 2.0f64.to_bits(), 3.0f64.to_bits()]),
    ];
    for encoding in [0u32, 1] {
        let encode = |bytes: &[u8]| if encoding == 1 { deflated(bytes) } else { bytes.to_vec() };
        let attributes = vec![
            array(b'b', 4, encoding, &encode(&bools)),
            array(b'i', 2, encoding, &encode(&ints)),
            array(b'l', 3, encoding, &encode(&longs)),
            array(b'f', 2, encoding, &encode(&singles)),
            array(b'd', 3, encoding, &encode(&reals)),
        ];
        let mut file = File::new(7, 4);
        file.leaf(b"Arrays", &attributes);
        file.sentinel();
        file.trailer();
        let object = read_fbx(file.bytes).unwrap();
        let read = object.children()[0].attributes();
        assert_eq!(read, expected);
        // Every array has as many elements as its header says.
        assert_eq!(read[2].as_int64_array().unwrap().len(), 3);
        assert_eq!(read[1].as_int32_array().unwrap().len(), 2);
    }
}

#[test]
fn deflated_array_of_no_elements() {
    let mut file = File::new(7, 4);
    file.leaf(b"Empty", &[array(b'i', 0, 1, &deflated(&[])), array(b'd', 0, 0, &[])]);
    file.sentinel();
    file.trailer();
    let expected =
        node(b"Empty", vec![Type::Int32Array(vec![]), Type::Float64Array(vec![])], vec![]);
    assert_eq!(read_fbx(file.bytes), Ok(document(7, 4, vec![expected])));
}

#[test]
fn a_deflated_array_takes_its_encoded_bytes_and_no_more() {
    // The stream inflates to four elements, of which two are asked for; the attribute that
    // follows is read from right behind the stream.
    let ints: Vec<u8> = [1i32, 2, 3, 4].iter().flat_map(|v| v.to_le_bytes()).collect();
    let mut file = File::new(7, 4);
    file.leaf(b"A", &[array(b'i', 2, 1, &deflated(&ints)), int32(99)]);
    file.sentinel();
    file.trailer();
    let expected = node(b"A", vec![Type::Int32Array(vec![1, 2]), Type::Int32(99)], vec![]);
    assert_eq!(read_fbx(file.bytes), Ok(document(7, 4, vec![expected])));
}

#[test]
fn a_deflated_array_with_too_few_elements_is_truncated() {
    let ints: Vec<u8> = [1i32, 2].iter().flat_map(|v| v.to_le_bytes()).collect();
    let mut file = File::new(7, 4);
    file.leaf(b"A", &[array(b'i', 3, 1, &deflated(&ints))]);
    file.sentinel();
    file.trailer();
    assert_eq!(read_fbx(file.bytes), Err(ReadError::Truncated));
}

#[test]
fn bytes_that_are_no_zlib_stream_give_no_elements() {
    let ints: Vec<u8> = [1i32, 2].iter().flat_map(|v| v.to_le_bytes()).collect();
    let mut file = File::new(7, 4);
    // Marked as deflated, but the elements stand there as they are.
    file.leaf(b"A", &[array(b'i', 2, 1, &ints)]);
    file.sentinel();
    file.trailer();
    assert_eq!(read_fbx(file.bytes), Err(ReadError::Truncated));
}

#[test]
fn decode_array_reads_the_first_elements() {
    let bytes: Vec<u8> = [1i32, -2, 3].iter().flat_map(|v| v.to_le_bytes()).collect();
    assert_eq!(
        decode_array(ArrayKind::Int32, 3, bytes.clone()),
        Ok(Type::Int32Array(vec![1, -2, 3]))
    );
    assert_eq!(
        decode_array(ArrayKind::Int32, 2, bytes.clone()),
        Ok(Type::Int32Array(vec![1, -2]))
    );
    assert_eq!(decode_array(ArrayKind::Int32, 4, bytes.clone()), Err(ReadError::Truncated));
    assert_eq!(decode_array(ArrayKind::Int64, 2, bytes.clone()), Err(ReadError::Truncated));
    assert_eq!(
        decode_array(ArrayKind::Int64, 1, bytes.clone()),
        Ok(Type::Int64Array(vec![i64::from_le_bytes([1, 0, 0, 0, 0xfe, 0xff, 0xff, 0xff])]))
    );
    assert_eq!(
        decode_array(ArrayKind::Float32, 1, 2.0f32.to_le_bytes().to_vec()),
        Ok(Type::Float32Array(vec![2.0f32.to_bits()]))
    );
    assert_eq!(
        decode_array(ArrayKind::Float64, 1, 2.0f64.to_le_bytes().to_vec()),
        Ok(Type::Float64Array(vec![2.0f64.to_bits()]))
    );
    assert_eq!(
        decode_array(ArrayKind::Bool, 3, vec![1, 0, b'Y', 9]),
        Ok(Type::BoolArray(vec![true, false, true]))
    );
    assert_eq!(decode_array(ArrayKind::Bool, 0, vec![]), Ok(Type::BoolArray(vec![])));
}

#[test]
fn read_elements_reads_from_the_cursor_on() {
    let mut reader = BinaryReader::new(vec![9, 1, 0, 0, 0, 2, 0, 0, 0, 7], 1);
    assert_eq!(read_elements(&mut reader, ArrayKind::Int32, 2), Ok(Type::Int32Array(vec![1, 2])));
    assert_eq!(reader.current_cursor(), 9);
    assert_eq!(read_elements(&mut reader, ArrayKind::Int32, 1), Err(ReadError::Truncated));
    assert_eq!(reader.current_cursor(), 9);
    assert_eq!(read_elements(&mut reader, ArrayKind::Bool, 1), Ok(Type::BoolArray(vec![true])));
}

#[test]
fn unknown_attribute_tag() {
    for tag in [b'Z', 0u8, b'c', b's', 0xff] {
        let mut file = File::new(7, 4);
        file.leaf(b"X", &[tagged(tag, &[0; 8])]);
        file.sentinel();
        file.trailer();
        assert_eq!(read_fbx(file.bytes), Err(ReadError::UnknownAttribute(tag)));
    }
}

#[test]
fn unknown_array_encoding() {
    for encoding in [2u32, 7, u32::MAX] {
        let mut file = File::new(7, 4);
        file.leaf(b"X", &[array(b'i', 1, encoding, &[1, 0, 0, 0])]);
        file.sentinel();
        file.trailer();
        assert_eq!(read_fbx(file.bytes), Err(ReadError::UnknownEncoding(encoding)));
    }
}

#[test]
fn every_proper_prefix_of_a_file_is_truncated() {
    let mut file = File::new(7, 5);
    let a = file.open(b"A", &[int32(1), blob(b'S', b"text")]);
    file.leaf(b"B", &[array(b'd', 3, 1, &deflated(&doubles(&[1.0, 2.0, 3.0])))]);
    file.sentinel();
    file.close(a);
    file.sentinel();
    file.trailer();
    assert!(read_fbx(file.bytes.clone()).is_ok());
    for len in 23..file.bytes.len() {
        assert_eq!(read_fbx(file.bytes[..len].to_vec()), Err(ReadError::Truncated), "{}", len);
    }
}

#[test]
fn a_parser_over_less_than_the_prefix_is_truncated() {
    let mut parser = BinaryFBX::new(vec![1, 2, 3]);
    assert_eq!(parser.current_cursor(), 3);
    assert_eq!(parser.read(), Err(ReadError::Truncated));
}

#[test]
fn version_is_unpacked_by_division() {
    for (packed, major, minor) in
        [(7400u32, 7u16, 4u16), (7500, 7, 5), (7700, 7, 7), (8000, 8, 0), (7499, 7, 4), (0, 0, 0)]
    {
        let mut data = vec![0; 23];
        data.extend_from_slice(&packed.to_le_bytes());
        let mut parser = BinaryFBX::new(data);
        assert!(parser.read_version().unwrap() == Version::from(major, minor));
        assert_eq!(parser.current_cursor(), 27);
    }
    // The major number has 16 bits: 70000123 / 1000 = 70000 = 65536 + 4464.
    let mut data = vec![0; 23];
    data.extend_from_slice(&70000123u32.to_le_bytes());
    assert!(BinaryFBX::new(data).read_version().unwrap() == Version::from(4464, 1));
}

/// A file without nodes whose trailer follows `stray` bytes and the four bytes `footer2`.
fn file_with_footer2(footer2: &[u8], rest: &[u8]) -> Vec<u8> {
    let mut file = empty_file(7, 4);
    file.bytes.extend_from_slice(&FOOTER);
    file.padding();
    file.bytes.extend_from_slice(footer2);
    file.bytes.extend_from_slice(rest);
    file.bytes.extend_from_slice(&[0; 120]);
    file.bytes.extend_from_slice(&MAGIC_TAIL);
    file.bytes
}

#[test]
fn footer2_of_zeros_is_followed_by_the_version() {
    let bytes = file_with_footer2(&[0, 0, 0, 0], &7400u32.to_le_bytes());
    assert_eq!(read_fbx(bytes), Ok(document(7, 4, vec![])));
    // The version that is read again is not looked at.
    let bytes = file_with_footer2(&[0, 0, 0, 0], &[9, 9, 9, 9]);
    assert_eq!(read_fbx(bytes), Ok(document(7, 4, vec![])));
}

#[test]
fn footer2_correction_at_each_position() {
    // The packed version 7400 is the bytes e8 1c 00 00.
    let bytes = file_with_footer2(&[0xe8, 0x1c, 0x00, 0x00], &[]);
    assert_eq!(read_fbx(bytes), Ok(document(7, 4, vec![])));
    let bytes = file_with_footer2(&[0x55, 0xe8, 0x1c, 0x00], &[0x00]);
    assert_eq!(read_fbx(bytes), Ok(document(7, 4, vec![])));
    let bytes = file_with_footer2(&[0x55, 0x66, 0xe8, 0x1c], &[0x00, 0x00]);
    assert_eq!(read_fbx(bytes), Ok(document(7, 4, vec![])));
}

#[test]
fn footer2_correction_takes_as_many_bytes_as_its_position() {
    // With the version at position 1, one byte is taken after the four: with none there, the
    // block of zeros is looked for one byte late, and has the first byte of the magic tail
    // at its end.
    let bytes = file_with_footer2(&[0x55, 0xe8, 0x1c, 0x00], &[]);
    let mut expected = vec![0u8; 119];
    expected.push(MAGIC_TAIL[0]);
    assert_eq!(read_fbx(bytes), Err(ReadError::Footer3Mismatch(expected)));
    // The first position that matches counts.
    let bytes = file_with_footer2(&[0xe8, 0x1c, 0xe8, 0x1c], &[]);
    assert_eq!(read_fbx(bytes), Ok(document(7, 4, vec![])));
}

/// A parser that has read a whole document of the given version, over a file that goes on
/// with `rest`.
fn parser_after_document(major: u32, minor: u32, rest: &[u8]) -> (BinaryFBX, usize) {
    let mut file = empty_file(major, minor);
    file.trailer();
    let at = file.bytes.len();
    file.bytes.extend_from_slice(rest);
    let mut parser = BinaryFBX::new(file.bytes);
    assert!(parser.read().is_ok());
    assert_eq!(parser.current_cursor(), at);
    (parser, at)
}

#[test]
fn read_footer2_tells_the_correction() {
    let (mut parser, at) = parser_after_document(7, 4, &[
        0, 0, 0, 0, 0xe8, 0x1c, 0, 0, 9, 0xe8, 0x1c, 0, 9, 9, 0xe8, 0x1c, 9, 9, 9, 0xe8, 0, 0,
    ]);
    assert_eq!(parser.read_footer2(), Ok(None));
    assert_eq!(parser.read_footer2(), Ok(Some(0)));
    assert_eq!(parser.read_footer2(), Ok(Some(1)));
    assert_eq!(parser.read_footer2(), Ok(Some(2)));
    assert_eq!(parser.current_cursor(), at + 16);
    assert_eq!(parser.read_footer2(), Err(ReadError::InvalidFooter2Pattern));
    assert_eq!(parser.read_footer2(), Err(ReadError::Truncated));
    // The two bytes that are looked for are those of the version that was read: 7500 is
    // the bytes 4c 1d 00 00.
    let (mut parser, _) = parser_after_document(7, 5, &[9, 0x4c, 0x1d, 0, 0xe8, 0x1c, 0, 0]);
    assert_eq!(parser.read_footer2(), Ok(Some(1)));
    assert_eq!(parser.read_footer2(), Err(ReadError::InvalidFooter2Pattern));
}

#[test]
fn header_and_nodes_one_by_one() {
    let mut rest = Vec::new();
    rest.extend_from_slice(&500u32.to_le_bytes());
    rest.extend_from_slice(&2u32.to_le_bytes());
    rest.extend_from_slice(&10u32.to_le_bytes());
    rest.push(3);
    let (mut parser, at) = parser_after_document(7, 4, &rest);
    assert!(!parser.is_new_format());
    assert_eq!(
        parser.read_header(),
        Ok(NodeHeader {
            end_offset: 500,
            num_attributes: 2,
            attribute_list_bytes: 10,
            name_length: 3
        })
    );
    assert_eq!(parser.current_cursor(), at + 13);
    assert_eq!(parser.read_header(), Err(ReadError::Truncated));

    let mut rest = Vec::new();
    rest.extend_from_slice(&0x1_0000_0001u64.to_le_bytes());
    rest.extend_from_slice(&2u64.to_le_bytes());
    rest.extend_from_slice(&u64::MAX.to_le_bytes());
    rest.push(255);
    let (mut parser, at) = parser_after_document(7, 5, &rest);
    assert!(parser.is_new_format());
    assert_eq!(
        parser.read_header(),
        Ok(NodeHeader {
            end_offset: 0x1_0000_0001,
            num_attributes: 2,
            attribute_list_bytes: u64::MAX,
            name_length: 255
        })
    );
    assert_eq!(parser.current_cursor(), at + 25);
}

#[test]
fn node_lists_one_by_one() {
    let mut more = File::new(7, 4);
    let start = more.bytes.len();
    more.leaf(b"P", &[int32(1)]);
    more.leaf(b"Q", &[]);
    more.sentinel();
    let first = more.bytes.len();
    more.sentinel();
    let second = more.bytes.len();
    let rest = more.bytes[start..].to_vec();
    // The end offsets in `rest` lie before the place that the records are read at, so
    // that no node has children.
    let (mut parser, at) = parser_after_document(7, 4, &rest);
    assert_eq!(
        parser.read_nodes(),
        Ok(vec![node(b"P", vec![Type::Int32(1)], vec![]), node(b"Q", vec![], vec![])])
    );
    assert_eq!(parser.current_cursor(), at + (first - start));
    assert_eq!(parser.read_nodes(), Ok(vec![]));
    assert_eq!(parser.current_cursor(), at + (second - start));
    assert_eq!(parser.read_nodes(), Err(ReadError::Truncated));

    let (mut parser, at) = parser_after_document(7, 4, &rest);
    // No list is read where the cursor has reached the end offset.
    assert_eq!(parser.read_children(at as u64), Ok(vec![]));
    assert_eq!(parser.read_children(0), Ok(vec![]));
    assert_eq!(parser.current_cursor(), at);
    // One list is read where the end offset lies one byte ahead, and two lists where it
    // lies behind the first.
    assert_eq!(parser.read_children(at as u64 + 1).map(|nodes| nodes.len()), Ok(2));
    assert_eq!(parser.current_cursor(), at + (first - start));
    let (mut parser, at) = parser_after_document(7, 4, &rest);
    assert_eq!(
        parser.read_children((at + (first - start) + 1) as u64).map(|nodes| nodes.len()),
        Ok(2)
    );
    assert_eq!(parser.current_cursor(), at + (second - start));
    let (mut parser, at) = parser_after_document(7, 4, &rest);
    assert_eq!(parser.read_children((at + rest.len() + 1) as u64), Err(ReadError::Truncated));

    let (mut parser, at) = parser_after_document(7, 4, b"abc\x49\x07\x00\x00\x00");
    let header =
        NodeHeader { end_offset: 0, num_attributes: 1, attribute_list_bytes: 5, name_length: 3 };
    assert_eq!(parser.read_node(&header), Ok(node(b"abc", vec![Type::Int32(7)], vec![])));
    assert_eq!(parser.current_cursor(), at + 8);
}

#[test]
fn footer2_without_the_version_is_invalid() {
    for footer2 in [[1u8, 2, 3, 4], [0, 0, 0, 1], [0x1c, 0xe8, 0x00, 0xe8], [0, 0, 0xe8, 0]] {
        let bytes = file_with_footer2(&footer2, &7400u32.to_le_bytes());
        assert_eq!(read_fbx(bytes), Err(ReadError::InvalidFooter2Pattern));
    }
    // The version is looked for at the positions 0, 1 and 2 only.
    let bytes = file_with_footer2(&[0x55, 0x66, 0x77, 0xe8], &[0x1c, 0, 0]);
    assert_eq!(read_fbx(bytes), Err(ReadError::InvalidFooter2Pattern));
}

#[test]
fn footer3_must_be_zeros() {
    let mut file = empty_file(7, 4);
    file.trailer();
    let len = file.bytes.len();
    for at in [0usize, 57, 119] {
        let mut bytes = file.bytes.clone();
        bytes[len - 136 + at] = 3;
        let mut expected = vec![0u8; 120];
        expected[at] = 3;
        assert_eq!(read_fbx(bytes), Err(ReadError::Footer3Mismatch(expected)));
    }
}

#[test]
fn footer4_must_be_the_magic_tail() {
    let mut file = empty_file(7, 4);
    file.trailer();
    let len = file.bytes.len();
    for at in 0..16usize {
        let mut bytes = file.bytes.clone();
        bytes[len - 16 + at] ^= 0x40;
        let mut expected = MAGIC_TAIL.to_vec();
        expected[at] ^= 0x40;
        assert_eq!(read_fbx(bytes), Err(ReadError::Footer4Mismatch(expected)));
    }
}

#[test]
fn padding_brings_the_cursor_before_a_multiple_of_16() {
    // Names of 0 to 15 bytes give every position modulo 16 at the start of the padding.
    for extra in 0..16usize {
        let name = vec![b'n'; extra];
        let mut file = File::new(7, 4);
        file.leaf(&name, &[]);
        file.sentinel();
        file.bytes.extend_from_slice(&FOOTER);
        let before = file.bytes.len();
        file.padding();
        let after = file.bytes.len();
        assert_eq!(after - before, 15 - before % 16);
        assert_eq!((after + 1) % 16, 0);
        file.bytes.extend_from_slice(&[0, 0, 0, 0]);
        file.bytes.extend_from_slice(&7400u32.to_le_bytes());
        file.bytes.extend_from_slice(&[0; 120]);
        file.bytes.extend_from_slice(&MAGIC_TAIL);
        let len = file.bytes.len();
        let mut parser = BinaryFBX::new(file.bytes);
        assert_eq!(parser.read(), Ok(document(7, 4, vec![node(&name, vec![], vec![])])));
        assert_eq!(parser.current_cursor(), len);
    }
}

/// A parser whose cursor stands at `23 + skip`, over `len` bytes.
fn parser_at(skip: usize, len: usize) -> BinaryFBX {
    let mut data = vec![0; 23];
    let count = match skip {
        0 => 0,
        2 => {
            data.extend_from_slice(&tagged(b'C', &[0]));
            1
        },
        3 => {
            data.extend_from_slice(&tagged(b'Y', &[0, 0]));
            1
        },
        4 => {
            data.extend_from_slice(&tagged(b'C', &[0]));
            data.extend_from_slice(&tagged(b'C', &[0]));
            2
        },
        _ => {
            data.extend_from_slice(&blob(b'R', &vec![0; skip - 5]));
            1
        },
    };
    data.resize(len, 0);
    let mut parser = BinaryFBX::new(data);
    assert_eq!(parser.read_attributes(count).map(|read| read.len() as u64), Ok(count));
    assert_eq!(parser.current_cursor(), 23 + skip);
    parser
}

#[test]
fn no_padding_where_the_cursor_is_15_modulo_16() {
    let mut parser = parser_at(8, 31);
    assert_eq!(parser.current_cursor(), 31);
    assert_eq!(parser.read_padding(), Ok(()));
    assert_eq!(parser.current_cursor(), 31);
}

#[test]
fn padding_of_each_length() {
    for skip in [0usize, 2, 3, 4, 5, 6, 7, 8, 9, 10, 11, 12, 13, 14, 15, 16, 17, 18] {
        let start = 23 + skip;
        let mut parser = parser_at(skip, 64);
        assert_eq!(parser.read_padding(), Ok(()));
        assert_eq!(parser.current_cursor(), start + (15 - start % 16));
        assert_eq!((parser.current_cursor() + 1) % 16, 0);
    }
    // Padding that is not all there: from 23 on, 8 bytes are needed.
    let mut parser = parser_at(0, 30);
    assert_eq!(parser.read_padding(), Err(ReadError::Truncated));
    assert_eq!(parser.current_cursor(), 23);
    let mut parser = parser_at(0, 31);
    assert_eq!(parser.read_padding(), Ok(()));
    assert_eq!(parser.current_cursor(), 31);
}

#[test]
fn trailer_blocks_one_by_one() {
    let mut data = vec![0; 23];
    data.extend_from_slice(&FOOTER);
    data.extend_from_slice(&[0; 120]);
    data.extend_from_slice(&MAGIC_TAIL);
    data.extend_from_slice(&[5; 16]);
    let mut parser = BinaryFBX::new(data);
    assert_eq!(parser.read_footer1(), Ok(FOOTER.to_vec()));
    assert_eq!(parser.current_cursor(), 39);
    assert_eq!(parser.read_footer3(), Ok(()));
    assert_eq!(parser.current_cursor(), 159);
    assert_eq!(parser.read_footer4(), Ok(()));
    assert_eq!(parser.current_cursor(), 175);
    assert_eq!(parser.read_footer4(), Err(ReadError::Footer4Mismatch(vec![5; 16])));
    assert_eq!(parser.read_footer3(), Err(ReadError::Truncated));
    assert_eq!(parser.read_footer1(), Err(ReadError::Truncated));
}

#[test]
fn attributes_one_by_one() {
    let mut data = vec![0; 23];
    data.extend_from_slice(&int32(-5));
    data.extend_from_slice(&blob(b'S', b"ab"));
    data.extend_from_slice(&array(b'b', 2, 0, &[1, 0]));
    data.extend_from_slice(&[b'?']);
    let mut parser = BinaryFBX::new(data.clone());
    assert_eq!(parser.read_attribute(), Ok(Type::Int32(-5)));
    assert_eq!(parser.current_cursor(), 28);
    assert_eq!(parser.read_attribute(), Ok(Type::Str(b"ab".to_vec())));
    assert_eq!(parser.current_cursor(), 35);
    assert_eq!(parser.read_attribute(), Ok(Type::BoolArray(vec![true, false])));
    assert_eq!(parser.current_cursor(), 50);
    assert_eq!(parser.read_attribute(), Err(ReadError::UnknownAttribute(b'?')));
    let mut parser = BinaryFBX::new(data.clone());
    assert_eq!(
        parser.read_attributes(3),
        Ok(vec![Type::Int32(-5), Type::Str(b"ab".to_vec()), Type::BoolArray(vec![true, false])])
    );
    assert_eq!(parser.current_cursor(), 50);
    let mut parser = BinaryFBX::new(data.clone());
    assert_eq!(parser.read_attributes(0), Ok(vec![]));
    assert_eq!(parser.current_cursor(), 23);
    let mut parser = BinaryFBX::new(data[..50].to_vec());
    assert_eq!(parser.read_attributes(u64::MAX), Err(ReadError::Truncated));
    let mut parser = BinaryFBX::new(data[23..].to_vec());
    assert_eq!(parser.read_vector(ArrayKind::Int32), Err(ReadError::Truncated));
}

#[test]
fn an_end_offset_behind_the_cursor_means_no_children() {
    // The end offset is not checked against where the record ends: a node whose end offset
    // lies before its attributes has no children, and the next record is its sibling.
    let mut file = File::new(7, 4);
    let at = file.open(b"A", &[int32(1)]);
    file.bytes[at..at + 4].copy_from_slice(&1u32.to_le_bytes());
    file.leaf(b"B", &[]);
    file.sentinel();
    file.trailer();
    let expected =
        vec![node(b"A", vec![Type::Int32(1)], vec![]), node(b"B", vec![], vec![])];
    assert_eq!(read_fbx(file.bytes), Ok(document(7, 4, expected)));
}

#[test]
fn children_are_read_list_by_list_up_to_the_end_offset() {
    // Two lists of siblings inside one node: the second is read because the first ends
    // before the end offset.
    let mut file = File::new(7, 4);
    let a = file.open(b"A", &[]);
    file.leaf(b"B", &[]);
    file.sentinel();
    file.leaf(b"C", &[]);
    file.sentinel();
    file.close(a);
    file.sentinel();
    file.trailer();
    let children = vec![node(b"B", vec![], vec![]), node(b"C", vec![], vec![])];
    assert_eq!(read_fbx(file.bytes), Ok(document(7, 4, vec![node(b"A", vec![], children)])));
}

#[test]
fn a_node_has_the_attributes_that_its_header_counts_and_ends_at_its_end_offset() {
    for (major, minor) in [(7u32, 4u32), (7, 5)] {
        let mut file = empty_file(major, minor);
        file.trailer();
        let at = file.bytes.len();
        let a = file.open(b"A", &[int32(1), int32(2)]);
        let b = file.bytes.len();
        file.leaf(b"B", &[int32(3)]);
        let b_end = file.bytes.len();
        file.sentinel();
        file.close(a);
        let end = file.bytes.len();
        let mut parser = BinaryFBX::new(file.bytes);
        assert!(parser.read().is_ok());
        assert_eq!(parser.current_cursor(), at);

        let header = parser.read_header().unwrap();
        assert_eq!(header.end_offset, end as u64);
        assert_eq!(header.num_attributes, 2);
        assert_eq!(header.attribute_list_bytes, 10);
        assert_eq!(header.name_length, 1);
        let node = parser.read_node(&header).unwrap();
        assert_eq!(node.attributes().len() as u64, header.num_attributes);
        assert_eq!(parser.current_cursor() as u64, header.end_offset);
        assert_eq!(node.children(), vec![leaf_node(b"B", vec![Type::Int32(3)])]);
        assert_eq!(b_end - b, (if minor >= 5 { 25 } else { 13 }) + 1 + 5);
    }
}

fn leaf_node(name: &[u8], attributes: Vec<Type>) -> Node {
    node(name, attributes, vec![])
}
