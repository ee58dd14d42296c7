use gt_reader::byte_iter::ByteIter;
use gt_reader::error::{Error, ParseError};
use gt_reader::reader::{
    bytes_to_int, bytes_to_u16, bytes_to_u32, bytes_to_u64, bytes_to_u8, is_directed,
    n_bytes_node_encoding, parse_edges, parse_string, parse_vector, read_bool, read_directed,
    read_edges, read_endianness, read_i16, read_i32, read_i64, read_magic_string,
    read_n_successors, read_size, read_string, read_u64, read_vector, read_version_number,
    take_n_bytes, vec2array, Endianness,
};
use gt_reader::values::F64Bits;

fn le(v: u64) -> Vec<u8> {
    v.to_le_bytes().to_vec()
}

fn be(v: u64) -> Vec<u8> {
    v.to_be_bytes().to_vec()
}

#[test]
fn take_n_bytes_takes_what_is_left() {
    let bytes: Vec<u8> = vec![1, 2, 3];
    let mut pos = ByteIter::new(&bytes);
    assert_eq!(take_n_bytes(&mut pos, 2), vec![1, 2]);
    assert_eq!(take_n_bytes(&mut pos, 5), vec![3]);
    assert_eq!(take_n_bytes(&mut pos, 1), Vec::<u8>::new());
    assert_eq!(pos.len(), 0);
}

#[test]
fn magic_string_is_recognised() {
    let bytes: Vec<u8> = vec![0xe2, 0x9b, 0xbe, 0x20, 0x67, 0x74, 0x01];
    let mut pos = ByteIter::new(&bytes);
    assert_eq!(read_magic_string(&mut pos), Ok(true));
    assert_eq!(pos.len(), 1);
    assert_eq!("⛾ gt".as_bytes(), &bytes[..6]);
}

#[test]
fn magic_string_mismatch_and_short_input() {
    let bytes: Vec<u8> = vec![0xe2, 0x9b, 0xbe, 0x20, 0x67, 0x75, 0x01];
    let mut pos = ByteIter::new(&bytes);
    assert_eq!(read_magic_string(&mut pos), Ok(false));
    assert_eq!(pos.len(), 1);
    let short: Vec<u8> = vec![0xe2, 0x9b];
    let mut pos = ByteIter::new(&short);
    assert_eq!(read_magic_string(&mut pos), Ok(false));
    assert_eq!(pos.len(), 0);
}

#[test]
fn version_bool_and_flags() {
    let bytes: Vec<u8> = vec![0x01, 0x01, 0x02, 0x00, 0x01, 0x00, 0x01];
    let mut pos = ByteIter::new(&bytes);
    assert_eq!(read_version_number(&mut pos), Ok(1));
    assert_eq!(read_bool(&mut pos, Endianness::LittleEndian), Ok(true));
    assert_eq!(read_bool(&mut pos, Endianness::LittleEndian), Ok(false));
    assert!(matches!(read_endianness(&mut pos), Ok(Endianness::LittleEndian)));
    assert!(matches!(read_endianness(&mut pos), Ok(Endianness::BigEndian)));
    assert_eq!(read_directed(&mut pos), Ok(false));
    assert_eq!(read_directed(&mut pos), Ok(true));
    assert_eq!(pos.len(), 0);
    assert!(!is_directed(0x00));
    assert!(is_directed(0x01));
}

#[test]
fn vec2array_checks_the_length() {
    let a: Result<[u8; 3], Error> = vec2array(vec![1u8, 2, 3]);
    assert_eq!(a, Ok([1, 2, 3]));
    let b: Result<[u8; 4], Error> = vec2array(vec![1u8, 2, 3]);
    assert_eq!(b, Err(Error::MismatchedLength { expect: 4 }));
}

#[test]
fn fixed_width_integers_in_both_byte_orders() {
    let bytes: Vec<u8> = vec![0x01, 0x02, 0x03, 0x04, 0x05, 0x06, 0x07, 0x08, 0x09];
    assert_eq!(bytes_to_u64(&bytes, Endianness::LittleEndian), 0x0807060504030201);
    assert_eq!(bytes_to_u64(&bytes, Endianness::BigEndian), 0x0102030405060708);
    assert_eq!(bytes_to_u32(&bytes, Endianness::LittleEndian), 0x04030201);
    assert_eq!(bytes_to_u32(&bytes, Endianness::BigEndian), 0x01020304);
    assert_eq!(bytes_to_u16(&bytes, Endianness::LittleEndian), 0x0201);
    assert_eq!(bytes_to_u16(&bytes, Endianness::BigEndian), 0x0102);
    assert_eq!(bytes_to_u8(&bytes), 0x01);
    assert_eq!(bytes_to_int::<u64>(&bytes, Endianness::BigEndian, 1), Ok(0x01));
    assert_eq!(bytes_to_int::<u64>(&bytes, Endianness::BigEndian, 2), Ok(0x0102));
    assert_eq!(bytes_to_int::<u64>(&bytes, Endianness::LittleEndian, 4), Ok(0x04030201));
    assert_eq!(bytes_to_int::<u64>(&bytes, Endianness::LittleEndian, 8), Ok(0x0807060504030201));
}

#[test]
fn big_endian_is_reversed_little_endian() {
    let bytes: Vec<u8> = vec![0xde, 0xad, 0xbe, 0xef];
    let reversed: Vec<u8> = bytes.iter().rev().cloned().collect();
    assert_eq!(
        bytes_to_u32(&bytes, Endianness::BigEndian),
        bytes_to_u32(&reversed, Endianness::LittleEndian)
    );
    assert_eq!(bytes_to_u32(&bytes, Endianness::BigEndian), 0xdeadbeef);
}

#[test]
fn unsigned_and_signed_reads() {
    let mut bytes = le(0x4d);
    bytes.extend(be(0x11));
    bytes.extend(vec![0xff, 0xff]);
    bytes.extend(vec![0xfe, 0xff, 0xff, 0xff]);
    bytes.extend(le((-3i64) as u64));
    bytes.extend(vec![0x7f, 0xff]);
    let mut pos = ByteIter::new(&bytes);
    assert_eq!(read_u64(&mut pos, Endianness::LittleEndian), Ok(0x4d));
    assert_eq!(read_size(&mut pos, Endianness::BigEndian), Ok(0x11));
    assert_eq!(read_i16(&mut pos, Endianness::LittleEndian), Ok(-1));
    assert_eq!(read_i32(&mut pos, Endianness::LittleEndian), Ok(-2));
    assert_eq!(read_i64(&mut pos, Endianness::LittleEndian), Ok(-3));
    assert_eq!(read_i16(&mut pos, Endianness::BigEndian), Ok(0x7fff));
    assert_eq!(pos.len(), 0);
}

#[test]
fn strings_are_length_prefixed_utf8() {
    let mut bytes = le(3);
    bytes.extend("abc".as_bytes());
    bytes.extend(be(4));
    bytes.extend("⛾ x".as_bytes()[..4].to_vec());
    let mut pos = ByteIter::new(&bytes);
    assert_eq!(read_string(&mut pos, Endianness::LittleEndian), Ok(String::from("abc")));
    let mut rest = pos;
    assert_eq!(rest.len(), 12);
    assert_eq!(
        parse_string(&mut rest, Endianness::BigEndian),
        Ok(String::from("⛾ "))
    );
    assert_eq!(rest.len(), 0);
}

#[test]
fn truncated_string_keeps_the_bytes_that_are_left() {
    let mut bytes = le(10);
    bytes.extend("hey".as_bytes());
    let mut pos = ByteIter::new(&bytes);
    assert_eq!(read_string(&mut pos, Endianness::LittleEndian), Ok(String::from("hey")));
    assert_eq!(pos.len(), 0);
}

#[test]
fn invalid_utf8_and_short_prefix_are_errors() {
    let mut bytes = le(2);
    bytes.extend(vec![0xc3, 0x28]);
    let mut pos = ByteIter::new(&bytes);
    assert_eq!(parse_string(&mut pos, Endianness::LittleEndian), Err(ParseError::InvalidUtf8));
    let short: Vec<u8> = vec![1, 0, 0];
    let mut pos = ByteIter::new(&short);
    assert_eq!(parse_string(&mut pos, Endianness::LittleEndian), Err(ParseError::UnexpectedEnd));
}

#[test]
fn vectors_of_each_element_type() {
    let mut bytes = le(3);
    bytes.extend(vec![0x01, 0x00, 0x02]);
    bytes.extend(le(2));
    bytes.extend(vec![0xff, 0xff, 0x02, 0x00]);
    bytes.extend(le(1));
    bytes.extend(1.5f64.to_le_bytes().to_vec());
    bytes.extend(le(2));
    bytes.extend(le(1));
    bytes.extend("a".as_bytes());
    bytes.extend(le(0));
    let mut pos = ByteIter::new(&bytes);
    assert_eq!(read_vector::<bool>(&mut pos, Endianness::LittleEndian), Ok(vec![true, false, false]));
    assert_eq!(read_vector::<i16>(&mut pos, Endianness::LittleEndian), Ok(vec![-1, 2]));
    let doubles = read_vector::<F64Bits>(&mut pos, Endianness::LittleEndian).unwrap();
    assert_eq!(doubles.len(), 1);
    assert_eq!(f64::from_bits(doubles[0].0), 1.5);
    assert_eq!(
        read_vector::<String>(&mut pos, Endianness::LittleEndian),
        Ok(vec![String::from("a"), String::new()])
    );
    assert_eq!(pos.len(), 0);
}

#[test]
fn vector_running_past_the_end_is_an_error() {
    let mut bytes = le(3);
    bytes.extend(vec![0x01, 0x00, 0x00, 0x00]);
    let mut pos = ByteIter::new(&bytes);
    assert_eq!(parse_vector::<i32>(&mut pos, Endianness::LittleEndian), Err(ParseError::UnexpectedEnd));
}

#[test]
fn node_identifier_widths() {
    assert_eq!(n_bytes_node_encoding(0), Some(1));
    assert_eq!(n_bytes_node_encoding(254), Some(1));
    assert_eq!(n_bytes_node_encoding(255), Some(1));
    assert_eq!(n_bytes_node_encoding(256), Some(2));
    assert_eq!(n_bytes_node_encoding(65535), Some(2));
    assert_eq!(n_bytes_node_encoding(65536), Some(4));
    assert_eq!(n_bytes_node_encoding(4294967295), Some(4));
    if usize::BITS == 64 {
        assert_eq!(n_bytes_node_encoding(usize::MAX), Some(8));
    }
}

#[test]
fn no_successors_reads_nothing() {
    let bytes: Vec<u8> = vec![0x05];
    let mut pos = ByteIter::new(&bytes);
    assert_eq!(read_n_successors(&mut pos, Endianness::LittleEndian, 3, 0).unwrap(), Vec::<usize>::new());
    assert_eq!(pos.len(), 1);
}

#[test]
fn adjacency_of_255_nodes_uses_one_byte() {
    let n: u64 = 255;
    let mut bytes = le(n);
    bytes.extend(le(1));
    bytes.push(254);
    for _ in 1..n {
        bytes.extend(le(0));
    }
    let mut pos = ByteIter::new(&bytes);
    let edges = read_edges(&mut pos, Endianness::LittleEndian).unwrap();
    assert_eq!(edges.len(), 255);
    assert_eq!(edges[0], vec![254]);
    assert_eq!(pos.len(), 0);
}

#[test]
fn successors_of_each_width() {
    let bytes: Vec<u8> = vec![0x01, 0x02, 0x00, 0x03, 0x00, 0x04];
    let mut pos = ByteIter::new(&bytes);
    assert_eq!(read_n_successors(&mut pos, Endianness::LittleEndian, 1, 2).unwrap(), vec![1, 2]);
    assert_eq!(read_n_successors(&mut pos, Endianness::BigEndian, 2, 2).unwrap(), vec![3, 4]);
    assert_eq!(pos.len(), 0);
}

#[test]
fn adjacency_lists_and_their_size() {
    let mut bytes = le(3);
    bytes.extend(le(2));
    bytes.extend(vec![1, 2]);
    bytes.extend(le(1));
    bytes.extend(vec![2]);
    bytes.extend(le(0));
    bytes.extend(vec![0xaa]);
    let mut pos = ByteIter::new(&bytes);
    let edges = read_edges(&mut pos, Endianness::LittleEndian).unwrap();
    assert_eq!(edges, vec![vec![1, 2], vec![2], vec![]]);
    // 8 + 8 N + E d bytes with N = 3, E = 3, d = 1
    assert_eq!(bytes.len() - pos.len(), 8 + 8 * 3 + 3);
}

#[test]
fn adjacency_with_two_byte_identifiers() {
    let n: u64 = 300;
    let mut bytes = be(n);
    bytes.extend(be(1));
    bytes.extend(vec![0x01, 0x2b]);
    for _ in 1..n {
        bytes.extend(be(0));
    }
    let mut pos = ByteIter::new(&bytes);
    let edges = parse_edges(&mut pos, Endianness::BigEndian).unwrap();
    assert_eq!(edges.len(), 300);
    assert_eq!(edges[0], vec![299]);
    assert_eq!(pos.len(), 0);
    assert_eq!(bytes.len(), 8 + 8 * 300 + 2);
}

#[test]
fn adjacency_errors() {
    let mut bytes = le(2);
    bytes.extend(le(3));
    bytes.extend(vec![1, 0]);
    let mut pos = ByteIter::new(&bytes);
    assert_eq!(parse_edges(&mut pos, Endianness::LittleEndian), Err(ParseError::UnexpectedEnd));
    let short: Vec<u8> = vec![1, 2, 3];
    let mut pos = ByteIter::new(&short);
    assert_eq!(parse_edges(&mut pos, Endianness::LittleEndian), Err(ParseError::UnexpectedEnd));
}

#[test]
fn byte_iter_reads_from_the_front() {
    let bytes: Vec<u8> = vec![7, 8];
    let mut pos = ByteIter::new(&bytes);
    assert_eq!(pos.peek(), Some(7));
    assert_eq!(pos.next_byte(), Some(7));
    assert_eq!(pos.len(), 1);
    assert_eq!(pos.next_byte(), Some(8));
    assert_eq!(pos.peek(), None);
    assert_eq!(pos.next_byte(), None);
    assert_eq!(pos.len(), 0);
}
