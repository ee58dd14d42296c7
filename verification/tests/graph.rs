use gt_reader::byte_iter::ByteIter;
use gt_reader::error::ParseError;
use gt_reader::property_maps::{
    parse_property_map_type, parse_property_type, property_map_type_index_to_type,
    property_type_index_to_type, PropertyMap, PropertyMapType, PropertyMaps, PropertyMapsReader,
    PropertyType,
};
use gt_reader::reader::Endianness;
use gt_reader::values::{parse_value, F64Bits, PropertyValue};
use gt_reader::{parse_gt, GraphToolGraph};

fn le(v: u64) -> Vec<u8> {
    v.to_le_bytes().to_vec()
}

fn gt_string(s: &str) -> Vec<u8> {
    let mut out = le(s.len() as u64);
    out.extend(s.as_bytes());
    out
}

/// The header and adjacency of a directed graph with 3 nodes and the edges
/// 0 -> 1 and 1 -> 2, little-endian.
fn header_and_edges() -> Vec<u8> {
    let mut bytes: Vec<u8> = vec![0xe2, 0x9b, 0xbe, 0x20, 0x67, 0x74, 0x01, 0x00];
    bytes.extend(gt_string("hi"));
    bytes.push(0x01);
    bytes.extend(le(3));
    bytes.extend(le(1));
    bytes.push(1);
    bytes.extend(le(1));
    bytes.push(2);
    bytes.extend(le(0));
    bytes
}

fn simple_graph_bytes() -> Vec<u8> {
    let mut bytes = header_and_edges();
    bytes.extend(le(3));
    // vertex map "valid" of bool
    bytes.push(0x01);
    bytes.extend(gt_string("valid"));
    bytes.push(0x00);
    bytes.extend(vec![0x01, 0x00, 0x01]);
    // edge map "weight" of int32_t
    bytes.push(0x02);
    bytes.extend(gt_string("weight"));
    bytes.push(0x02);
    bytes.extend(7i32.to_le_bytes().to_vec());
    bytes.extend((-1i32).to_le_bytes().to_vec());
    // graph map "name" of string
    bytes.push(0x00);
    bytes.extend(gt_string("name"));
    bytes.push(0x06);
    bytes.extend(gt_string("g"));
    bytes
}

fn count_edges(edges: &Vec<Vec<usize>>) -> usize {
    edges.iter().map(|successors| successors.len()).sum()
}

#[test]
fn parse_simple_graph() {
    let bytes = simple_graph_bytes();
    let graph = parse_gt(&bytes).unwrap();
    assert!(graph.directed);
    assert_eq!(graph.comment, "hi");
    assert_eq!(graph.edges, vec![vec![1], vec![2], vec![]]);
    assert_eq!(graph.edges.len(), 3);
    assert_eq!(count_edges(&graph.edges), 2);

    let valid = graph.vertex_properties.get(PropertyType::Bool, &String::from("valid")).unwrap();
    assert_eq!(
        valid.values,
        vec![
            (0, PropertyValue::Bool(true)),
            (1, PropertyValue::Bool(false)),
            (2, PropertyValue::Bool(true)),
        ]
    );
    assert_eq!(
        graph.vertex_properties.property_type(&String::from("valid")),
        Some(PropertyType::Bool)
    );
    let weight = graph.edge_properties.get(PropertyType::I32, &String::from("weight")).unwrap();
    assert_eq!(
        weight.values,
        vec![((0, 1), PropertyValue::I32(7)), ((1, 2), PropertyValue::I32(-1))]
    );
    let name = graph.graph_properties.get(PropertyType::String, &String::from("name")).unwrap();
    assert_eq!(name.values, vec![(0, PropertyValue::String(String::from("g")))]);
    assert!(graph.vertex_properties.get(PropertyType::I32, &String::from("valid")).is_none());
    assert!(graph.graph_properties.property_type(&String::from("valid")).is_none());
}

#[test]
fn vertex_map_has_one_value_per_vertex() {
    let graph = parse_gt(&simple_graph_bytes()).unwrap();
    let valid = graph.vertex_properties.get(PropertyType::Bool, &String::from("valid")).unwrap();
    let keys: Vec<usize> = valid.values.iter().map(|p| p.0).collect();
    assert_eq!(keys, (0..graph.edges.len()).collect::<Vec<usize>>());
}

#[test]
fn later_map_of_same_name_replaces_type() {
    let mut bytes = header_and_edges();
    bytes.extend(le(2));
    bytes.push(0x00);
    bytes.extend(gt_string("x"));
    bytes.push(0x01);
    bytes.extend(5i16.to_le_bytes().to_vec());
    bytes.push(0x00);
    bytes.extend(gt_string("x"));
    bytes.push(0x03);
    bytes.extend(9i64.to_le_bytes().to_vec());
    let graph = parse_gt(&bytes).unwrap();
    let name = String::from("x");
    assert_eq!(graph.graph_properties.property_type(&name), Some(PropertyType::I64));
    assert_eq!(
        graph.graph_properties.get(PropertyType::I16, &name).unwrap().values,
        vec![(0, PropertyValue::I16(5))]
    );
    assert_eq!(
        graph.graph_properties.get(PropertyType::I64, &name).unwrap().values,
        vec![(0, PropertyValue::I64(9))]
    );
}

#[test]
fn doubles_are_kept_as_bit_patterns() {
    let mut bytes = header_and_edges();
    bytes.extend(le(1));
    bytes.push(0x00);
    bytes.extend(gt_string("pi"));
    bytes.push(0x04);
    bytes.extend(3.25f64.to_le_bytes().to_vec());
    let graph = parse_gt(&bytes).unwrap();
    let pi = graph.graph_properties.get(PropertyType::F64, &String::from("pi")).unwrap();
    match &pi.values[0].1 {
        PropertyValue::F64(F64Bits(bits)) => assert_eq!(f64::from_bits(*bits), 3.25),
        other => panic!("unexpected value {:?}", other),
    }
}

#[test]
fn property_map_count_beyond_the_input_reads_nothing_more() {
    let mut bytes = header_and_edges();
    bytes.extend(le(u64::MAX));
    bytes.push(0x00);
    bytes.extend(gt_string("n"));
    bytes.push(0x01);
    bytes.extend(4i16.to_le_bytes().to_vec());
    let graph = parse_gt(&bytes).unwrap();
    assert_eq!(graph.graph_properties.records.len(), 1);
}

#[test]
fn map_without_value_type_is_not_added() {
    let mut bytes = header_and_edges();
    bytes.extend(le(1));
    bytes.push(0x01);
    bytes.extend(gt_string("cut"));
    let graph = parse_gt(&bytes).unwrap();
    assert_eq!(graph.vertex_properties.records.len(), 0);
    assert_eq!(graph.vertex_properties.property_type(&String::from("cut")), None);
}

#[test]
fn big_endian_file() {
    let mut bytes: Vec<u8> = vec![0xe2, 0x9b, 0xbe, 0x20, 0x67, 0x74, 0x01, 0x01];
    bytes.extend(0u64.to_be_bytes().to_vec());
    bytes.push(0x00);
    bytes.extend(2u64.to_be_bytes().to_vec());
    bytes.extend(1u64.to_be_bytes().to_vec());
    bytes.push(1);
    bytes.extend(0u64.to_be_bytes().to_vec());
    bytes.extend(1u64.to_be_bytes().to_vec());
    bytes.push(0x01);
    bytes.extend(1u64.to_be_bytes().to_vec());
    bytes.extend("w".as_bytes());
    bytes.push(0x08);
    bytes.extend(2u64.to_be_bytes().to_vec());
    bytes.extend((-2i16).to_be_bytes().to_vec());
    bytes.extend(3i16.to_be_bytes().to_vec());
    bytes.extend(0u64.to_be_bytes().to_vec());
    let graph = parse_gt(&bytes).unwrap();
    assert!(!graph.directed);
    assert_eq!(graph.comment, "");
    assert_eq!(graph.edges, vec![vec![1], vec![]]);
    let w = graph.vertex_properties.get(PropertyType::I16Vector, &String::from("w")).unwrap();
    assert_eq!(
        w.values,
        vec![(0, PropertyValue::I16Vector(vec![-2, 3])), (1, PropertyValue::I16Vector(vec![]))]
    );
}

#[test]
fn every_error_of_a_file() {
    let mut bytes: Vec<u8> = vec![0xe2, 0x9b, 0xbe, 0x20, 0x67, 0x74, 0x01];
    assert_eq!(parse_gt(&bytes).err(), Some(ParseError::UnexpectedEnd));
    bytes.push(0x02);
    assert_eq!(parse_gt(&bytes).err(), Some(ParseError::InvalidEndianness(2)));

    let mut bytes: Vec<u8> = vec![0, 0, 0, 0, 0, 0, 0x01, 0x00];
    bytes.extend(gt_string(""));
    bytes.push(0x07);
    assert_eq!(parse_gt(&bytes).err(), Some(ParseError::InvalidDirectedFlag(7)));

    let mut bytes: Vec<u8> = vec![0, 0, 0, 0, 0, 0, 0x01, 0x00];
    bytes.extend(le(1));
    bytes.push(0xff);
    assert_eq!(parse_gt(&bytes).err(), Some(ParseError::InvalidUtf8));

    let mut bytes = header_and_edges();
    bytes.extend(le(1));
    bytes.push(0x03);
    assert_eq!(parse_gt(&bytes).err(), Some(ParseError::UnknownPropertyMapKind(3)));

    let mut bytes = header_and_edges();
    bytes.extend(le(1));
    bytes.push(0x00);
    bytes.extend(gt_string("ld"));
    bytes.push(0x05);
    assert_eq!(parse_gt(&bytes).err(), Some(ParseError::UnsupportedPropertyType(5)));

    let mut bytes = header_and_edges();
    bytes.extend(le(1));
    bytes.push(0x00);
    bytes.extend(gt_string("?"));
    bytes.push(0x20);
    assert_eq!(parse_gt(&bytes).err(), Some(ParseError::UnknownPropertyType(0x20)));

    let mut bytes = header_and_edges();
    bytes.extend(le(1));
    bytes.push(0x01);
    bytes.extend(gt_string("short"));
    bytes.push(0x02);
    bytes.extend(vec![0, 0, 0, 0]);
    assert_eq!(parse_gt(&bytes).err(), Some(ParseError::UnexpectedEnd));

    let bytes = header_and_edges();
    assert_eq!(parse_gt(&bytes).err(), Some(ParseError::UnexpectedEnd));

    let mut bytes: Vec<u8> = vec![0, 0, 0, 0, 0, 0, 0x01, 0x00];
    bytes.extend(gt_string(""));
    bytes.push(0x01);
    bytes.extend(le(u64::MAX));
    let expected = if usize::BITS == 64 {
        ParseError::UnexpectedEnd
    } else {
        ParseError::SizeOverflow
    };
    assert_eq!(parse_gt(&bytes).err(), Some(expected));
}

#[test]
fn property_type_indices() {
    assert_eq!(property_type_index_to_type(0x00), PropertyType::Bool);
    assert_eq!(property_type_index_to_type(0x04), PropertyType::F64);
    assert_eq!(property_type_index_to_type(0x06), PropertyType::String);
    assert_eq!(property_type_index_to_type(0x0d), PropertyType::StringVector);
    assert_eq!(parse_property_type(0x0c), Err(ParseError::UnsupportedPropertyType(0x0c)));
    assert_eq!(parse_property_type(0x0e), Err(ParseError::UnsupportedPropertyType(0x0e)));
    assert_eq!(parse_property_type(0x0f), Err(ParseError::UnknownPropertyType(0x0f)));
    assert_eq!(property_map_type_index_to_type(0x00), PropertyMapType::Graph);
    assert_eq!(property_map_type_index_to_type(0x01), PropertyMapType::Vertex);
    assert_eq!(property_map_type_index_to_type(0x02), PropertyMapType::Edge);
    assert_eq!(parse_property_map_type(0x03), Err(ParseError::UnknownPropertyMapKind(3)));
}

#[test]
fn values_take_the_sizes_of_the_type_table() {
    let mut bytes: Vec<u8> = vec![0x01];
    bytes.extend(gt_string("ab"));
    bytes.extend(le(2));
    bytes.extend(vec![0; 16]);
    bytes.extend(le(2));
    bytes.extend(gt_string("x"));
    bytes.extend(gt_string("yz"));
    let mut pos = ByteIter::new(&bytes);
    let total = bytes.len();
    assert_eq!(parse_value(&mut pos, PropertyType::Bool, Endianness::LittleEndian), Ok(PropertyValue::Bool(true)));
    assert_eq!(total - pos.len(), 1);
    let before = pos.len();
    parse_value(&mut pos, PropertyType::String, Endianness::LittleEndian).unwrap();
    assert_eq!(before - pos.len(), 8 + 2);
    let before = pos.len();
    parse_value(&mut pos, PropertyType::I64Vector, Endianness::LittleEndian).unwrap();
    assert_eq!(before - pos.len(), 8 + 8 * 2);
    let before = pos.len();
    parse_value(&mut pos, PropertyType::StringVector, Endianness::LittleEndian).unwrap();
    assert_eq!(before - pos.len(), 8 + (8 + 1) + (8 + 2));
}

#[test]
fn property_maps_reader_methods() {
    let mut graph = GraphToolGraph {
        directed: true,
        edges: vec![vec![1], vec![]],
        edge_properties: PropertyMaps::new(),
        vertex_properties: PropertyMaps::default(),
        graph_properties: PropertyMaps::new(),
        comment: String::new(),
    };
    let mut bytes = gt_string("e");
    bytes.push(0x00);
    bytes.push(0x01);
    let mut pos = ByteIter::new(&bytes);
    graph.read_edge_property_map(&mut pos, Endianness::LittleEndian);
    assert_eq!(
        graph.edge_properties.get(PropertyType::Bool, &String::from("e")).unwrap().values,
        vec![((0, 1), PropertyValue::Bool(true))]
    );
    let mut bytes = gt_string("v");
    bytes.push(0x01);
    bytes.extend(vec![1, 0, 2, 0]);
    let mut pos = ByteIter::new(&bytes);
    graph.read_vertex_property_map(&mut pos, Endianness::LittleEndian);
    let mut bytes = gt_string("g");
    bytes.push(0x02);
    bytes.extend(vec![9, 0, 0, 0]);
    let mut pos = ByteIter::new(&bytes);
    graph.read_graph_property_map(&mut pos, Endianness::LittleEndian);
    let mut bytes = le(1);
    bytes.push(0x00);
    bytes.extend(gt_string("h"));
    bytes.push(0x00);
    bytes.push(0x00);
    let mut pos = ByteIter::new(&bytes);
    graph.read_property_maps(&mut pos, Endianness::LittleEndian);
    assert_eq!(graph.vertex_properties.records.len(), 1);
    assert_eq!(graph.graph_properties.records.len(), 2);
    assert_eq!(graph.graph_properties.property_type(&String::from("h")), Some(PropertyType::Bool));
    let m: &PropertyMap<usize> = graph.vertex_properties.get(PropertyType::I16, &String::from("v")).unwrap();
    assert_eq!(m.values, vec![(0, PropertyValue::I16(1)), (1, PropertyValue::I16(2))]);
}
