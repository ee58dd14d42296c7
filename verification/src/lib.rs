//! Reader for the graph-tool `gt` binary graph format.
//!
//! A `gt` file holds a magic string, a version byte, an endianness flag, a comment
//! string, the adjacency lists of the graph and a list of graph, vertex and edge
//! property maps.
use vstd::prelude::*;

pub mod byte_iter;
pub mod error;
pub mod property_maps;
pub mod reader;
pub mod values;

use crate::byte_iter::ByteIter;
use crate::error::ParseError;
use crate::property_maps::{
    edge_keys, graph_keys, lemma_edge_keys_set, lemma_map_domain,
    lemma_property_maps_keep_well_formed, lemma_vertex_keys_set, records_keyed_by,
    spec_property_maps, vertex_keys, PropertyMaps, PropertyMapsView, PropertyType,
};
use crate::reader::{
    parse_edges, parse_string, read_directed, read_endianness, read_magic_string,
    read_version_number, spec_edges, spec_string, taken_count, view_all, Endianness,
};

verus! {

/// A graph read from a `gt` file.
pub struct GraphToolGraph {
    /// Whether the graph is directed.
    pub directed: bool,
    /// The out-neighbours of every vertex, in the order of the file.
    pub edges: Vec<Vec<usize>>,
    /// Edge property maps; the value for edge `(u, v)` is keyed by `(u, v)`.
    pub edge_properties: PropertyMaps<(usize, usize)>,
    /// Vertex property maps; the value for vertex `u` is keyed by `u`.
    pub vertex_properties: PropertyMaps<usize>,
    /// Graph property maps; their one value is keyed by `0`.
    pub graph_properties: PropertyMaps<usize>,
    /// The comment of the file header.
    pub comment: String,
}

/// The mathematical value of a [`GraphToolGraph`].
pub struct GraphView {
    pub directed: bool,
    pub edges: Seq<Seq<usize>>,
    pub edge_properties: PropertyMapsView<(usize, usize)>,
    pub vertex_properties: PropertyMapsView<usize>,
    pub graph_properties: PropertyMapsView<usize>,
    pub comment: Seq<char>,
}

impl View for GraphToolGraph {
    type V = GraphView;

    open spec fn view(&self) -> GraphView {
        GraphView {
            directed: self.directed,
            edges: view_all(self.edges@),
            edge_properties: self.edge_properties@,
            vertex_properties: self.vertex_properties@,
            graph_properties: self.graph_properties@,
            comment: self.comment@,
        }
    }
}


impl GraphView {
    /// Every graph property map has one value, keyed by `0`; every vertex property map
    /// has one value for each vertex, in the order of the vertices; every edge property
    /// map has one value for each edge, in the order of the adjacency lists; and all
    /// values of a map are of its value type.
    pub open spec fn well_formed(self) -> bool {
        &&& records_keyed_by(self.graph_properties.records, graph_keys())
        &&& records_keyed_by(self.vertex_properties.records, vertex_keys(self.edges.len()))
        &&& records_keyed_by(self.edge_properties.records, edge_keys(self.edges))
    }
}

/// No property maps.
pub open spec fn no_property_maps<T>() -> PropertyMapsView<T> {
    PropertyMapsView { records: Seq::empty() }
}

/// What reading a whole `gt` file gives.
///
/// The magic string (six bytes, or fewer at the end of the input) and the version byte
/// are read and not checked; then come the endianness flag, the comment, the directed
/// flag, the adjacency lists and the property maps. Bytes after the property maps are
/// ignored.
pub open spec fn spec_parse_gt(s: Seq<u8>) -> core::result::Result<GraphView, ParseError> {
    let s1 = s.skip(taken_count(6, s.len()) as int);
    if s1.len() < 2 {
        Err(ParseError::UnexpectedEnd)
    } else if s1[1] > 1 {
        Err(ParseError::InvalidEndianness(s1[1]))
    } else {
        let endianness = if s1[1] == 0 {
            Endianness::LittleEndian
        } else {
            Endianness::BigEndian
        };
        match spec_string(s1.skip(2), endianness) {
            Err(e) => Err(e),
            Ok((comment, s2)) => if s2.len() < 1 {
                Err(ParseError::UnexpectedEnd)
            } else if s2[0] > 1 {
                Err(ParseError::InvalidDirectedFlag(s2[0]))
            } else {
                match spec_edges(s2.drop_first(), endianness) {
                    Err(e) => Err(e),
                    Ok((edges, s3)) => {
                        let g = GraphView {
                            directed: s2[0] == 1,
                            edges,
                            edge_properties: no_property_maps(),
                            vertex_properties: no_property_maps(),
                            graph_properties: no_property_maps(),
                            comment,
                        };
                        match spec_property_maps(g, s3, endianness) {
                            Ok((g, _)) => Ok(g),
                            Err(e) => Err(e),
                        }
                    },
                }
            },
        }
    }
}

/// The layout of the header of a file that is read: the magic string takes bytes 0 to 5 and
/// the version byte 6; byte 7 is the endianness flag; the comment string starts at byte 8;
/// the directed flag follows the comment, and the adjacency lists follow the flag.
pub proof fn lemma_header_layout(s: Seq<u8>)
    requires
        spec_parse_gt(s) is Ok,
    ensures
        ({
            let g = spec_parse_gt(s)->Ok_0;
            let endianness = if s[7] == 0 {
                Endianness::LittleEndian
            } else {
                Endianness::BigEndian
            };
            let k = 8 + crate::values::string_size(g.comment);
            &&& s.len() > k
            &&& s[7] <= 1
            &&& spec_string(s.skip(8), endianness) matches Ok((c, _)) && c == g.comment
            &&& s[k as int] <= 1
            &&& g.directed == (s[k as int] == 1)
            &&& spec_edges(s.skip(k + 1 as int), endianness) matches Ok((edges, _)) && edges == g.edges
        }),
{
    let s1 = s.skip(taken_count(6, s.len()) as int);
    assert(s1 =~= s.skip(6));
    assert(s1.skip(2) =~= s.skip(8));
    let endianness = if s[7] == 0 {
        Endianness::LittleEndian
    } else {
        Endianness::BigEndian
    };
    crate::values::lemma_string_read_size(s.skip(8), endianness);
    let (comment, s2) = spec_string(s.skip(8), endianness)->Ok_0;
    let k = 8 + crate::values::string_size(comment);
    assert(s2 =~= s.skip(k as int));
    assert(s2.drop_first() =~= s.skip(k + 1 as int));
    let (edges, s3) = spec_edges(s2.drop_first(), endianness)->Ok_0;
    let g0 = GraphView {
        directed: s2[0] == 1,
        edges,
        edge_properties: no_property_maps(),
        vertex_properties: no_property_maps(),
        graph_properties: no_property_maps(),
        comment,
    };
    assert(g0.well_formed());
    lemma_property_maps_keep_well_formed(g0, s3, endianness);
}

/// A graph read from a `gt` file is well formed: the values of its property maps follow
/// the order of the vertices (vertex maps) or of the adjacency lists (edge maps), one for
/// each, and a graph map has one value.
pub proof fn lemma_parsed_graph_well_formed(s: Seq<u8>)
    requires
        spec_parse_gt(s) is Ok,
    ensures
        spec_parse_gt(s)->Ok_0.well_formed(),
{
    let s1 = s.skip(taken_count(6, s.len()) as int);
    let endianness = if s1[1] == 0 {
        Endianness::LittleEndian
    } else {
        Endianness::BigEndian
    };
    let (comment, s2) = spec_string(s1.skip(2), endianness)->Ok_0;
    let (edges, s3) = spec_edges(s2.drop_first(), endianness)->Ok_0;
    let g = GraphView {
        directed: s2[0] == 1,
        edges,
        edge_properties: no_property_maps(),
        vertex_properties: no_property_maps(),
        graph_properties: no_property_maps(),
        comment,
    };
    assert(g.well_formed());
    lemma_property_maps_keep_well_formed(g, s3, endianness);
}

/// In a well-formed graph, a graph property map has a value for the key `0` only, a
/// vertex property map has a value for each vertex and for nothing else, and an edge
/// property map has a value for each edge `(u, v)` of the adjacency lists and for
/// nothing else.
pub proof fn lemma_property_map_domains(graph: GraphToolGraph, t: PropertyType, name: Seq<char>)
    requires
        graph@.well_formed(),
    ensures
        graph@.graph_properties.maps().contains_key((t, name)) ==> graph@.graph_properties.maps()[(
        t,
        name,
        )].dom() == set![0usize],
        graph@.vertex_properties.maps().contains_key((t, name)) ==> graph@.vertex_properties.maps()[(
        t,
        name,
        )].dom() == Set::new(|v: usize| v < graph@.edges.len()),
        graph@.edge_properties.maps().contains_key((t, name)) ==> graph@.edge_properties.maps()[(
        t,
        name,
        )].dom() == Set::new(
            |e: (usize, usize)| e.0 < graph@.edges.len() && graph@.edges[e.0 as int].contains(e.1),
        ),
{
    let g = graph@;
    assert(g.edges.len() == graph.edges.len());
    if g.graph_properties.maps().contains_key((t, name)) {
        lemma_map_domain(g.graph_properties, graph_keys(), (t, name));
        assert(graph_keys().to_set() =~= set![0usize]) by {
            assert(graph_keys()[0] == 0usize);
        }
    }
    if g.vertex_properties.maps().contains_key((t, name)) {
        lemma_map_domain(g.vertex_properties, vertex_keys(g.edges.len()), (t, name));
        lemma_vertex_keys_set(g.edges.len());
    }
    if g.edge_properties.maps().contains_key((t, name)) {
        lemma_map_domain(g.edge_properties, edge_keys(g.edges), (t, name));
        lemma_edge_keys_set(g.edges);
    }
}

/// Reads a graph from the bytes of a `gt` file, or tells why they cannot be read.
pub fn parse_gt(bytes: &[u8]) -> (r: core::result::Result<GraphToolGraph, ParseError>)
    ensures
        match spec_parse_gt(bytes@) {
            Ok(g) => r matches Ok(graph) && graph@ == g,
            Err(e) => r == Err::<GraphToolGraph, ParseError>(e),
        },
{
    let mut pos = ByteIter::new(bytes);
    let _is_gt = read_magic_string(&mut pos);
    let ghost s1 = pos@;
    if pos.len() < 2 {
        return Err(ParseError::UnexpectedEnd);
    }
    let _version = read_version_number(&mut pos);
    let endianness_flag = match pos.peek() {
        Some(flag) => flag,
        None => {
            return Err(ParseError::UnexpectedEnd);
        },
    };
    if endianness_flag > 1 {
        return Err(ParseError::InvalidEndianness(endianness_flag));
    }
    let endianness = match read_endianness(&mut pos) {
        Ok(e) => e,
        Err(_) => {
            return Err(ParseError::UnexpectedEnd);
        },
    };
    assert(pos@ =~= s1.skip(2));
    let comment = match parse_string(&mut pos, endianness) {
        Ok(comment) => comment,
        Err(e) => {
            return Err(e);
        },
    };
    let directed_flag = match pos.peek() {
        Some(flag) => flag,
        None => {
            return Err(ParseError::UnexpectedEnd);
        },
    };
    if directed_flag > 1 {
        return Err(ParseError::InvalidDirectedFlag(directed_flag));
    }
    let directed = match read_directed(&mut pos) {
        Ok(d) => d,
        Err(_) => {
            return Err(ParseError::UnexpectedEnd);
        },
    };
    let edges = match parse_edges(&mut pos, endianness) {
        Ok(edges) => edges,
        Err(e) => {
            return Err(e);
        },
    };
    let mut graph = GraphToolGraph {
        directed,
        edges,
        edge_properties: PropertyMaps::new(),
        vertex_properties: PropertyMaps::new(),
        graph_properties: PropertyMaps::new(),
        comment,
    };
    match graph.parse_property_maps(&mut pos, endianness) {
        Ok(()) => Ok(graph),
        Err(e) => Err(e),
    }
}

} // verus!
