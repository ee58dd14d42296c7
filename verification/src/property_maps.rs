//! Graph, vertex and edge property maps: their value types and how they are read.
use vstd::prelude::*;

use crate::byte_iter::ByteIter;
use crate::error::ParseError;
use crate::reader::{
    iterate, lemma_iterate_err, outcome_matches, parse_string, spec_string, view_all, Endianness,
};
use crate::values::{parse_value, spec_value, PropertyValue, PropertyValueView};
use crate::{GraphToolGraph, GraphView};

verus! {

/// The value types of property maps that can be read.
///
/// `long double`, `vector<long double>` and `python::object` are not supported.
#[derive(Debug, Clone, Copy, PartialEq, Eq, Structural)]
pub enum PropertyType {
    Bool,
    I16,
    I32,
    I64,
    F64,
    String,
    BoolVector,
    I16Vector,
    I32Vector,
    I64Vector,
    F64Vector,
    StringVector,
}

/// What a value type index of the `gt` format stands for.
pub open spec fn property_type_of(index: u8) -> core::result::Result<PropertyType, ParseError> {
    if index == 0x00 {
        Ok(PropertyType::Bool)
    } else if index == 0x01 {
        Ok(PropertyType::I16)
    } else if index == 0x02 {
        Ok(PropertyType::I32)
    } else if index == 0x03 {
        Ok(PropertyType::I64)
    } else if index == 0x04 {
        Ok(PropertyType::F64)
    } else if index == 0x06 {
        Ok(PropertyType::String)
    } else if index == 0x07 {
        Ok(PropertyType::BoolVector)
    } else if index == 0x08 {
        Ok(PropertyType::I16Vector)
    } else if index == 0x09 {
        Ok(PropertyType::I32Vector)
    } else if index == 0x0a {
        Ok(PropertyType::I64Vector)
    } else if index == 0x0b {
        Ok(PropertyType::F64Vector)
    } else if index == 0x0d {
        Ok(PropertyType::StringVector)
    } else if index == 0x05 || index == 0x0c || index == 0x0e {
        Err(ParseError::UnsupportedPropertyType(index))
    } else {
        Err(ParseError::UnknownPropertyType(index))
    }
}

/// The value type for a type index, or why it cannot be read.
pub fn parse_property_type(index: u8) -> (r: core::result::Result<PropertyType, ParseError>)
    ensures
        r == property_type_of(index),
{
    match index {
        0x00 => Ok(PropertyType::Bool),
        0x01 => Ok(PropertyType::I16),
        0x02 => Ok(PropertyType::I32),
        0x03 => Ok(PropertyType::I64),
        0x04 => Ok(PropertyType::F64),
        0x05 => Err(ParseError::UnsupportedPropertyType(index)),
        0x06 => Ok(PropertyType::String),
        0x07 => Ok(PropertyType::BoolVector),
        0x08 => Ok(PropertyType::I16Vector),
        0x09 => Ok(PropertyType::I32Vector),
        0x0a => Ok(PropertyType::I64Vector),
        0x0b => Ok(PropertyType::F64Vector),
        0x0c => Err(ParseError::UnsupportedPropertyType(index)),
        0x0d => Ok(PropertyType::StringVector),
        0x0e => Err(ParseError::UnsupportedPropertyType(index)),
        _ => Err(ParseError::UnknownPropertyType(index)),
    }
}

/// The index of each value type in the table of value types of the `gt` format:
/// `bool` 0x00, `int16_t` 0x01, `int32_t` 0x02, `int64_t` 0x03, `double` 0x04,
/// `string` 0x06, `vector<bool>` 0x07, `vector<int16_t>` 0x08, `vector<int32_t>` 0x09,
/// `vector<int64_t>` 0x0a, `vector<double>` 0x0b, `vector<string>` 0x0d.
pub open spec fn type_table_index(t: PropertyType) -> u8 {
    match t {
        PropertyType::Bool => 0x00,
        PropertyType::I16 => 0x01,
        PropertyType::I32 => 0x02,
        PropertyType::I64 => 0x03,
        PropertyType::F64 => 0x04,
        PropertyType::String => 0x06,
        PropertyType::BoolVector => 0x07,
        PropertyType::I16Vector => 0x08,
        PropertyType::I32Vector => 0x09,
        PropertyType::I64Vector => 0x0a,
        PropertyType::F64Vector => 0x0b,
        PropertyType::StringVector => 0x0d,
    }
}

/// Decoding a value type index follows the table of value types: every supported type is
/// decoded from its own row's index, and an index that decodes gives the type of its row.
pub proof fn lemma_type_index_table(index: u8, t: PropertyType)
    ensures
        property_type_of(type_table_index(t)) == Ok::<PropertyType, ParseError>(t),
        property_type_of(index) matches Ok(u) ==> type_table_index(u) == index,
{
}

/// The type indices that can be read are all below `0x0e` but `0x05` (`long double`) and
/// `0x0c` (`vector<long double>`).
pub proof fn lemma_supported_type_indices(index: u8)
    ensures
        property_type_of(index) is Ok <==> index != 0x05 && index != 0x0c && index < 0x0e,
{
}

/// The value type for a supported type index.
pub fn property_type_index_to_type(index: u8) -> (t: PropertyType)
    requires
        property_type_of(index) is Ok,
    ensures
        property_type_of(index) == Ok::<PropertyType, ParseError>(t),
{
    match parse_property_type(index) {
        Ok(t) => t,
        Err(_) => {
            assert(false);
            PropertyType::Bool
        },
    }
}

/// Whether a property map belongs to the graph, to the vertices or to the edges.
#[derive(Debug, Clone, Copy, PartialEq, Eq, Structural)]
pub enum PropertyMapType {
    Graph,
    Vertex,
    Edge,
}

/// What a key type index stands for: `0x00` graph, `0x01` vertex, `0x02` edge.
pub open spec fn property_map_type_of(index: u8) -> core::result::Result<PropertyMapType, ParseError> {
    if index == 0x00 {
        Ok(PropertyMapType::Graph)
    } else if index == 0x01 {
        Ok(PropertyMapType::Vertex)
    } else if index == 0x02 {
        Ok(PropertyMapType::Edge)
    } else {
        Err(ParseError::UnknownPropertyMapKind(index))
    }
}

/// The key type index of each kind of property map: graph 0x00, vertex 0x01, edge 0x02.
pub open spec fn kind_table_index(k: PropertyMapType) -> u8 {
    match k {
        PropertyMapType::Graph => 0x00,
        PropertyMapType::Vertex => 0x01,
        PropertyMapType::Edge => 0x02,
    }
}

/// Decoding a key type index follows the format: each kind is decoded from its own index,
/// and an index that decodes gives the kind of that index.
pub proof fn lemma_kind_index_table(index: u8, k: PropertyMapType)
    ensures
        property_map_type_of(kind_table_index(k)) == Ok::<PropertyMapType, ParseError>(k),
        property_map_type_of(index) matches Ok(u) ==> kind_table_index(u) == index,
{
}

/// The key type for a key type index, or why it cannot be read.
pub fn parse_property_map_type(index: u8) -> (r: core::result::Result<PropertyMapType, ParseError>)
    ensures
        r == property_map_type_of(index),
{
    match index {
        0x00 => Ok(PropertyMapType::Graph),
        0x01 => Ok(PropertyMapType::Vertex),
        0x02 => Ok(PropertyMapType::Edge),
        _ => Err(ParseError::UnknownPropertyMapKind(index)),
    }
}

/// The key type for a key type index of at most `0x02`.
pub fn property_map_type_index_to_type(index: u8) -> (t: PropertyMapType)
    requires
        index <= 2,
    ensures
        property_map_type_of(index) == Ok::<PropertyMapType, ParseError>(t),
{
    match index {
        0x00 => PropertyMapType::Graph,
        0x01 => PropertyMapType::Vertex,
        _ => PropertyMapType::Edge,
    }
}


/// One property map: its name, its value type and its values with their keys,
/// in the order in which the file lists them.
pub struct PropertyMap<T> {
    pub name: String,
    pub value_type: PropertyType,
    pub values: Vec<(T, PropertyValue)>,
}

/// The mathematical value of a [`PropertyMap`].
pub struct PropertyMapView<T> {
    pub name: Seq<char>,
    pub value_type: PropertyType,
    pub values: Seq<(T, PropertyValueView)>,
}

/// The views of keyed values.
pub open spec fn pairs_view<T>(ps: Seq<(T, PropertyValue)>) -> Seq<(T, PropertyValueView)> {
    ps.map_values(|p: (T, PropertyValue)| (p.0, p.1@))
}

impl<T> View for PropertyMap<T> {
    type V = PropertyMapView<T>;

    open spec fn view(&self) -> PropertyMapView<T> {
        PropertyMapView { name: self.name@, value_type: self.value_type, values: pairs_view(self.values@) }
    }
}

/// The map obtained by inserting the pairs in order: a later value for a key replaces an
/// earlier one.
pub open spec fn pairs_to_map<T>(ps: Seq<(T, PropertyValueView)>) -> Map<T, PropertyValueView>
    decreases ps.len(),
{
    if ps.len() == 0 {
        Map::empty()
    } else {
        pairs_to_map(ps.drop_last()).insert(ps.last().0, ps.last().1)
    }
}

impl<T> PropertyMapView<T> {
    /// The values of the map by key.
    pub open spec fn as_map(self) -> Map<T, PropertyValueView> {
        pairs_to_map(self.values)
    }
}

/// The property maps of one kind (graph, vertex or edge), in the order in which they were read.
///
/// Maps are looked up by value type and name (`get`) and the value type of a name by name
/// (`property_type`); both see the last map read, as the views `maps` and `key_to_type` say.
pub struct PropertyMaps<T> {
    pub records: Vec<PropertyMap<T>>,
}

/// The mathematical value of [`PropertyMaps`].
pub struct PropertyMapsView<T> {
    pub records: Seq<PropertyMapView<T>>,
}

impl<T> View for PropertyMaps<T> {
    type V = PropertyMapsView<T>;

    open spec fn view(&self) -> PropertyMapsView<T> {
        PropertyMapsView { records: self.records@.map_values(|m: PropertyMap<T>| m@) }
    }
}

/// The maps by value type and name: each record replaces an earlier one of the same
/// type and name.
pub open spec fn records_maps<T>(rs: Seq<PropertyMapView<T>>) -> Map<
    (PropertyType, Seq<char>),
    Map<T, PropertyValueView>,
>
    decreases rs.len(),
{
    if rs.len() == 0 {
        Map::empty()
    } else {
        records_maps(rs.drop_last()).insert(
            (rs.last().value_type, rs.last().name),
            rs.last().as_map(),
        )
    }
}

/// The value type of each name: the type of the last record of that name.
pub open spec fn records_types<T>(rs: Seq<PropertyMapView<T>>) -> Map<Seq<char>, PropertyType>
    decreases rs.len(),
{
    if rs.len() == 0 {
        Map::empty()
    } else {
        records_types(rs.drop_last()).insert(rs.last().name, rs.last().value_type)
    }
}

impl<T> PropertyMapsView<T> {
    /// The property maps by value type and name.
    pub open spec fn maps(self) -> Map<(PropertyType, Seq<char>), Map<T, PropertyValueView>> {
        records_maps(self.records)
    }

    /// The value type of each property map name.
    pub open spec fn key_to_type(self) -> Map<Seq<char>, PropertyType> {
        records_types(self.records)
    }

    /// These maps with one more record, where there is one.
    pub open spec fn add(self, record: Option<PropertyMapView<T>>) -> Self {
        match record {
            Some(m) => PropertyMapsView { records: self.records.push(m) },
            None => self,
        }
    }
}

/// Every name with a value type has a property map of that type and name, and every
/// property map's name has a value type.
pub proof fn lemma_key_to_type_consistent<T>(m: PropertyMapsView<T>, name: Seq<char>, t: PropertyType)
    ensures
        m.key_to_type().contains_key(name) ==> m.maps().contains_key((m.key_to_type()[name], name)),
        m.maps().contains_key((t, name)) ==> m.key_to_type().contains_key(name),
    decreases m.records.len(),
{
    if m.records.len() > 0 {
        lemma_key_to_type_consistent(PropertyMapsView { records: m.records.drop_last() }, name, t);
    }
}

/// The map of a record holds, for a key, the value of the last pair with that key.
pub proof fn lemma_value_of_key<T>(r: PropertyMapView<T>, j: int)
    requires
        0 <= j < r.values.len(),
        forall|k: int| j < k < r.values.len() ==> (#[trigger] r.values[k]).0 != r.values[j].0,
    ensures
        r.as_map().contains_key(r.values[j].0),
        r.as_map()[r.values[j].0] == r.values[j].1,
    decreases r.values.len(),
{
    let ps = r.values;
    if j < ps.len() - 1 {
        let prev = PropertyMapView { values: ps.drop_last(), ..r };
        assert forall|k: int| j < k < prev.values.len() implies (#[trigger] prev.values[k]).0
            != prev.values[j].0 by {
            assert(prev.values[k] == ps[k]);
        }
        lemma_value_of_key(prev, j);
        assert(ps[ps.len() - 1] == ps.last());
    }
}

/// After a property map is added, its name has its value type, and its type and name give
/// its values.
pub proof fn lemma_added_record_lookup<T>(m: PropertyMapsView<T>, r: PropertyMapView<T>)
    ensures
        m.add(Some(r)).key_to_type()[r.name] == r.value_type,
        m.add(Some(r)).maps().contains_key((r.value_type, r.name)),
        m.add(Some(r)).maps()[(r.value_type, r.name)] == r.as_map(),
{
    let rs = m.records.push(r);
    assert(rs.drop_last() =~= m.records);
}

/// A vertex property map has, for each vertex `i`, the `i`-th value read.
pub proof fn lemma_vertex_values(r: PropertyMapView<usize>, n: nat, i: int)
    requires
        n <= usize::MAX + 1,
        r.keyed_by(vertex_keys(n)),
        0 <= i < n,
    ensures
        r.as_map().contains_key(i as usize),
        r.as_map()[i as usize] == r.values[i].1,
{
    assert forall|k: int| i < k < r.values.len() implies (#[trigger] r.values[k]).0 != r.values[i].0 by {
        assert(r.values[k].0 == vertex_keys(n)[k]);
        assert(r.values[i].0 == vertex_keys(n)[i]);
    }
    lemma_value_of_key(r, i);
    assert(r.values[i].0 == vertex_keys(n)[i]);
}

/// Every property map of `maps()` is the map of one of the records.
proof fn lemma_maps_from_record<T>(rs: Seq<PropertyMapView<T>>, k: (PropertyType, Seq<char>))
    requires
        records_maps(rs).contains_key(k),
    ensures
        exists|i: int|
            0 <= i < rs.len() && (#[trigger] rs[i]).value_type == k.0 && rs[i].name == k.1
                && records_maps(rs)[k] == rs[i].as_map(),
    decreases rs.len(),
{
    if (rs.last().value_type, rs.last().name) == k {
        assert(rs[rs.len() - 1] == rs.last());
    } else {
        lemma_maps_from_record(rs.drop_last(), k);
        let i = choose|i: int|
            0 <= i < rs.drop_last().len() && (#[trigger] rs.drop_last()[i]).value_type == k.0
                && rs.drop_last()[i].name == k.1 && records_maps(rs.drop_last())[k]
                == rs.drop_last()[i].as_map();
        assert(rs[i] == rs.drop_last()[i]);
    }
}

/// The keys of a sequence of pairs are the keys of the map it builds.
proof fn lemma_pairs_to_map_domain<T>(ps: Seq<(T, PropertyValueView)>)
    ensures
        pairs_to_map(ps).dom() == ps.map_values(|p: (T, PropertyValueView)| p.0).to_set(),
    decreases ps.len(),
{
    let keys = ps.map_values(|p: (T, PropertyValueView)| p.0);
    if ps.len() == 0 {
        assert(keys.to_set() =~= Set::empty());
    } else {
        lemma_pairs_to_map_domain(ps.drop_last());
        let prev = ps.drop_last().map_values(|p: (T, PropertyValueView)| p.0);
        assert(keys =~= prev.push(ps.last().0));
        assert(keys.to_set() =~= prev.to_set().insert(ps.last().0)) by {
            assert forall|k: T| keys.to_set().contains(k) implies prev.to_set().insert(
                ps.last().0,
            ).contains(k) by {
                let j = choose|j: int| 0 <= j < keys.len() && keys[j] == k;
                if j < keys.len() - 1 {
                    assert(prev[j] == k);
                }
            }
            assert forall|k: T| prev.to_set().insert(ps.last().0).contains(k) implies keys.to_set().contains(
                k,
            ) by {
                if k == ps.last().0 {
                    assert(keys[keys.len() - 1] == k);
                } else {
                    let j = choose|j: int| 0 <= j < prev.len() && prev[j] == k;
                    assert(keys[j] == k);
                }
            }
        }
    }
}

/// A property map whose values are keyed, in order, by `keys`, and are all of its type.
impl<T> PropertyMapView<T> {
    pub open spec fn keyed_by(self, keys: Seq<T>) -> bool {
        &&& self.values.len() == keys.len()
        &&& forall|j: int|
            0 <= j < keys.len() ==> (#[trigger] self.values[j]).0 == keys[j]
                && self.values[j].1.has_type(self.value_type)
    }
}

/// All records are keyed by `keys`.
pub open spec fn records_keyed_by<T>(rs: Seq<PropertyMapView<T>>, keys: Seq<T>) -> bool {
    forall|i: int| 0 <= i < rs.len() ==> (#[trigger] rs[i]).keyed_by(keys)
}

/// When every property map has one value for each of `keys`, each map of `maps()` holds
/// exactly the keys in `keys`.
pub proof fn lemma_map_domain<T>(m: PropertyMapsView<T>, keys: Seq<T>, k: (PropertyType, Seq<char>))
    requires
        records_keyed_by(m.records, keys),
        m.maps().contains_key(k),
    ensures
        m.maps()[k].dom() == keys.to_set(),
{
    lemma_maps_from_record(m.records, k);
    let i = choose|i: int|
        0 <= i < m.records.len() && (#[trigger] m.records[i]).value_type == k.0 && m.records[i].name
            == k.1 && records_maps(m.records)[k] == m.records[i].as_map();
    let r = m.records[i];
    assert(r.keyed_by(keys));
    lemma_pairs_to_map_domain(r.values);
    assert(r.values.map_values(|p: (T, PropertyValueView)| p.0) =~= keys);
}

/// A value read as type `t` is of type `t`.
proof fn lemma_value_has_type(s: Seq<u8>, t: PropertyType, endianness: Endianness)
    requires
        spec_value(s, t, endianness) is Ok,
    ensures
        spec_value(s, t, endianness)->Ok_0.0.has_type(t),
{
}

/// After `k` steps of reading a property map's values, the values read so far are keyed by
/// the first `k` keys and are of the map's type.
proof fn lemma_column_keyed<K>(
    s: Seq<u8>,
    keys: Seq<K>,
    t: PropertyType,
    endianness: Endianness,
    k: nat,
)
    requires
        iterate(column_step(keys, t, endianness), (Seq::empty(), s), k) is Ok,
    ensures
        ({
            let vs = iterate(column_step(keys, t, endianness), (Seq::empty(), s), k)->Ok_0.0;
            &&& vs.len() == k
            &&& forall|j: int|
                0 <= j < k ==> (#[trigger] vs[j]).0 == keys[j] && vs[j].1.has_type(t)
        }),
    decreases k,
{
    let step = column_step(keys, t, endianness);
    if k > 0 {
        let prev = iterate(step, (Seq::empty(), s), (k - 1) as nat);
        if prev is Err {
            assert(iterate(step, (Seq::empty(), s), k) == prev);
        } else {
            lemma_column_keyed(s, keys, t, endianness, (k - 1) as nat);
            let (vs0, r0) = prev->Ok_0;
            lemma_value_has_type(r0, t, endianness);
            let vs = iterate(step, (Seq::empty(), s), k)->Ok_0.0;
            assert forall|j: int| 0 <= j < k implies (#[trigger] vs[j]).0 == keys[j] && vs[j].1.has_type(
                t,
            ) by {
                if j < k - 1 {
                    assert(vs[j] == vs0[j]);
                }
            }
        }
    }
}

/// A property map that is read has one value for each key, in order.
proof fn lemma_record_keyed<K>(s: Seq<u8>, keys: Seq<K>, endianness: Endianness)
    requires
        spec_record(s, keys, endianness) matches Ok((Some(_), _)),
    ensures
        spec_record(s, keys, endianness)->Ok_0.0->Some_0.keyed_by(keys),
{
    let (name, s1) = spec_string(s, endianness)->Ok_0;
    let t = property_type_of(s1[0])->Ok_0;
    lemma_column_keyed(s1.drop_first(), keys, t, endianness, keys.len());
}

/// A property map whose name is followed by a value type byte is always added once its
/// values are read: the record is missing only when the input ends right after the name,
/// and otherwise it has the name read, the type of its type byte and one value per key.
pub proof fn lemma_record_present<K>(s: Seq<u8>, keys: Seq<K>, endianness: Endianness)
    requires
        spec_record(s, keys, endianness) is Ok,
    ensures
        ({
            let (r, rest) = spec_record(s, keys, endianness)->Ok_0;
            let (name, after_name) = spec_string(s, endianness)->Ok_0;
            &&& spec_string(s, endianness) is Ok
            &&& (r is None <==> after_name.len() == 0)
            &&& r is None ==> rest == after_name
            &&& r matches Some(m) ==> {
                &&& m.name == name
                &&& property_type_of(after_name[0]) == Ok::<PropertyType, ParseError>(m.value_type)
                &&& m.values.len() == keys.len()
            }
        }),
{
    if spec_record(s, keys, endianness)->Ok_0.0 is Some {
        lemma_record_keyed(s, keys, endianness);
    }
}

/// Reading a property map of any kind adds it to the maps of that kind when its value type
/// byte is there: the maps of that kind get one more record, and its name gets its type.
pub proof fn lemma_property_map_added(
    g: GraphView,
    kind: PropertyMapType,
    s: Seq<u8>,
    endianness: Endianness,
)
    requires
        spec_property_map(g, kind, s, endianness) is Ok,
        spec_string(s, endianness) matches Ok((_, after_name)) && after_name.len() > 0,
    ensures
        ({
            let g2 = spec_property_map(g, kind, s, endianness)->Ok_0.0;
            let (name, after_name) = spec_string(s, endianness)->Ok_0;
            let t = property_type_of(after_name[0])->Ok_0;
            &&& property_type_of(after_name[0]) is Ok
            &&& match kind {
                PropertyMapType::Graph => {
                    &&& g2.graph_properties.records.len() == g.graph_properties.records.len() + 1
                    &&& g2.graph_properties.key_to_type()[name] == t
                    &&& g2.graph_properties.maps().contains_key((t, name))
                },
                PropertyMapType::Vertex => {
                    &&& g2.vertex_properties.records.len() == g.vertex_properties.records.len() + 1
                    &&& g2.vertex_properties.key_to_type()[name] == t
                    &&& g2.vertex_properties.maps().contains_key((t, name))
                },
                PropertyMapType::Edge => {
                    &&& g2.edge_properties.records.len() == g.edge_properties.records.len() + 1
                    &&& g2.edge_properties.key_to_type()[name] == t
                    &&& g2.edge_properties.maps().contains_key((t, name))
                },
            }
        }),
{
    match kind {
        PropertyMapType::Graph => {
            lemma_record_present(s, graph_keys(), endianness);
            let m = spec_record(s, graph_keys(), endianness)->Ok_0.0->Some_0;
            lemma_added_record_lookup(g.graph_properties, m);
        },
        PropertyMapType::Vertex => {
            lemma_record_present(s, vertex_keys(g.edges.len()), endianness);
            let m = spec_record(s, vertex_keys(g.edges.len()), endianness)->Ok_0.0->Some_0;
            lemma_added_record_lookup(g.vertex_properties, m);
        },
        PropertyMapType::Edge => {
            lemma_record_present(s, edge_keys(g.edges), endianness);
            let m = spec_record(s, edge_keys(g.edges), endianness)->Ok_0.0->Some_0;
            lemma_added_record_lookup(g.edge_properties, m);
        },
    }
}

/// Reading a vertex property map: its name gets its value type, and the map of that type and
/// name has a value for each vertex and nothing else, the `i`-th value read for vertex `i`.
pub proof fn lemma_vertex_map_read(g: GraphView, s: Seq<u8>, endianness: Endianness)
    requires
        g.edges.len() <= usize::MAX + 1,
        spec_record(s, vertex_keys(g.edges.len()), endianness) matches Ok((Some(_), _)),
    ensures
        ({
            let (r, rest) = spec_record(s, vertex_keys(g.edges.len()), endianness)->Ok_0;
            let m = r->Some_0;
            let g2 = spec_property_map(g, PropertyMapType::Vertex, s, endianness)->Ok_0.0;
            let map = g2.vertex_properties.maps()[(m.value_type, m.name)];
            &&& spec_property_map(g, PropertyMapType::Vertex, s, endianness)->Ok_0.1 == rest
            &&& g2.vertex_properties.key_to_type()[m.name] == m.value_type
            &&& g2.vertex_properties.maps().contains_key((m.value_type, m.name))
            &&& map.dom() == Set::new(|v: usize| v < g.edges.len())
            &&& forall|i: int| 0 <= i < g.edges.len() ==> map[i as usize] == (#[trigger] m.values[i]).1
        }),
{
    let n = g.edges.len();
    let keys = vertex_keys(n);
    let m = spec_record(s, keys, endianness)->Ok_0.0->Some_0;
    lemma_record_keyed(s, keys, endianness);
    lemma_added_record_lookup(g.vertex_properties, m);
    lemma_pairs_to_map_domain(m.values);
    assert(m.values.map_values(|p: (usize, PropertyValueView)| p.0) =~= keys);
    lemma_vertex_keys_set(n);
    assert forall|i: int| 0 <= i < n implies m.as_map()[i as usize] == (#[trigger] m.values[i]).1 by {
        lemma_vertex_values(m, n, i);
    }
}

/// Reading an edge property map: its name gets its value type, and the map of that type and
/// name has a value for each edge `(u, v)` of the adjacency lists and nothing else; for an
/// edge listed more than once, the value read last.
pub proof fn lemma_edge_map_read(g: GraphView, s: Seq<u8>, endianness: Endianness)
    requires
        g.edges.len() <= usize::MAX + 1,
        spec_record(s, edge_keys(g.edges), endianness) matches Ok((Some(_), _)),
    ensures
        ({
            let (r, rest) = spec_record(s, edge_keys(g.edges), endianness)->Ok_0;
            let m = r->Some_0;
            let g2 = spec_property_map(g, PropertyMapType::Edge, s, endianness)->Ok_0.0;
            let map = g2.edge_properties.maps()[(m.value_type, m.name)];
            &&& spec_property_map(g, PropertyMapType::Edge, s, endianness)->Ok_0.1 == rest
            &&& g2.edge_properties.key_to_type()[m.name] == m.value_type
            &&& g2.edge_properties.maps().contains_key((m.value_type, m.name))
            &&& map.dom() == Set::new(
                |e: (usize, usize)| e.0 < g.edges.len() && g.edges[e.0 as int].contains(e.1),
            )
            &&& forall|k: int|
                0 <= k < m.values.len() && (forall|l: int|
                    k < l < m.values.len() ==> (#[trigger] m.values[l]).0 != m.values[k].0)
                    ==> map[(#[trigger] m.values[k]).0] == m.values[k].1
        }),
{
    let keys = edge_keys(g.edges);
    let m = spec_record(s, keys, endianness)->Ok_0.0->Some_0;
    lemma_record_keyed(s, keys, endianness);
    lemma_added_record_lookup(g.edge_properties, m);
    lemma_pairs_to_map_domain(m.values);
    assert(m.values.map_values(|p: ((usize, usize), PropertyValueView)| p.0) =~= keys);
    lemma_edge_keys_set(g.edges);
    assert forall|k: int|
        0 <= k < m.values.len() && (forall|l: int|
            k < l < m.values.len() ==> (#[trigger] m.values[l]).0 != m.values[k].0) implies
        m.as_map()[(#[trigger] m.values[k]).0] == m.values[k].1 by {
        lemma_value_of_key(m, k);
    }
}

/// Reading the list of property maps takes, at each step, the key type byte at the front and
/// reads one map of that kind; at the end of the input it reads nothing.
pub proof fn lemma_property_maps_one_step(g: GraphView, s: Seq<u8>, endianness: Endianness)
    ensures
        s.len() == 0 ==> iterate(property_maps_step(endianness), (g, s), 1) == Ok::<
            (GraphView, Seq<u8>),
            ParseError,
        >((g, s)),
        s.len() > 0 ==> iterate(property_maps_step(endianness), (g, s), 1) == match property_map_type_of(
            s[0],
        ) {
            Ok(kind) => spec_property_map(g, kind, s.drop_first(), endianness),
            Err(e) => Err(e),
        },
        s.len() > 0 && s[0] <= 2 ==> iterate(property_maps_step(endianness), (g, s), 1)
            == spec_property_map(
            g,
            if s[0] == 0 {
                PropertyMapType::Graph
            } else if s[0] == 1 {
                PropertyMapType::Vertex
            } else {
                PropertyMapType::Edge
            },
            s.drop_first(),
            endianness,
        ),
{
    assert(iterate(property_maps_step(endianness), (g, s), 0) == Ok::<
        (GraphView, Seq<u8>),
        ParseError,
    >((g, s)));
    assert(iterate(property_maps_step(endianness), (g, s), 1) == property_maps_step(endianness)(
        (g, s),
    ));
}

/// Reading property maps into a well-formed graph gives a well-formed graph.
pub proof fn lemma_property_maps_keep_well_formed(g: GraphView, s: Seq<u8>, endianness: Endianness)
    requires
        g.well_formed(),
        spec_property_maps(g, s, endianness) is Ok,
    ensures
        spec_property_maps(g, s, endianness)->Ok_0.0.well_formed(),
        spec_property_maps(g, s, endianness)->Ok_0.0.edges == g.edges,
        spec_property_maps(g, s, endianness)->Ok_0.0.directed == g.directed,
        spec_property_maps(g, s, endianness)->Ok_0.0.comment == g.comment,
{
    lemma_property_maps_steps_keep_well_formed(
        g,
        s.skip(8),
        endianness,
        crate::reader::length_prefix(s, endianness) as nat,
    );
}

proof fn lemma_property_maps_steps_keep_well_formed(
    g: GraphView,
    s: Seq<u8>,
    endianness: Endianness,
    k: nat,
)
    requires
        g.well_formed(),
        iterate(property_maps_step(endianness), (g, s), k) is Ok,
    ensures
        iterate(property_maps_step(endianness), (g, s), k)->Ok_0.0.well_formed(),
        iterate(property_maps_step(endianness), (g, s), k)->Ok_0.0.edges == g.edges,
        iterate(property_maps_step(endianness), (g, s), k)->Ok_0.0.directed == g.directed,
        iterate(property_maps_step(endianness), (g, s), k)->Ok_0.0.comment == g.comment,
    decreases k,
{
    let step = property_maps_step(endianness);
    if k > 0 {
        let prev = iterate(step, (g, s), (k - 1) as nat);
        if prev is Err {
            assert(iterate(step, (g, s), k) == prev);
        } else {
            lemma_property_maps_steps_keep_well_formed(g, s, endianness, (k - 1) as nat);
            let (g0, r0) = prev->Ok_0;
            if r0.len() > 0 {
                let kind = property_map_type_of(r0[0])->Ok_0;
                let rest = r0.drop_first();
                match kind {
                    PropertyMapType::Graph => {
                        if spec_record(rest, graph_keys(), endianness) matches Ok((Some(_), _)) {
                            lemma_record_keyed(rest, graph_keys(), endianness);
                        }
                    },
                    PropertyMapType::Vertex => {
                        if spec_record(rest, vertex_keys(g0.edges.len()), endianness) matches Ok(
                            (Some(_), _),
                        ) {
                            lemma_record_keyed(rest, vertex_keys(g0.edges.len()), endianness);
                        }
                    },
                    PropertyMapType::Edge => {
                        if spec_record(rest, edge_keys(g0.edges), endianness) matches Ok((Some(_), _)) {
                            lemma_record_keyed(rest, edge_keys(g0.edges), endianness);
                        }
                    },
                }
                let g1 = iterate(step, (g, s), k)->Ok_0.0;
                assert(g1.well_formed());
            }
        }
    }
}

/// The keys of a vertex property map are the vertices below `n`.
pub proof fn lemma_vertex_keys_set(n: nat)
    requires
        n <= usize::MAX + 1,
    ensures
        vertex_keys(n).to_set() == Set::new(|v: usize| v < n),
{
    let keys = vertex_keys(n);
    assert forall|v: usize| #[trigger] keys.to_set().contains(v) <==> v < n by {
        if v < n {
            assert(keys[v as int] == v);
        }
    }
    assert(keys.to_set() =~= Set::new(|v: usize| v < n));
}

/// The keys of an edge property map are the edges `(u, v)` with `v` among the
/// out-neighbours of `u`.
pub proof fn lemma_edge_keys_set(edges: Seq<Seq<usize>>)
    requires
        edges.len() <= usize::MAX + 1,
    ensures
        edge_keys(edges).to_set() == Set::new(
            |e: (usize, usize)| e.0 < edges.len() && edges[e.0 as int].contains(e.1),
        ),
    decreases edges.len(),
{
    if edges.len() > 0 {
        let prev = edges.drop_last();
        lemma_edge_keys_set(prev);
        let u = (edges.len() - 1) as usize;
        let tail = edges.last().map_values(|v: usize| (u, v));
        let keys = edge_keys(edges);
        assert(keys == edge_keys(prev) + tail);
        assert forall|e: (usize, usize)| #[trigger] keys.to_set().contains(e) <==> (e.0 < edges.len()
            && edges[e.0 as int].contains(e.1)) by {
            if keys.to_set().contains(e) {
                let j = choose|j: int| 0 <= j < keys.len() && keys[j] == e;
                if j < edge_keys(prev).len() {
                    assert(edge_keys(prev).to_set().contains(e));
                    assert(prev[e.0 as int] == edges[e.0 as int]);
                } else {
                    let jj = j - edge_keys(prev).len();
                    assert(tail[jj] == e);
                    assert(edges.last()[jj] == e.1);
                    assert(edges[u as int] == edges.last());
                }
            }
            if e.0 < edges.len() && edges[e.0 as int].contains(e.1) {
                let jj = choose|jj: int| 0 <= jj < edges[e.0 as int].len() && edges[e.0 as int][jj] == e.1;
                if e.0 < edges.len() - 1 {
                    assert(prev[e.0 as int] == edges[e.0 as int]);
                    assert(edge_keys(prev).to_set().contains(e));
                    let j = choose|j: int| 0 <= j < edge_keys(prev).len() && edge_keys(prev)[j] == e;
                    assert(keys[j] == e);
                } else {
                    assert(edges[e.0 as int] == edges.last());
                    assert(tail[jj] == e);
                    assert(keys[edge_keys(prev).len() + jj] == e);
                }
            }
        }
        assert(keys.to_set() =~= Set::new(
            |e: (usize, usize)| e.0 < edges.len() && edges[e.0 as int].contains(e.1),
        ));
    } else {
        assert(edge_keys(edges).to_set() =~= Set::new(
            |e: (usize, usize)| e.0 < edges.len() && edges[e.0 as int].contains(e.1),
        ));
    }
}

/// Records after index `i` with other keys do not change what the first `i` records give.
proof fn lemma_records_suffix<T>(rs: Seq<PropertyMapView<T>>, i: int, t: PropertyType, name: Seq<char>)
    requires
        0 <= i <= rs.len(),
        forall|j: int| i <= j < rs.len() ==> !(#[trigger] rs[j].value_type == t && rs[j].name == name),
    ensures
        records_maps(rs).contains_key((t, name)) == records_maps(rs.take(i)).contains_key((t, name)),
        records_maps(rs)[(t, name)] == records_maps(rs.take(i))[(t, name)],
    decreases rs.len(),
{
    if rs.len() > i {
        assert(rs.drop_last().take(i) =~= rs.take(i));
        lemma_records_suffix(rs.drop_last(), i, t, name);
        assert(rs[rs.len() - 1] == rs.last());
    } else {
        assert(rs.take(i) =~= rs);
    }
}

/// Records after index `i` with other names do not change the type of `name`.
proof fn lemma_types_suffix<T>(rs: Seq<PropertyMapView<T>>, i: int, name: Seq<char>)
    requires
        0 <= i <= rs.len(),
        forall|j: int| i <= j < rs.len() ==> #[trigger] rs[j].name != name,
    ensures
        records_types(rs).contains_key(name) == records_types(rs.take(i)).contains_key(name),
        records_types(rs)[name] == records_types(rs.take(i))[name],
    decreases rs.len(),
{
    if rs.len() > i {
        assert(rs.drop_last().take(i) =~= rs.take(i));
        lemma_types_suffix(rs.drop_last(), i, name);
        assert(rs[rs.len() - 1] == rs.last());
    } else {
        assert(rs.take(i) =~= rs);
    }
}

impl<T> Default for PropertyMaps<T> {
    fn default() -> (m: Self)
        ensures
            m@.records == Seq::<PropertyMapView<T>>::empty(),
    {
        Self::new()
    }
}

impl<T> PropertyMaps<T> {
    /// No property maps.
    pub fn new() -> (m: Self)
        ensures
            m@.records == Seq::<PropertyMapView<T>>::empty(),
    {
        let m = PropertyMaps { records: Vec::new() };
        assert(m@.records =~= Seq::<PropertyMapView<T>>::empty());
        m
    }

    /// Adds a property map after those already read.
    pub fn insert(&mut self, map: PropertyMap<T>)
        ensures
            final(self)@.records == old(self)@.records.push(map@),
    {
        self.records.push(map);
        assert(self@.records =~= old(self)@.records.push(map@));
    }

    /// The property map of the given value type and name, if there is one.
    pub fn get(&self, value_type: PropertyType, name: &String) -> (r: Option<&PropertyMap<T>>)
        ensures
            match r {
                Some(m) => {
                    &&& self@.maps().contains_key((value_type, name@))
                    &&& self@.maps()[(value_type, name@)] == m@.as_map()
                    &&& m@.value_type == value_type
                    &&& m@.name == name@
                },
                None => !self@.maps().contains_key((value_type, name@)),
            },
    {
        let ghost rs = self@.records;
        let mut i = self.records.len();
        while i > 0
            invariant
                i <= self.records.len(),
                rs == self@.records,
                rs.len() == self.records.len(),
                forall|j: int|
                    i <= j < rs.len() ==> !(#[trigger] rs[j].value_type == value_type && rs[j].name
                        == name@),
            decreases i,
        {
            let m = &self.records[i - 1];
            assert(rs[i - 1] == m@);
            if m.value_type == value_type && m.name == *name {
                proof {
                    lemma_records_suffix(rs, i as int, value_type, name@);
                    assert(rs.take(i as int).drop_last() =~= rs.take(i - 1));
                    assert(rs.take(i as int).last() == m@);
                }
                return Some(m);
            }
            i = i - 1;
        }
        proof {
            lemma_records_suffix(rs, 0, value_type, name@);
            assert(rs.take(0) =~= Seq::<PropertyMapView<T>>::empty());
        }
        None
    }

    /// The value type of the last property map with this name, if there is one.
    pub fn property_type(&self, name: &String) -> (r: Option<PropertyType>)
        ensures
            match r {
                Some(t) => self@.key_to_type().contains_key(name@) && self@.key_to_type()[name@] == t,
                None => !self@.key_to_type().contains_key(name@),
            },
    {
        let ghost rs = self@.records;
        let mut i = self.records.len();
        while i > 0
            invariant
                i <= self.records.len(),
                rs == self@.records,
                rs.len() == self.records.len(),
                forall|j: int| i <= j < rs.len() ==> #[trigger] rs[j].name != name@,
            decreases i,
        {
            let m = &self.records[i - 1];
            assert(rs[i - 1] == m@);
            if m.name == *name {
                proof {
                    lemma_types_suffix(rs, i as int, name@);
                    assert(rs.take(i as int).drop_last() =~= rs.take(i - 1));
                    assert(rs.take(i as int).last() == m@);
                }
                return Some(m.value_type);
            }
            i = i - 1;
        }
        proof {
            lemma_types_suffix(rs, 0, name@);
            assert(rs.take(0) =~= Seq::<PropertyMapView<T>>::empty());
        }
        None
    }
}


/// The key of the one value of a graph property map.
pub open spec fn graph_keys() -> Seq<usize> {
    seq![0usize]
}

/// The keys of the values of a vertex property map: the vertices `0..n`.
pub open spec fn vertex_keys(n: nat) -> Seq<usize> {
    Seq::new(n, |i: int| i as usize)
}

/// The keys of the values of an edge property map: the edges `(u, v)` in the order of
/// the adjacency lists.
pub open spec fn edge_keys(edges: Seq<Seq<usize>>) -> Seq<(usize, usize)>
    decreases edges.len(),
{
    if edges.len() == 0 {
        Seq::empty()
    } else {
        edge_keys(edges.drop_last()) + edges.last().map_values(
            |v: usize| ((edges.len() - 1) as usize, v),
        )
    }
}

/// One step of reading the values of a property map: the value of the next key.
pub open spec fn column_step<K>(keys: Seq<K>, t: PropertyType, endianness: Endianness) -> spec_fn(
    (Seq<(K, PropertyValueView)>, Seq<u8>),
) -> core::result::Result<(Seq<(K, PropertyValueView)>, Seq<u8>), ParseError> {
    |state: (Seq<(K, PropertyValueView)>, Seq<u8>)|
        match spec_value(state.1, t, endianness) {
            Ok((v, rest)) => Ok((state.0.push((keys[state.0.len() as int], v)), rest)),
            Err(e) => Err(e),
        }
}

/// The values of a property map of type `t`, one for each key, in order.
pub open spec fn spec_column<K>(
    s: Seq<u8>,
    keys: Seq<K>,
    t: PropertyType,
    endianness: Endianness,
) -> core::result::Result<(Seq<(K, PropertyValueView)>, Seq<u8>), ParseError> {
    iterate(column_step(keys, t, endianness), (Seq::empty(), s), keys.len())
}

/// A property map after its key type byte: its name, its value type byte and its values.
/// When the input ends before the value type, nothing is read (`None`).
pub open spec fn spec_record<K>(s: Seq<u8>, keys: Seq<K>, endianness: Endianness) -> core::result::Result<
    (Option<PropertyMapView<K>>, Seq<u8>),
    ParseError,
> {
    match spec_string(s, endianness) {
        Err(e) => Err(e),
        Ok((name, s1)) => if s1.len() == 0 {
            Ok((None, s1))
        } else {
            match property_type_of(s1[0]) {
                Err(e) => Err(e),
                Ok(t) => match spec_column(s1.drop_first(), keys, t, endianness) {
                    Err(e) => Err(e),
                    Ok((values, s2)) => Ok(
                        (Some(PropertyMapView { name, value_type: t, values }), s2),
                    ),
                },
            }
        },
    }
}

/// Reading one property map of the given kind into the graph `g`.
pub open spec fn spec_property_map(
    g: GraphView,
    kind: PropertyMapType,
    s: Seq<u8>,
    endianness: Endianness,
) -> core::result::Result<(GraphView, Seq<u8>), ParseError> {
    match kind {
        PropertyMapType::Graph => match spec_record(s, graph_keys(), endianness) {
            Ok((r, rest)) => Ok((GraphView { graph_properties: g.graph_properties.add(r), ..g }, rest)),
            Err(e) => Err(e),
        },
        PropertyMapType::Vertex => match spec_record(s, vertex_keys(g.edges.len()), endianness) {
            Ok((r, rest)) => Ok((GraphView { vertex_properties: g.vertex_properties.add(r), ..g }, rest)),
            Err(e) => Err(e),
        },
        PropertyMapType::Edge => match spec_record(s, edge_keys(g.edges), endianness) {
            Ok((r, rest)) => Ok((GraphView { edge_properties: g.edge_properties.add(r), ..g }, rest)),
            Err(e) => Err(e),
        },
    }
}

/// One step of reading the list of property maps: the key type byte and the map,
/// or nothing at the end of the input.
pub open spec fn property_maps_step(endianness: Endianness) -> spec_fn((GraphView, Seq<u8>)) -> core::result::Result<
    (GraphView, Seq<u8>),
    ParseError,
> {
    |state: (GraphView, Seq<u8>)|
        if state.1.len() == 0 {
            Ok(state)
        } else {
            match property_map_type_of(state.1[0]) {
                Ok(kind) => spec_property_map(state.0, kind, state.1.drop_first(), endianness),
                Err(e) => Err(e),
            }
        }
}

/// The list of property maps: their number (eight bytes), then each map.
pub open spec fn spec_property_maps(g: GraphView, s: Seq<u8>, endianness: Endianness) -> core::result::Result<
    (GraphView, Seq<u8>),
    ParseError,
> {
    if s.len() < 8 {
        Err(ParseError::UnexpectedEnd)
    } else {
        iterate(
            property_maps_step(endianness),
            (g, s.skip(8)),
            crate::reader::length_prefix(s, endianness) as nat,
        )
    }
}

/// The keys `0..n` of a vertex property map.
fn vertex_key_list(n: usize) -> (keys: Vec<usize>)
    ensures
        keys@ == vertex_keys(n as nat),
{
    let mut keys: Vec<usize> = Vec::new();
    let mut i: usize = 0;
    while i < n
        invariant
            i <= n,
            keys@ == vertex_keys(i as nat),
        decreases n - i,
    {
        keys.push(i);
        i = i + 1;
        assert(keys@ =~= vertex_keys(i as nat));
    }
    keys
}

/// The keys `(u, v)` of an edge property map, in the order of the adjacency lists.
fn edge_key_list(edges: &Vec<Vec<usize>>) -> (keys: Vec<(usize, usize)>)
    ensures
        keys@ == edge_keys(view_all(edges@)),
{
    let ghost es = view_all(edges@);
    let mut keys: Vec<(usize, usize)> = Vec::new();
    let mut u: usize = 0;
    assert(es.take(0) =~= Seq::<Seq<usize>>::empty());
    while u < edges.len()
        invariant
            u <= edges.len(),
            es == view_all(edges@),
            keys@ == edge_keys(es.take(u as int)),
        decreases edges.len() - u,
    {
        let successors = &edges[u];
        let ghost before = keys@;
        assert(es[u as int] == successors@);
        let mut j: usize = 0;
        while j < successors.len()
            invariant
                u < edges.len(),
                j <= successors.len(),
                keys@ == before + successors@.take(j as int).map_values(|v: usize| (u, v)),
            decreases successors.len() - j,
        {
            keys.push((u, successors[j]));
            j = j + 1;
            assert(keys@ =~= before + successors@.take(j as int).map_values(|v: usize| (u, v)));
        }
        proof {
            let next = es.take(u + 1);
            assert(next.drop_last() =~= es.take(u as int));
            assert(next.last() == successors@);
            assert(successors@.take(j as int) =~= successors@);
            assert(keys@ =~= edge_keys(next));
        }
        u = u + 1;
    }
    assert(es.take(edges.len() as int) =~= es);
    keys
}

/// Reads the values of a property map of type `t`, one for each key, or tells why
/// they cannot be read.
fn read_column<K: Copy>(
    pos: &mut ByteIter<'_>,
    keys: &Vec<K>,
    t: PropertyType,
    endianness: Endianness,
) -> (r: core::result::Result<Vec<(K, PropertyValue)>, ParseError>)
    ensures
        match spec_column(old(pos)@, keys@, t, endianness) {
            Ok((vs, rest)) => r matches Ok(v) && pairs_view(v@) == vs && final(pos)@ == rest,
            Err(e) => r == Err::<Vec<(K, PropertyValue)>, ParseError>(e),
        },
{
    let ghost step = column_step(keys@, t, endianness);
    let ghost init = (Seq::<(K, PropertyValueView)>::empty(), pos@);
    let mut values: Vec<(K, PropertyValue)> = Vec::new();
    let mut i: usize = 0;
    assert(pairs_view(values@) =~= Seq::<(K, PropertyValueView)>::empty());
    while i < keys.len()
        invariant
            i <= keys.len(),
            init == (Seq::<(K, PropertyValueView)>::empty(), old(pos)@),
            step == column_step(keys@, t, endianness),
            pairs_view(values@).len() == i,
            iterate(step, init, i as nat) == Ok::<(Seq<(K, PropertyValueView)>, Seq<u8>), ParseError>(
                (pairs_view(values@), pos@),
            ),
        decreases keys.len() - i,
    {
        let ghost before = values@;
        let ghost p0 = pos@;
        assert(iterate(step, init, (i + 1) as nat) == step((pairs_view(before), p0)));
        match parse_value(pos, t, endianness) {
            Ok(v) => {
                let key = keys[i];
                values.push((key, v));
                assert(pairs_view(values@) =~= pairs_view(before).push((keys@[i as int], v@)));
            },
            Err(e) => {
                proof {
                    lemma_iterate_err(step, init, (i + 1) as nat, keys.len() as nat);
                }
                return Err(e);
            },
        }
        i = i + 1;
    }
    Ok(values)
}

/// Reads a property map after its key type byte, with the given keys: its name, its
/// value type byte and its values; `None` when the input ends before the value type.
fn read_record<K: Copy>(pos: &mut ByteIter<'_>, keys: &Vec<K>, endianness: Endianness) -> (r:
    core::result::Result<Option<PropertyMap<K>>, ParseError>)
    ensures
        match spec_record(old(pos)@, keys@, endianness) {
            Ok((m, rest)) => r matches Ok(x) && final(pos)@ == rest && match x {
                Some(y) => m == Some(y@),
                None => m is None,
            },
            Err(e) => r == Err::<Option<PropertyMap<K>>, ParseError>(e),
        },
{
    let name = match parse_string(pos, endianness) {
        Ok(name) => name,
        Err(e) => {
            return Err(e);
        },
    };
    let map_type_flag = match pos.next_byte() {
        Some(flag) => flag,
        None => {
            return Ok(None);
        },
    };
    let value_type = match parse_property_type(map_type_flag) {
        Ok(t) => t,
        Err(e) => {
            return Err(e);
        },
    };
    let values = match read_column(pos, keys, value_type, endianness) {
        Ok(values) => values,
        Err(e) => {
            return Err(e);
        },
    };
    Ok(Some(PropertyMap { name, value_type, values }))
}


/// Reading the property maps that follow the adjacency lists into a graph.
pub trait PropertyMapsReader: View<V = GraphView> {
    /// Reads the list of property maps.
    fn read_property_maps(&mut self, pos: &mut ByteIter<'_>, endianness: Endianness)
        requires
            spec_property_maps(old(self)@, old(pos)@, endianness) is Ok,
        ensures
            spec_property_maps(old(self)@, old(pos)@, endianness) == Ok::<(GraphView, Seq<u8>), ParseError>(
                (final(self)@, final(pos)@),
            ),
    ;

    /// Reads one graph property map, after its key type byte.
    fn read_graph_property_map(&mut self, pos: &mut ByteIter<'_>, endianness: Endianness)
        requires
            spec_property_map(old(self)@, PropertyMapType::Graph, old(pos)@, endianness) is Ok,
        ensures
            spec_property_map(old(self)@, PropertyMapType::Graph, old(pos)@, endianness) == Ok::<
                (GraphView, Seq<u8>),
                ParseError,
            >((final(self)@, final(pos)@)),
    ;

    /// Reads one vertex property map, after its key type byte.
    fn read_vertex_property_map(&mut self, pos: &mut ByteIter<'_>, endianness: Endianness)
        requires
            spec_property_map(old(self)@, PropertyMapType::Vertex, old(pos)@, endianness) is Ok,
        ensures
            spec_property_map(old(self)@, PropertyMapType::Vertex, old(pos)@, endianness) == Ok::<
                (GraphView, Seq<u8>),
                ParseError,
            >((final(self)@, final(pos)@)),
    ;

    /// Reads one edge property map, after its key type byte.
    fn read_edge_property_map(&mut self, pos: &mut ByteIter<'_>, endianness: Endianness)
        requires
            spec_property_map(old(self)@, PropertyMapType::Edge, old(pos)@, endianness) is Ok,
        ensures
            spec_property_map(old(self)@, PropertyMapType::Edge, old(pos)@, endianness) == Ok::<
                (GraphView, Seq<u8>),
                ParseError,
            >((final(self)@, final(pos)@)),
    ;
}

impl PropertyMapsReader for GraphToolGraph {
    fn read_property_maps(&mut self, pos: &mut ByteIter<'_>, endianness: Endianness) {
        let r = self.parse_property_maps(pos, endianness);
        assert(r is Ok);
    }

    fn read_graph_property_map(&mut self, pos: &mut ByteIter<'_>, endianness: Endianness) {
        let r = self.parse_property_map(pos, PropertyMapType::Graph, endianness);
        assert(r is Ok);
    }

    fn read_vertex_property_map(&mut self, pos: &mut ByteIter<'_>, endianness: Endianness) {
        let r = self.parse_property_map(pos, PropertyMapType::Vertex, endianness);
        assert(r is Ok);
    }

    fn read_edge_property_map(&mut self, pos: &mut ByteIter<'_>, endianness: Endianness) {
        let r = self.parse_property_map(pos, PropertyMapType::Edge, endianness);
        assert(r is Ok);
    }
}

/// An iteration whose state stops changing stays at that state.
proof fn lemma_iterate_fixpoint<S>(
    step: spec_fn(S) -> core::result::Result<S, ParseError>,
    init: S,
    state: S,
    i: nat,
    n: nat,
)
    requires
        i <= n,
        iterate(step, init, i) == Ok::<S, ParseError>(state),
        step(state) == Ok::<S, ParseError>(state),
    ensures
        iterate(step, init, n) == Ok::<S, ParseError>(state),
    decreases n,
{
    if i < n {
        lemma_iterate_fixpoint(step, init, state, i, (n - 1) as nat);
    }
}

impl GraphToolGraph {
    /// Reads one property map of the given kind, after its key type byte, into the graph;
    /// or tells why it cannot be read.
    pub fn parse_property_map(
        &mut self,
        pos: &mut ByteIter<'_>,
        kind: PropertyMapType,
        endianness: Endianness,
    ) -> (r: core::result::Result<(), ParseError>)
        ensures
            match spec_property_map(old(self)@, kind, old(pos)@, endianness) {
                Ok((g, rest)) => r is Ok && final(self)@ == g && final(pos)@ == rest,
                Err(e) => r == Err::<(), ParseError>(e),
            },
    {
        match kind {
            PropertyMapType::Graph => {
                let keys = vec![0usize];
                assert(keys@ =~= graph_keys());
                match read_record(pos, &keys, endianness)? {
                    Some(map) => self.graph_properties.insert(map),
                    None => {},
                }
            },
            PropertyMapType::Vertex => {
                let keys = vertex_key_list(self.edges.len());
                match read_record(pos, &keys, endianness)? {
                    Some(map) => self.vertex_properties.insert(map),
                    None => {},
                }
            },
            PropertyMapType::Edge => {
                let keys = edge_key_list(&self.edges);
                match read_record(pos, &keys, endianness)? {
                    Some(map) => self.edge_properties.insert(map),
                    None => {},
                }
            },
        }
        Ok(())
    }

    /// Reads the list of property maps into the graph, or tells why it cannot be read.
    pub fn parse_property_maps(&mut self, pos: &mut ByteIter<'_>, endianness: Endianness) -> (r:
        core::result::Result<(), ParseError>)
        ensures
            match spec_property_maps(old(self)@, old(pos)@, endianness) {
                Ok((g, rest)) => r is Ok && final(self)@ == g && final(pos)@ == rest,
                Err(e) => r == Err::<(), ParseError>(e),
            },
    {
        if pos.len() < 8 {
            return Err(ParseError::UnexpectedEnd);
        }
        let ghost s = pos@;
        let n_property_maps = match crate::reader::read_size(pos, endianness) {
            Ok(n) => n,
            Err(_) => {
                return Err(ParseError::UnexpectedEnd);
            },
        };
        let ghost step = property_maps_step(endianness);
        let ghost init = (old(self)@, s.skip(8));
        let mut i: usize = 0;
        while i < n_property_maps
            invariant
                i <= n_property_maps,
                s == old(pos)@,
                s.len() >= 8,
                n_property_maps == crate::reader::length_prefix(s, endianness),
                step == property_maps_step(endianness),
                init == (old(self)@, s.skip(8)),
                iterate(step, init, i as nat) == Ok::<(GraphView, Seq<u8>), ParseError>(
                    (self@, pos@),
                ),
            ensures
                iterate(step, init, n_property_maps as nat) == Ok::<(GraphView, Seq<u8>), ParseError>(
                    (self@, pos@),
                ),
            decreases n_property_maps - i,
        {
            let ghost g0 = self@;
            let ghost p0 = pos@;
            assert(iterate(step, init, (i + 1) as nat) == step((g0, p0)));
            let flag = match pos.next_byte() {
                Some(flag) => flag,
                None => {
                    proof {
                        lemma_iterate_fixpoint(step, init, (g0, p0), i as nat, n_property_maps as nat);
                    }
                    break;
                },
            };
            let kind = match parse_property_map_type(flag) {
                Ok(kind) => kind,
                Err(e) => {
                    proof {
                        lemma_iterate_err(step, init, (i + 1) as nat, n_property_maps as nat);
                    }
                    return Err(e);
                },
            };
            match self.parse_property_map(pos, kind, endianness) {
                Ok(()) => {},
                Err(e) => {
                    proof {
                        lemma_iterate_err(step, init, (i + 1) as nat, n_property_maps as nat);
                    }
                    return Err(e);
                },
            }
            i = i + 1;
        }
        Ok(())
    }
}

} // verus!
