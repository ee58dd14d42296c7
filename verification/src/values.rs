//! Values of property maps.
use vstd::prelude::*;

use crate::byte_iter::ByteIter;
use crate::error::ParseError;
use crate::property_maps::PropertyType;
use crate::reader::{
    iterate, length_prefix, outcome_matches, parse_vector, read_u64, spec_string, spec_vector,
    taken_count, uint_value, vector_step, view_all, Endianness, GtScalar,
};

verus! {

/// A `double` of the `gt` format, held as its IEEE 754 bit pattern.
///
/// `f64::from_bits` gives the number: `f64::from_le_bytes` and `f64::from_be_bytes`
/// are `from_bits` of the 64-bit integer read in the same byte order.
#[derive(Debug, Clone, Copy, PartialEq, Eq)]
pub struct F64Bits(pub u64);

impl View for F64Bits {
    type V = u64;

    open spec fn view(&self) -> u64 {
        self.0
    }
}

impl GtScalar for F64Bits {
    open spec fn spec_read(s: Seq<u8>, endianness: Endianness) -> core::result::Result<
        (u64, Seq<u8>),
        ParseError,
    > {
        if s.len() < 8 {
            Err(ParseError::UnexpectedEnd)
        } else {
            Ok((uint_value(s.take(8), endianness) as u64, s.skip(8)))
        }
    }

    fn parse(pos: &mut ByteIter<'_>, endianness: Endianness) -> (r: core::result::Result<
        F64Bits,
        ParseError,
    >) {
        if pos.len() < 8 {
            return Err(ParseError::UnexpectedEnd);
        }
        match read_u64(pos, endianness) {
            Ok(bits) => Ok(F64Bits(bits)),
            Err(_) => Err(ParseError::UnexpectedEnd),
        }
    }
}

/// One value of a property map.
#[derive(Debug, PartialEq)]
pub enum PropertyValue {
    Bool(bool),
    I16(i16),
    I32(i32),
    I64(i64),
    F64(F64Bits),
    String(String),
    BoolVector(Vec<bool>),
    I16Vector(Vec<i16>),
    I32Vector(Vec<i32>),
    I64Vector(Vec<i64>),
    F64Vector(Vec<F64Bits>),
    StringVector(Vec<String>),
}

/// The mathematical value of a [`PropertyValue`]: strings as character sequences,
/// vectors as sequences, doubles as their bit patterns.
pub enum PropertyValueView {
    Bool(bool),
    I16(i16),
    I32(i32),
    I64(i64),
    F64(u64),
    String(Seq<char>),
    BoolVector(Seq<bool>),
    I16Vector(Seq<i16>),
    I32Vector(Seq<i32>),
    I64Vector(Seq<i64>),
    F64Vector(Seq<u64>),
    StringVector(Seq<Seq<char>>),
}

impl View for PropertyValue {
    type V = PropertyValueView;

    open spec fn view(&self) -> PropertyValueView {
        match self {
            PropertyValue::Bool(v) => PropertyValueView::Bool(*v),
            PropertyValue::I16(v) => PropertyValueView::I16(*v),
            PropertyValue::I32(v) => PropertyValueView::I32(*v),
            PropertyValue::I64(v) => PropertyValueView::I64(*v),
            PropertyValue::F64(v) => PropertyValueView::F64(v@),
            PropertyValue::String(v) => PropertyValueView::String(v@),
            PropertyValue::BoolVector(v) => PropertyValueView::BoolVector(view_all(v@)),
            PropertyValue::I16Vector(v) => PropertyValueView::I16Vector(view_all(v@)),
            PropertyValue::I32Vector(v) => PropertyValueView::I32Vector(view_all(v@)),
            PropertyValue::I64Vector(v) => PropertyValueView::I64Vector(view_all(v@)),
            PropertyValue::F64Vector(v) => PropertyValueView::F64Vector(view_all(v@)),
            PropertyValue::StringVector(v) => PropertyValueView::StringVector(view_all(v@)),
        }
    }
}

impl PropertyValueView {
    /// Whether the value is of the given type.
    pub open spec fn has_type(self, t: PropertyType) -> bool {
        match self {
            PropertyValueView::Bool(_) => t == PropertyType::Bool,
            PropertyValueView::I16(_) => t == PropertyType::I16,
            PropertyValueView::I32(_) => t == PropertyType::I32,
            PropertyValueView::I64(_) => t == PropertyType::I64,
            PropertyValueView::F64(_) => t == PropertyType::F64,
            PropertyValueView::String(_) => t == PropertyType::String,
            PropertyValueView::BoolVector(_) => t == PropertyType::BoolVector,
            PropertyValueView::I16Vector(_) => t == PropertyType::I16Vector,
            PropertyValueView::I32Vector(_) => t == PropertyType::I32Vector,
            PropertyValueView::I64Vector(_) => t == PropertyType::I64Vector,
            PropertyValueView::F64Vector(_) => t == PropertyType::F64Vector,
            PropertyValueView::StringVector(_) => t == PropertyType::StringVector,
        }
    }
}

/// Applies `f` to the value of a successful read.
pub open spec fn map_read<A>(
    r: core::result::Result<(A, Seq<u8>), ParseError>,
    f: spec_fn(A) -> PropertyValueView,
) -> core::result::Result<(PropertyValueView, Seq<u8>), ParseError> {
    match r {
        Ok((v, rest)) => Ok((f(v), rest)),
        Err(e) => Err(e),
    }
}

/// One value of type `t`, as laid out in the `gt` format.
pub open spec fn spec_value(s: Seq<u8>, t: PropertyType, endianness: Endianness) -> core::result::Result<
    (PropertyValueView, Seq<u8>),
    ParseError,
> {
    match t {
        PropertyType::Bool => map_read(
            <bool as GtScalar>::spec_read(s, endianness),
            |v: bool| PropertyValueView::Bool(v),
        ),
        PropertyType::I16 => map_read(
            <i16 as GtScalar>::spec_read(s, endianness),
            |v: i16| PropertyValueView::I16(v),
        ),
        PropertyType::I32 => map_read(
            <i32 as GtScalar>::spec_read(s, endianness),
            |v: i32| PropertyValueView::I32(v),
        ),
        PropertyType::I64 => map_read(
            <i64 as GtScalar>::spec_read(s, endianness),
            |v: i64| PropertyValueView::I64(v),
        ),
        PropertyType::F64 => map_read(
            <F64Bits as GtScalar>::spec_read(s, endianness),
            |v: u64| PropertyValueView::F64(v),
        ),
        PropertyType::String => map_read(
            <String as GtScalar>::spec_read(s, endianness),
            |v: Seq<char>| PropertyValueView::String(v),
        ),
        PropertyType::BoolVector => map_read(
            spec_vector::<bool>(s, endianness),
            |v: Seq<bool>| PropertyValueView::BoolVector(v),
        ),
        PropertyType::I16Vector => map_read(
            spec_vector::<i16>(s, endianness),
            |v: Seq<i16>| PropertyValueView::I16Vector(v),
        ),
        PropertyType::I32Vector => map_read(
            spec_vector::<i32>(s, endianness),
            |v: Seq<i32>| PropertyValueView::I32Vector(v),
        ),
        PropertyType::I64Vector => map_read(
            spec_vector::<i64>(s, endianness),
            |v: Seq<i64>| PropertyValueView::I64Vector(v),
        ),
        PropertyType::F64Vector => map_read(
            spec_vector::<F64Bits>(s, endianness),
            |v: Seq<u64>| PropertyValueView::F64Vector(v),
        ),
        PropertyType::StringVector => map_read(
            spec_vector::<String>(s, endianness),
            |v: Seq<Seq<char>>| PropertyValueView::StringVector(v),
        ),
    }
}

/// Reads one value of type `t`, or tells why it cannot be read.
pub fn parse_value(pos: &mut ByteIter<'_>, t: PropertyType, endianness: Endianness) -> (r:
    core::result::Result<PropertyValue, ParseError>)
    ensures
        outcome_matches(r, spec_value(old(pos)@, t, endianness), final(pos)@),
        r matches Ok(v) ==> v@.has_type(t),
{
    match t {
        PropertyType::Bool => match <bool as GtScalar>::parse(pos, endianness) {
            Ok(v) => Ok(PropertyValue::Bool(v)),
            Err(e) => Err(e),
        },
        PropertyType::I16 => match <i16 as GtScalar>::parse(pos, endianness) {
            Ok(v) => Ok(PropertyValue::I16(v)),
            Err(e) => Err(e),
        },
        PropertyType::I32 => match <i32 as GtScalar>::parse(pos, endianness) {
            Ok(v) => Ok(PropertyValue::I32(v)),
            Err(e) => Err(e),
        },
        PropertyType::I64 => match <i64 as GtScalar>::parse(pos, endianness) {
            Ok(v) => Ok(PropertyValue::I64(v)),
            Err(e) => Err(e),
        },
        PropertyType::F64 => match <F64Bits as GtScalar>::parse(pos, endianness) {
            Ok(v) => Ok(PropertyValue::F64(v)),
            Err(e) => Err(e),
        },
        PropertyType::String => match <String as GtScalar>::parse(pos, endianness) {
            Ok(v) => Ok(PropertyValue::String(v)),
            Err(e) => Err(e),
        },
        PropertyType::BoolVector => match parse_vector::<bool>(pos, endianness) {
            Ok(v) => Ok(PropertyValue::BoolVector(v)),
            Err(e) => Err(e),
        },
        PropertyType::I16Vector => match parse_vector::<i16>(pos, endianness) {
            Ok(v) => Ok(PropertyValue::I16Vector(v)),
            Err(e) => Err(e),
        },
        PropertyType::I32Vector => match parse_vector::<i32>(pos, endianness) {
            Ok(v) => Ok(PropertyValue::I32Vector(v)),
            Err(e) => Err(e),
        },
        PropertyType::I64Vector => match parse_vector::<i64>(pos, endianness) {
            Ok(v) => Ok(PropertyValue::I64Vector(v)),
            Err(e) => Err(e),
        },
        PropertyType::F64Vector => match parse_vector::<F64Bits>(pos, endianness) {
            Ok(v) => Ok(PropertyValue::F64Vector(v)),
            Err(e) => Err(e),
        },
        PropertyType::StringVector => match parse_vector::<String>(pos, endianness) {
            Ok(v) => Ok(PropertyValue::StringVector(v)),
            Err(e) => Err(e),
        },
    }
}


/// Signed integers are the two's complement of all their bytes in the file's byte order:
/// an `int16_t`, `int32_t` or `int64_t` is read from 2, 4 or 8 bytes, and its value is
/// congruent to the unsigned value of those bytes modulo `2^16`, `2^32` or `2^64`.
pub proof fn lemma_signed_values(s: Seq<u8>, endianness: Endianness)
    ensures
        spec_value(s, PropertyType::I16, endianness) is Ok <==> s.len() >= 2,
        spec_value(s, PropertyType::I32, endianness) is Ok <==> s.len() >= 4,
        spec_value(s, PropertyType::I64, endianness) is Ok <==> s.len() >= 8,
        spec_value(s, PropertyType::I16, endianness) matches Ok((PropertyValueView::I16(v), rest))
            ==> (v + 0x1_0000) % 0x1_0000 == uint_value(s.take(2), endianness) && rest == s.skip(2),
        spec_value(s, PropertyType::I32, endianness) matches Ok((PropertyValueView::I32(v), rest))
            ==> (v + 0x1_0000_0000) % 0x1_0000_0000 == uint_value(s.take(4), endianness) && rest
            == s.skip(4),
        spec_value(s, PropertyType::I64, endianness) matches Ok((PropertyValueView::I64(v), rest))
            ==> (v + 0x1_0000_0000_0000_0000) % 0x1_0000_0000_0000_0000 == uint_value(
            s.take(8),
            endianness,
        ) && rest == s.skip(8),
        spec_value(s, PropertyType::I16, endianness) is Ok ==> spec_value(s, PropertyType::I16, endianness)->Ok_0.0 is I16,
        spec_value(s, PropertyType::I32, endianness) is Ok ==> spec_value(s, PropertyType::I32, endianness)->Ok_0.0 is I32,
        spec_value(s, PropertyType::I64, endianness) is Ok ==> spec_value(s, PropertyType::I64, endianness)->Ok_0.0 is I64,
{
    crate::reader::lemma_uint_value_bound(s.take(2), endianness);
    crate::reader::lemma_uint_value_bound(s.take(4), endianness);
    crate::reader::lemma_uint_value_bound(s.take(8), endianness);
    crate::reader::lemma_pow256_values();
}

/// A Boolean is one byte, true exactly when it is `0x01`; a double is the bit pattern of its
/// eight bytes in the file's byte order; a string is its length prefix followed by the UTF-8
/// bytes of its characters.
pub proof fn lemma_scalar_values(s: Seq<u8>, endianness: Endianness)
    ensures
        spec_value(s, PropertyType::Bool, endianness) is Ok <==> s.len() >= 1,
        spec_value(s, PropertyType::F64, endianness) is Ok <==> s.len() >= 8,
        spec_value(s, PropertyType::Bool, endianness) matches Ok((v, rest)) ==> v
            == PropertyValueView::Bool(s[0] == 0x01) && rest == s.skip(1),
        spec_value(s, PropertyType::F64, endianness) matches Ok((v, rest)) ==> v
            == PropertyValueView::F64(uint_value(s.take(8), endianness) as u64) && rest == s.skip(8),
        spec_value(s, PropertyType::String, endianness) matches Ok((v, rest)) ==> v matches PropertyValueView::String(
            c,
        ) && vstd::utf8::encode_utf8(c) == s.subrange(8, string_size(c) as int) && rest == s.skip(
            string_size(c) as int,
        ),
{
    assert(s.drop_first() =~= s.skip(1));
    lemma_string_read_size(s, endianness);
    if spec_string(s, endianness) is Ok {
        let body = s.skip(8);
        let k = taken_count(length_prefix(s, endianness), body.len());
        let bytes = body.take(k as int);
        vstd::utf8::decode_utf8_encode_utf8(bytes);
        assert(bytes =~= s.subrange(8, 8 + k as int));
    }
}

/// Every read of one element of type `T` needs `k` bytes and takes exactly those.
pub open spec fn reads_fixed<T: GtScalar>(endianness: Endianness, k: nat) -> bool {
    forall|x: Seq<u8>|
        #![trigger T::spec_read(x, endianness)]
        (T::spec_read(x, endianness) is Ok <==> x.len() >= k) && (T::spec_read(x, endianness) is Ok
            ==> T::spec_read(x, endianness)->Ok_0.1 == x.skip(k as int))
}

proof fn lemma_vector_steps_elements<T: GtScalar>(endianness: Endianness, k: nat, x: Seq<u8>, m: nat)
    requires
        reads_fixed::<T>(endianness, k),
    ensures
        iterate(vector_step::<T>(endianness), (Seq::empty(), x), m) is Ok <==> x.len() >= m * k,
        iterate(vector_step::<T>(endianness), (Seq::empty(), x), m) matches Ok((vs, r)) ==> {
            &&& vs.len() == m
            &&& r == x.skip((m * k) as int)
            &&& forall|i: int|
                0 <= i < m ==> #[trigger] vs[i] == T::spec_read(x.skip(i * k), endianness)->Ok_0.0
        },
    decreases m,
{
    let step = vector_step::<T>(endianness);
    if m > 0 {
        lemma_vector_steps_elements::<T>(endianness, k, x, (m - 1) as nat);
        assert((m - 1) * k + k == m * k) by (nonlinear_arith);
        assert(0 <= (m - 1) * k) by (nonlinear_arith)
            requires
                m >= 1,
        ;
        let prev = iterate(step, (Seq::empty(), x), (m - 1) as nat);
        if prev is Ok {
            let (vs0, r0) = prev->Ok_0;
            assert(r0.len() == x.len() - (m - 1) * k);
            let cur = T::spec_read(r0, endianness);
            if cur is Ok {
                let vs = vs0.push(cur->Ok_0.0);
                assert(cur->Ok_0.1 =~= x.skip((m * k) as int));
                assert(r0 == x.skip(((m - 1) * k) as int));
                assert forall|i: int| 0 <= i < m implies #[trigger] vs[i] == T::spec_read(
                    x.skip(i * k),
                    endianness,
                )->Ok_0.0 by {
                    if i < m - 1 {
                        assert(vs[i] == vs0[i]);
                    }
                }
            }
        } else {
            assert(x.len() < (m - 1) * k);
        }
    }
}

/// A vector of a fixed-size element type (`bool`, `int16_t`, `int32_t`, `int64_t`,
/// `double`) is read whenever its length prefix is followed by that many elements: it is
/// read exactly when enough bytes follow, and its `i`-th element is the element that
/// reading one value gives at byte `8 + i k`, with `k` the element size.
pub proof fn lemma_vector_elements(s: Seq<u8>, endianness: Endianness)
    requires
        s.len() >= 8,
    ensures
        ({
            let n = length_prefix(s, endianness) as nat;
            &&& spec_value(s, PropertyType::BoolVector, endianness) is Ok <==> s.len() >= 8 + n
            &&& spec_value(s, PropertyType::I16Vector, endianness) is Ok <==> s.len() >= 8 + 2 * n
            &&& spec_value(s, PropertyType::I32Vector, endianness) is Ok <==> s.len() >= 8 + 4 * n
            &&& spec_value(s, PropertyType::I64Vector, endianness) is Ok <==> s.len() >= 8 + 8 * n
            &&& spec_value(s, PropertyType::F64Vector, endianness) is Ok <==> s.len() >= 8 + 8 * n
            &&& spec_value(s, PropertyType::BoolVector, endianness) matches Ok(
                (PropertyValueView::BoolVector(xs), _),
            ) ==> xs.len() == n && forall|i: int|
                0 <= i < n ==> spec_value(s.skip(8 + i), PropertyType::Bool, endianness)
                    == Ok::<(PropertyValueView, Seq<u8>), ParseError>(
                    (PropertyValueView::Bool(#[trigger] xs[i]), s.skip(8 + i + 1)),
                )
            &&& spec_value(s, PropertyType::I16Vector, endianness) matches Ok(
                (PropertyValueView::I16Vector(xs), _),
            ) ==> xs.len() == n && forall|i: int|
                0 <= i < n ==> spec_value(s.skip(8 + 2 * i), PropertyType::I16, endianness)
                    == Ok::<(PropertyValueView, Seq<u8>), ParseError>(
                    (PropertyValueView::I16(#[trigger] xs[i]), s.skip(8 + 2 * i + 2)),
                )
            &&& spec_value(s, PropertyType::I32Vector, endianness) matches Ok(
                (PropertyValueView::I32Vector(xs), _),
            ) ==> xs.len() == n && forall|i: int|
                0 <= i < n ==> spec_value(s.skip(8 + 4 * i), PropertyType::I32, endianness)
                    == Ok::<(PropertyValueView, Seq<u8>), ParseError>(
                    (PropertyValueView::I32(#[trigger] xs[i]), s.skip(8 + 4 * i + 4)),
                )
            &&& spec_value(s, PropertyType::I64Vector, endianness) matches Ok(
                (PropertyValueView::I64Vector(xs), _),
            ) ==> xs.len() == n && forall|i: int|
                0 <= i < n ==> spec_value(s.skip(8 + 8 * i), PropertyType::I64, endianness)
                    == Ok::<(PropertyValueView, Seq<u8>), ParseError>(
                    (PropertyValueView::I64(#[trigger] xs[i]), s.skip(8 + 8 * i + 8)),
                )
            &&& spec_value(s, PropertyType::F64Vector, endianness) matches Ok(
                (PropertyValueView::F64Vector(xs), _),
            ) ==> xs.len() == n && forall|i: int|
                0 <= i < n ==> spec_value(s.skip(8 + 8 * i), PropertyType::F64, endianness)
                    == Ok::<(PropertyValueView, Seq<u8>), ParseError>(
                    (PropertyValueView::F64(#[trigger] xs[i]), s.skip(8 + 8 * i + 8)),
                )
        }),
{
    let n = length_prefix(s, endianness) as nat;
    let x = s.skip(8);
    assert forall|y: Seq<u8>, a: int| 0 <= a <= y.len() implies #[trigger] y.skip(a).len() == y.len() - a by {}
    lemma_vector_steps_elements::<bool>(endianness, 1, x, n);
    lemma_vector_steps_elements::<i16>(endianness, 2, x, n);
    lemma_vector_steps_elements::<i32>(endianness, 4, x, n);
    lemma_vector_steps_elements::<i64>(endianness, 8, x, n);
    lemma_vector_steps_elements::<F64Bits>(endianness, 8, x, n);
    assert forall|i: int, k: int| 0 <= i && 0 <= k && 8 + i * k <= s.len() implies #[trigger] x.skip(i * k)
        =~= s.skip(8 + i * k) by {}
    assert forall|i: int, k: int| 0 <= i && 0 <= k && 8 + i * k + k <= s.len() implies #[trigger] x.skip(
        i * k,
    ).skip(k) =~= s.skip(8 + i * k + k) by {}
}

/// The number of bytes of a string: the length prefix and the UTF-8 bytes.
pub open spec fn string_size(c: Seq<char>) -> nat {
    8 + vstd::utf8::encode_utf8(c).len()
}

/// The total of `size` over the elements of `xs`.
pub open spec fn sum_sizes<V>(xs: Seq<V>, size: spec_fn(V) -> nat) -> nat
    decreases xs.len(),
{
    if xs.len() == 0 {
        0
    } else {
        sum_sizes(xs.drop_last(), size) + size(xs.last())
    }
}

/// The number of bytes that a value takes in a `gt` file, after the table of value types:
/// `bool` 1, `int16_t` 2, `int32_t` 4, `int64_t` and `double` 8, `string` 8 + length,
/// `vector<T>` 8 + length times the size of `T`, `vector<string>` 8 + the sizes of its strings.
pub open spec fn encoded_size(v: PropertyValueView) -> nat {
    match v {
        PropertyValueView::Bool(_) => 1,
        PropertyValueView::I16(_) => 2,
        PropertyValueView::I32(_) => 4,
        PropertyValueView::I64(_) => 8,
        PropertyValueView::F64(_) => 8,
        PropertyValueView::String(c) => string_size(c),
        PropertyValueView::BoolVector(xs) => 8 + xs.len(),
        PropertyValueView::I16Vector(xs) => 8 + 2 * xs.len(),
        PropertyValueView::I32Vector(xs) => 8 + 4 * xs.len(),
        PropertyValueView::I64Vector(xs) => 8 + 8 * xs.len(),
        PropertyValueView::F64Vector(xs) => 8 + 8 * xs.len(),
        PropertyValueView::StringVector(ss) => 8 + sum_sizes(ss, |c: Seq<char>| string_size(c)),
    }
}

/// Every read of one element of type `T` consumes `size` of the element read.
pub open spec fn reads_take<T: GtScalar>(endianness: Endianness, size: spec_fn(T::V) -> nat) -> bool {
    forall|s: Seq<u8>|
        #![trigger T::spec_read(s, endianness)]
        T::spec_read(s, endianness) matches Ok((v, rest)) ==> rest == s.skip(size(v) as int) && size(v)
            <= s.len()
}

proof fn lemma_vector_steps_size<T: GtScalar>(
    endianness: Endianness,
    size: spec_fn(T::V) -> nat,
    s: Seq<u8>,
    k: nat,
)
    requires
        reads_take::<T>(endianness, size),
        iterate(vector_step::<T>(endianness), (Seq::empty(), s), k) is Ok,
    ensures
        ({
            let (vs, rest) = iterate(vector_step::<T>(endianness), (Seq::empty(), s), k)->Ok_0;
            &&& vs.len() == k
            &&& sum_sizes(vs, size) <= s.len()
            &&& rest == s.skip(sum_sizes(vs, size) as int)
        }),
    decreases k,
{
    let step = vector_step::<T>(endianness);
    if k > 0 {
        let prev = iterate(step, (Seq::empty(), s), (k - 1) as nat);
        if prev is Err {
            assert(iterate(step, (Seq::empty(), s), k) == prev);
        } else {
            lemma_vector_steps_size::<T>(endianness, size, s, (k - 1) as nat);
            let (vs0, r0) = prev->Ok_0;
            let (v, r1) = T::spec_read(r0, endianness)->Ok_0;
            let vs = vs0.push(v);
            assert(vs.drop_last() =~= vs0);
            assert(r1 =~= s.skip(sum_sizes(vs, size) as int));
        }
    }
}

/// A vector of `T` takes its length prefix and the sizes of its elements.
proof fn lemma_vector_size<T: GtScalar>(s: Seq<u8>, endianness: Endianness, size: spec_fn(T::V) -> nat)
    requires
        reads_take::<T>(endianness, size),
        spec_vector::<T>(s, endianness) is Ok,
    ensures
        ({
            let (vs, rest) = spec_vector::<T>(s, endianness)->Ok_0;
            &&& 8 + sum_sizes(vs, size) <= s.len()
            &&& rest == s.skip(8 + sum_sizes(vs, size) as int)
        }),
{
    lemma_vector_steps_size::<T>(endianness, size, s.skip(8), length_prefix(s, endianness) as nat);
    let (vs, rest) = spec_vector::<T>(s, endianness)->Ok_0;
    assert(rest =~= s.skip(8 + sum_sizes(vs, size) as int));
}

/// Elements of a fixed size `k` take `k` times their number.
proof fn lemma_sum_fixed<V>(xs: Seq<V>, k: nat)
    ensures
        sum_sizes(xs, |x: V| k) == k * xs.len(),
    decreases xs.len(),
{
    if xs.len() > 0 {
        lemma_sum_fixed(xs.drop_last(), k);
        assert(k * (xs.len() - 1) + k == k * xs.len()) by (nonlinear_arith);
    }
}

pub proof fn lemma_string_read_size(s: Seq<u8>, endianness: Endianness)
    ensures
        spec_string(s, endianness) matches Ok((c, rest)) ==> rest == s.skip(string_size(c) as int)
            && string_size(c) <= s.len(),
{
    if spec_string(s, endianness) is Ok {
        let body = s.skip(8);
        let k = taken_count(length_prefix(s, endianness), body.len());
        let bytes = body.take(k as int);
        vstd::utf8::decode_utf8_encode_utf8(bytes);
        assert(body.skip(k as int) =~= s.skip(8 + k as int));
    }
}

/// A value read as type `t` takes the number of bytes that the table of value types gives
/// for it, from the front of the input.
pub proof fn lemma_value_size(s: Seq<u8>, t: PropertyType, endianness: Endianness)
    requires
        spec_value(s, t, endianness) is Ok,
    ensures
        ({
            let (v, rest) = spec_value(s, t, endianness)->Ok_0;
            &&& encoded_size(v) <= s.len()
            &&& rest == s.skip(encoded_size(v) as int)
        }),
{
    let string_sz = |c: Seq<char>| string_size(c);
    assert forall|x: Seq<u8>| #![trigger <String as GtScalar>::spec_read(x, endianness)]
        <String as GtScalar>::spec_read(x, endianness) matches Ok((v, rest)) ==> rest == x.skip(
            string_sz(v) as int,
        ) && string_sz(v) <= x.len() by {
        lemma_string_read_size(x, endianness);
    }
    match t {
        PropertyType::String => {
            lemma_string_read_size(s, endianness);
        },
        PropertyType::BoolVector => {
            lemma_vector_size::<bool>(s, endianness, |x: bool| 1nat);
            lemma_sum_fixed(spec_vector::<bool>(s, endianness)->Ok_0.0, 1);
        },
        PropertyType::I16Vector => {
            lemma_vector_size::<i16>(s, endianness, |x: i16| 2nat);
            lemma_sum_fixed(spec_vector::<i16>(s, endianness)->Ok_0.0, 2);
        },
        PropertyType::I32Vector => {
            lemma_vector_size::<i32>(s, endianness, |x: i32| 4nat);
            lemma_sum_fixed(spec_vector::<i32>(s, endianness)->Ok_0.0, 4);
        },
        PropertyType::I64Vector => {
            lemma_vector_size::<i64>(s, endianness, |x: i64| 8nat);
            lemma_sum_fixed(spec_vector::<i64>(s, endianness)->Ok_0.0, 8);
        },
        PropertyType::F64Vector => {
            lemma_vector_size::<F64Bits>(s, endianness, |x: u64| 8nat);
            lemma_sum_fixed(spec_vector::<F64Bits>(s, endianness)->Ok_0.0, 8);
        },
        PropertyType::StringVector => {
            lemma_vector_size::<String>(s, endianness, string_sz);
        },
        _ => {},
    }
}

} // verus!
