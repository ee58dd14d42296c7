//! Readers for the fixed-size fields of the `gt` format: flags, integers,
//! length prefixes, strings, vectors and the adjacency lists.
use vstd::prelude::*;

use crate::byte_iter::ByteIter;
use crate::error;
use crate::error::ParseError;

verus! {

/// Integer endianness: `0x00` for little-endian, `0x01` for big-endian.
#[derive(Debug, Clone, Copy, PartialEq, Eq, Structural)]
pub enum Endianness {
    LittleEndian,
    BigEndian,
}

/// `256` to the power `k`.
pub open spec fn pow256(k: nat) -> nat
    decreases k,
{
    if k == 0 {
        1
    } else {
        256 * pow256((k - 1) as nat)
    }
}

/// The unsigned value of `b` read as a big-endian number (first byte most significant).
pub open spec fn uint_be(b: Seq<u8>) -> nat
    decreases b.len(),
{
    if b.len() == 0 {
        0
    } else {
        uint_be(b.drop_last()) * 256 + b.last() as nat
    }
}

/// The unsigned value of `b` read as a little-endian number (first byte least significant).
pub open spec fn uint_le(b: Seq<u8>) -> nat
    decreases b.len(),
{
    if b.len() == 0 {
        0
    } else {
        b[0] as nat + 256 * uint_le(b.drop_first())
    }
}

/// The unsigned value of `b` in the given byte order.
pub open spec fn uint_value(b: Seq<u8>, endianness: Endianness) -> nat {
    match endianness {
        Endianness::LittleEndian => uint_le(b),
        Endianness::BigEndian => uint_be(b),
    }
}

/// The two's complement value of a 16-bit pattern.
pub open spec fn signed16(u: nat) -> int {
    if u < 0x8000 { u as int } else { u - 0x1_0000 }
}

/// The two's complement value of a 32-bit pattern.
pub open spec fn signed32(u: nat) -> int {
    if u < 0x8000_0000 { u as int } else { u - 0x1_0000_0000 }
}

/// The two's complement value of a 64-bit pattern.
pub open spec fn signed64(u: nat) -> int {
    if u < 0x8000_0000_0000_0000 { u as int } else { u - 0x1_0000_0000_0000_0000 }
}

/// How many bytes `take_n_bytes(pos, n)` takes when `len` bytes are left.
pub open spec fn taken_count(n: usize, len: nat) -> nat {
    if n <= len { n as nat } else { len }
}

pub proof fn lemma_pow256_values()
    ensures
        pow256(0) == 1,
        pow256(1) == 0x100,
        pow256(2) == 0x1_0000,
        pow256(4) == 0x1_0000_0000,
        pow256(8) == 0x1_0000_0000_0000_0000,
{
    reveal_with_fuel(pow256, 9);
}

/// Reading bytes big-endian gives the value of the reversed bytes read little-endian.
pub proof fn lemma_byte_order(b: Seq<u8>)
    ensures
        uint_value(b, Endianness::BigEndian) == uint_value(b.reverse(), Endianness::LittleEndian),
    decreases b.len(),
{
    if b.len() > 0 {
        lemma_byte_order(b.drop_last());
        let r = b.reverse();
        assert(r.drop_first() =~= b.drop_last().reverse());
        assert(r[0] == b.last());
    }
}

proof fn lemma_uint_be_bound(b: Seq<u8>)
    ensures
        uint_be(b) < pow256(b.len()),
    decreases b.len(),
{
    if b.len() > 0 {
        lemma_uint_be_bound(b.drop_last());
    }
}

proof fn lemma_uint_le_bound(b: Seq<u8>)
    ensures
        uint_le(b) < pow256(b.len()),
    decreases b.len(),
{
    if b.len() > 0 {
        lemma_uint_le_bound(b.drop_first());
    }
}

/// A value of `n` bytes is below `256^n` in both byte orders.
pub proof fn lemma_uint_value_bound(b: Seq<u8>, endianness: Endianness)
    ensures
        uint_value(b, endianness) < pow256(b.len()),
{
    lemma_uint_be_bound(b);
    lemma_uint_le_bound(b);
}

/// The value of the first `n` bytes of `bytes` in the given byte order.
fn uint_of_prefix(bytes: &Vec<u8>, n: usize, endianness: Endianness) -> (v: u64)
    requires
        n <= 8,
        n <= bytes.len(),
    ensures
        v == uint_value(bytes@.take(n as int), endianness),
{
    let ghost b = bytes@.take(n as int);
    proof {
        lemma_pow256_values();
    }
    match endianness {
        Endianness::BigEndian => {
            let mut acc: u64 = 0;
            let mut i: usize = 0;
            while i < n
                invariant
                    i <= n <= 8,
                    n <= bytes.len(),
                    b == bytes@.take(n as int),
                    acc == uint_be(b.take(i as int)),
                    pow256(8) == 0x1_0000_0000_0000_0000,
                decreases n - i,
            {
                proof {
                    lemma_uint_be_bound(b.take(i as int));
                    lemma_pow256_mono(i as nat, 7);
                    assert(b.take(i + 1).drop_last() =~= b.take(i as int));
                }
                acc = acc * 256 + bytes[i] as u64;
                i = i + 1;
            }
            assert(b.take(n as int) =~= b);
            acc
        },
        Endianness::LittleEndian => {
            let mut acc: u64 = 0;
            let mut i: usize = n;
            assert(b.subrange(n as int, n as int) =~= Seq::<u8>::empty());
            while i > 0
                invariant
                    i <= n <= 8,
                    n <= bytes.len(),
                    b == bytes@.take(n as int),
                    acc == uint_le(b.subrange(i as int, n as int)),
                    pow256(8) == 0x1_0000_0000_0000_0000,
                decreases i,
            {
                proof {
                    lemma_uint_le_bound(b.subrange(i as int, n as int));
                    lemma_pow256_mono((n - i) as nat, 7);
                    assert(b.subrange(i - 1, n as int).drop_first() =~= b.subrange(i as int, n as int));
                }
                acc = bytes[i - 1] as u64 + acc * 256;
                i = i - 1;
            }
            assert(b.subrange(0, n as int) =~= b);
            acc
        },
    }
}

proof fn lemma_pow256_mono(a: nat, b: nat)
    requires
        a <= b,
    ensures
        pow256(a) <= pow256(b),
    decreases b,
{
    if a < b {
        lemma_pow256_mono(a, (b - 1) as nat);
    }
}


/// The magic string `⛾ gt` in UTF-8, which starts every `gt` file.
pub open spec fn magic_bytes() -> Seq<u8> {
    seq![0xe2u8, 0x9bu8, 0xbeu8, 0x20u8, 0x67u8, 0x74u8]
}

/// The number of bytes used for each node identifier of a graph with `n` nodes:
/// the smallest of 1, 2, 4, 8 whose unsigned integers hold `n`.
pub open spec fn node_id_width(n: usize) -> usize {
    if n <= 0xff {
        1
    } else if n <= 0xffff {
        2
    } else if n <= 0xffff_ffff {
        4
    } else {
        8
    }
}

/// Takes up to `n` bytes from the front of `pos`: all that are left if fewer remain.
pub fn take_n_bytes(pos: &mut ByteIter<'_>, n: usize) -> (bytes: Vec<u8>)
    ensures
        bytes@ == old(pos)@.take(taken_count(n, old(pos)@.len()) as int),
        final(pos)@ == old(pos)@.skip(taken_count(n, old(pos)@.len()) as int),
{
    let len = pos.len();
    let count = if n <= len { n } else { len };
    let ghost start = pos@;
    let mut bytes: Vec<u8> = Vec::new();
    let mut i: usize = 0;
    while i < count
        invariant
            i <= count <= start.len(),
            count == taken_count(n, start.len()),
            bytes@ == start.take(i as int),
            pos@ == start.skip(i as int),
        decreases count - i,
    {
        let b = pos.next_byte();
        match b {
            Some(b) => {
                bytes.push(b);
            },
            None => {},
        }
        i = i + 1;
        assert(bytes@ =~= start.take(i as int));
        assert(pos@ =~= start.skip(i as int));
    }
    bytes
}

/// Reads the magic string: takes six bytes (fewer at the end of the input) and
/// tells whether they are `⛾ gt` in UTF-8.
pub fn read_magic_string(pos: &mut ByteIter<'_>) -> (r: error::Result<bool>)
    ensures
        r == Ok::<bool, error::Error>(
            old(pos)@.take(taken_count(6, old(pos)@.len()) as int) == magic_bytes(),
        ),
        final(pos)@ == old(pos)@.skip(taken_count(6, old(pos)@.len()) as int),
{
    let buffer = take_n_bytes(pos, 6);
    let magic: [u8; 6] = [0xe2, 0x9b, 0xbe, 0x20, 0x67, 0x74];
    let ghost start = old(pos)@;
    if buffer.len() != 6 {
        return Ok(false);
    }
    let mut i: usize = 0;
    while i < 6
        invariant
            buffer.len() == 6,
            start == old(pos)@,
            buffer@ == start.take(taken_count(6, start.len()) as int),
            pos@ == start.skip(taken_count(6, start.len()) as int),
            magic@ == magic_bytes(),
            forall|j: int| 0 <= j < i ==> buffer@[j] == magic_bytes()[j],
        decreases 6 - i,
    {
        if buffer[i] != magic[i] {
            assert(buffer@[i as int] != magic_bytes()[i as int]);
            return Ok(false);
        }
        i = i + 1;
    }
    assert(buffer@ =~= magic_bytes());
    Ok(true)
}

/// Reads the one-byte version number.
pub fn read_version_number(pos: &mut ByteIter<'_>) -> (r: error::Result<u8>)
    requires
        old(pos)@.len() >= 1,
    ensures
        r == Ok::<u8, error::Error>(old(pos)@[0]),
        final(pos)@ == old(pos)@.drop_first(),
{
    let buffer = take_n_bytes(pos, 1);
    let version_number = buffer[0];
    Ok(version_number)
}

/// Reads a one-byte Boolean: true exactly when the byte is `0x01`.
pub fn read_bool(pos: &mut ByteIter<'_>, _endianness: Endianness) -> (r: error::Result<bool>)
    requires
        old(pos)@.len() >= 1,
    ensures
        r == Ok::<bool, error::Error>(old(pos)@[0] == 1),
        final(pos)@ == old(pos)@.drop_first(),
{
    let buffer = take_n_bytes(pos, 1);
    let number = buffer[0];
    Ok(number == 0x01)
}

/// Reads the endianness flag: `0x00` for little-endian, `0x01` for big-endian.
pub fn read_endianness(pos: &mut ByteIter<'_>) -> (r: error::Result<Endianness>)
    requires
        old(pos)@.len() >= 1,
        old(pos)@[0] <= 1,
    ensures
        r == Ok::<Endianness, error::Error>(
            if old(pos)@[0] == 0 { Endianness::LittleEndian } else { Endianness::BigEndian },
        ),
        final(pos)@ == old(pos)@.drop_first(),
{
    let buffer = take_n_bytes(pos, 1);
    let endianness_flag = buffer[0];
    let endianness = if endianness_flag == 0x00 {
        Endianness::LittleEndian
    } else {
        Endianness::BigEndian
    };
    Ok(endianness)
}

/// Moves the elements of `vec` into an array of length `N` when the lengths agree.
///
/// Calls `<[T; N] as TryFrom<Vec<T>>>::try_from`, whose documentation says that it
/// gives the whole contents of the vector as an array when its length is exactly `N`,
/// and gives the vector back otherwise.
#[verifier::external_body]
fn vec_try_into_array<T, const N: usize>(vec: Vec<T>) -> (r: core::result::Result<[T; N], Vec<T>>)
    ensures
        r matches Ok(a) ==> vec@.len() == N && a@ == vec@,
        r matches Err(v) ==> vec@.len() != N && v@ == vec@,
{
    vec.try_into()
}

/// Converts a vector into an array of length `N`, or reports the expected length.
pub fn vec2array<T, const N: usize>(vec: Vec<T>) -> (r: error::Result<[T; N]>)
    ensures
        vec@.len() == N ==> (r matches Ok(a) && a@ == vec@),
        vec@.len() != N ==> r == Err::<[T; N], error::Error>(error::Error::MismatchedLength { expect: N }),
{
    match vec_try_into_array::<T, N>(vec) {
        Ok(a) => Ok(a),
        Err(_) => Err(error::Error::MismatchedLength { expect: N }),
    }
}

/// The value of the first eight bytes in the given byte order.
pub fn bytes_to_u64(bytes: &Vec<u8>, endianness: Endianness) -> (v: u64)
    requires
        bytes@.len() >= 8,
    ensures
        v == uint_value(bytes@.take(8), endianness),
{
    uint_of_prefix(bytes, 8, endianness)
}

/// The value of the first four bytes in the given byte order.
pub fn bytes_to_u32(bytes: &Vec<u8>, endianness: Endianness) -> (v: u32)
    requires
        bytes@.len() >= 4,
    ensures
        v == uint_value(bytes@.take(4), endianness),
{
    proof {
        lemma_uint_value_bound(bytes@.take(4), endianness);
        lemma_pow256_values();
    }
    uint_of_prefix(bytes, 4, endianness) as u32
}

/// The value of the first two bytes in the given byte order.
pub fn bytes_to_u16(bytes: &Vec<u8>, endianness: Endianness) -> (v: u16)
    requires
        bytes@.len() >= 2,
    ensures
        v == uint_value(bytes@.take(2), endianness),
{
    proof {
        lemma_uint_value_bound(bytes@.take(2), endianness);
        lemma_pow256_values();
    }
    uint_of_prefix(bytes, 2, endianness) as u16
}

/// The first byte.
pub fn bytes_to_u8(bytes: &Vec<u8>) -> (v: u8)
    requires
        bytes@.len() >= 1,
    ensures
        v == bytes@[0],
{
    bytes[0]
}

/// A one-byte sequence has its byte as value in both byte orders.
proof fn lemma_uint_value_one_byte(b: Seq<u8>, endianness: Endianness)
    requires
        b.len() == 1,
    ensures
        uint_value(b, endianness) == b[0],
{
    reveal_with_fuel(uint_le, 2);
    reveal_with_fuel(uint_be, 2);
    assert(b.drop_first().len() == 0);
    assert(b.drop_last().len() == 0);
}

/// The value of the first `n_bytes_per_node_identifier` bytes, for a width of 1, 2, 4 or 8.
pub fn bytes_to_int<T>(
    bytes: &Vec<u8>,
    endianness: Endianness,
    n_bytes_per_node_identifier: usize,
) -> (r: error::Result<u64>)
    requires
        n_bytes_per_node_identifier == 1 || n_bytes_per_node_identifier == 2
            || n_bytes_per_node_identifier == 4 || n_bytes_per_node_identifier == 8,
        bytes@.len() >= n_bytes_per_node_identifier,
    ensures
        r == Ok::<u64, error::Error>(
            uint_value(bytes@.take(n_bytes_per_node_identifier as int), endianness) as u64,
        ),
        uint_value(bytes@.take(n_bytes_per_node_identifier as int), endianness) <= u64::MAX,
{
    proof {
        lemma_uint_value_bound(bytes@.take(n_bytes_per_node_identifier as int), endianness);
        lemma_pow256_values();
        lemma_pow256_mono(n_bytes_per_node_identifier as nat, 8);
    }
    let result = if n_bytes_per_node_identifier == 1 {
        proof {
            lemma_uint_value_one_byte(bytes@.take(1), endianness);
        }
        bytes_to_u8(bytes) as u64
    } else if n_bytes_per_node_identifier == 2 {
        bytes_to_u16(bytes, endianness) as u64
    } else if n_bytes_per_node_identifier == 4 {
        bytes_to_u32(bytes, endianness) as u64
    } else {
        bytes_to_u64(bytes, endianness)
    };
    Ok(result)
}

/// Reads an unsigned 64-bit integer.
pub fn read_u64(pos: &mut ByteIter<'_>, endianness: Endianness) -> (r: error::Result<u64>)
    requires
        old(pos)@.len() >= 8,
    ensures
        r == Ok::<u64, error::Error>(uint_value(old(pos)@.take(8), endianness) as u64),
        uint_value(old(pos)@.take(8), endianness) <= u64::MAX,
        final(pos)@ == old(pos)@.skip(8),
{
    let bytes = take_n_bytes(pos, 8);
    assert(bytes@.take(8) =~= old(pos)@.take(8));
    bytes_to_int::<u64>(&bytes, endianness, 8)
}

/// Reads a 64-bit size, converted to `usize` (truncated where `usize` is narrower).
pub fn read_size(pos: &mut ByteIter<'_>, endianness: Endianness) -> (r: error::Result<usize>)
    requires
        old(pos)@.len() >= 8,
    ensures
        r == Ok::<usize, error::Error>((uint_value(old(pos)@.take(8), endianness) as u64) as usize),
        final(pos)@ == old(pos)@.skip(8),
{
    let size = read_u64(pos, endianness)?;
    Ok(size as usize)
}

proof fn lemma_i16_of_bits(v: u16)
    ensures
        v as i16 == signed16(v as nat),
{
    assert(v < 0x8000 ==> (v as i16) as int == v as int) by (bit_vector);
    assert(v >= 0x8000 ==> (v as i16) as int == v as int - 0x1_0000) by (bit_vector);
}

proof fn lemma_i32_of_bits(v: u32)
    ensures
        v as i32 == signed32(v as nat),
{
    assert(v < 0x8000_0000 ==> (v as i32) as int == v as int) by (bit_vector);
    assert(v >= 0x8000_0000 ==> (v as i32) as int == v as int - 0x1_0000_0000) by (bit_vector);
}

proof fn lemma_i64_of_bits(v: u64)
    ensures
        v as i64 == signed64(v as nat),
{
    assert(v < 0x8000_0000_0000_0000 ==> (v as i64) as int == v as int) by (bit_vector);
    assert(v >= 0x8000_0000_0000_0000 ==> (v as i64) as int == v as int - 0x1_0000_0000_0000_0000)
        by (bit_vector);
}

/// Reads a signed 16-bit integer (two's complement).
pub fn read_i16(pos: &mut ByteIter<'_>, endianness: Endianness) -> (r: error::Result<i16>)
    requires
        old(pos)@.len() >= 2,
    ensures
        r matches Ok(v) && v == signed16(uint_value(old(pos)@.take(2), endianness)),
        final(pos)@ == old(pos)@.skip(2),
{
    let bytes = take_n_bytes(pos, 2);
    assert(bytes@.take(2) =~= old(pos)@.take(2));
    let bits = bytes_to_u16(&bytes, endianness);
    proof {
        lemma_i16_of_bits(bits);
    }
    Ok(bits as i16)
}

/// Reads a signed 32-bit integer (two's complement).
pub fn read_i32(pos: &mut ByteIter<'_>, endianness: Endianness) -> (r: error::Result<i32>)
    requires
        old(pos)@.len() >= 4,
    ensures
        r matches Ok(v) && v == signed32(uint_value(old(pos)@.take(4), endianness)),
        final(pos)@ == old(pos)@.skip(4),
{
    let bytes = take_n_bytes(pos, 4);
    assert(bytes@.take(4) =~= old(pos)@.take(4));
    let bits = bytes_to_u32(&bytes, endianness);
    proof {
        lemma_i32_of_bits(bits);
    }
    Ok(bits as i32)
}

/// Reads a signed 64-bit integer (two's complement).
pub fn read_i64(pos: &mut ByteIter<'_>, endianness: Endianness) -> (r: error::Result<i64>)
    requires
        old(pos)@.len() >= 8,
    ensures
        r matches Ok(v) && v == signed64(uint_value(old(pos)@.take(8), endianness)),
        final(pos)@ == old(pos)@.skip(8),
{
    let bytes = take_n_bytes(pos, 8);
    assert(bytes@.take(8) =~= old(pos)@.take(8));
    let bits = bytes_to_u64(&bytes, endianness);
    proof {
        lemma_i64_of_bits(bits);
    }
    Ok(bits as i64)
}

/// Reads the directed flag: `0x00` undirected, `0x01` directed.
pub fn read_directed(pos: &mut ByteIter<'_>) -> (r: error::Result<bool>)
    requires
        old(pos)@.len() >= 1,
        old(pos)@[0] <= 1,
    ensures
        r == Ok::<bool, error::Error>(old(pos)@[0] == 1),
        final(pos)@ == old(pos)@.drop_first(),
{
    let flag = take_n_bytes(pos, 1);
    Ok(is_directed(flag[0]))
}

/// Whether a directed flag (`0x00` or `0x01`) marks a directed graph.
pub fn is_directed(directed_flag: u8) -> (r: bool)
    requires
        directed_flag <= 1,
    ensures
        r == (directed_flag == 1),
{
    directed_flag == 0x01
}

/// `u64::MAX` converted to `usize` is the largest `usize`.
proof fn lemma_u64_max_as_usize(y: usize)
    ensures
        y <= (0xffff_ffff_ffff_ffffu64 as usize),
{
    assert(y <= (0xffff_ffff_ffff_ffffu64 as usize)) by (bit_vector);
}

/// The width of the node identifiers is the smallest of 1, 2, 4 and 8 bytes whose largest
/// unsigned value is at least the number of nodes.
pub proof fn lemma_node_id_width_smallest(n: usize)
    ensures
        ({
            let d = node_id_width(n);
            &&& d == 1 || d == 2 || d == 4 || d == 8
            &&& n <= pow256(d as nat) - 1
            &&& forall|w: usize|
                (w == 1 || w == 2 || w == 4 || w == 8) && w < d ==> pow256(w as nat) - 1 < n
        }),
{
    lemma_pow256_values();
    assert(n <= 0xffff_ffff_ffff_ffffu64);
}

/// The number of bytes used to encode node identifiers for a graph with `n_nodes` nodes.
/// Some width holds every `usize`, so there is always one.
pub fn n_bytes_node_encoding(n_nodes: usize) -> (r: Option<usize>)
    ensures
        r == Some(node_id_width(n_nodes)),
{
    let sizes: [usize; 4] = [1, 2, 4, 8];
    let capacities: [usize; 4] = [
        u8::MAX as usize,
        u16::MAX as usize,
        u32::MAX as usize,
        u64::MAX as usize,
    ];
    proof {
        lemma_u64_max_as_usize(usize::MAX);
    }
    let mut i: usize = 0;
    while i < 4
        invariant
            i <= 4,
            sizes@ == seq![1usize, 2usize, 4usize, 8usize],
            capacities@ == seq![0xffusize, 0xffffusize, 0xffff_ffffusize, usize::MAX],
            forall|j: int| 0 <= j < i ==> capacities@[j] < n_nodes,
        decreases 4 - i,
    {
        if capacities[i] >= n_nodes {
            return Some(sizes[i]);
        }
        i = i + 1;
    }
    assert(capacities@[3] < n_nodes);
    None
}


/// Applies a fallible step `k` times from `init`, stopping at the first error.
pub open spec fn iterate<S>(step: spec_fn(S) -> core::result::Result<S, ParseError>, init: S, k: nat)
    -> core::result::Result<S, ParseError>
    decreases k,
{
    if k == 0 {
        Ok(init)
    } else {
        match iterate(step, init, (k - 1) as nat) {
            Ok(state) => step(state),
            Err(e) => Err(e),
        }
    }
}

/// Once an iteration fails, every longer one fails with the same error.
pub proof fn lemma_iterate_err<S>(
    step: spec_fn(S) -> core::result::Result<S, ParseError>,
    init: S,
    i: nat,
    n: nat,
)
    requires
        i <= n,
        iterate(step, init, i) is Err,
    ensures
        iterate(step, init, n) == iterate(step, init, i),
    decreases n,
{
    if i < n {
        lemma_iterate_err(step, init, i, (n - 1) as nat);
    }
}

/// `r` is what the specification `expected` gives: on success the value's view and the
/// bytes left after it (`after`), on failure the same error.
pub open spec fn outcome_matches<T: View>(
    r: core::result::Result<T, ParseError>,
    expected: core::result::Result<(T::V, Seq<u8>), ParseError>,
    after: Seq<u8>,
) -> bool {
    match expected {
        Ok((v, rest)) => r matches Ok(x) && x@ == v && after == rest,
        Err(e) => r == Err::<T, ParseError>(e),
    }
}

/// The views of the elements of `v`.
pub open spec fn view_all<T: View>(v: Seq<T>) -> Seq<T::V> {
    v.map_values(|x: T| x@)
}

/// The length prefix of a string or a vector: eight bytes, as a `usize`.
pub open spec fn length_prefix(s: Seq<u8>, endianness: Endianness) -> usize {
    (uint_value(s.take(8), endianness) as u64) as usize
}

/// A string: a length prefix of eight bytes, then that many bytes of UTF-8
/// (all that are left when fewer remain).
pub open spec fn spec_string(s: Seq<u8>, endianness: Endianness) -> core::result::Result<
    (Seq<char>, Seq<u8>),
    ParseError,
> {
    if s.len() < 8 {
        Err(ParseError::UnexpectedEnd)
    } else {
        let body = s.skip(8);
        let k = taken_count(length_prefix(s, endianness), body.len());
        let bytes = body.take(k as int);
        if vstd::utf8::valid_utf8(bytes) {
            Ok((vstd::utf8::decode_utf8(bytes), body.skip(k as int)))
        } else {
            Err(ParseError::InvalidUtf8)
        }
    }
}

/// A string is read whenever it is there: when the length prefix `n` is followed by `n`
/// bytes of valid UTF-8, reading gives the characters that these bytes encode, and the
/// bytes after them are left.
pub proof fn lemma_string_present(s: Seq<u8>, endianness: Endianness)
    requires
        s.len() >= 8,
        uint_value(s.take(8), endianness) <= usize::MAX,
        s.len() >= 8 + uint_value(s.take(8), endianness),
        vstd::utf8::valid_utf8(s.subrange(8, 8 + uint_value(s.take(8), endianness) as int)),
    ensures
        ({
            let n = uint_value(s.take(8), endianness);
            &&& spec_string(s, endianness) is Ok
            &&& vstd::utf8::encode_utf8(spec_string(s, endianness)->Ok_0.0) == s.subrange(8, 8 + n as int)
            &&& spec_string(s, endianness)->Ok_0.1 == s.skip(8 + n as int)
        }),
{
    let n = uint_value(s.take(8), endianness);
    lemma_uint_value_bound(s.take(8), endianness);
    lemma_pow256_values();
    assert(length_prefix(s, endianness) == n);
    let body = s.skip(8);
    assert(body.take(n as int) =~= s.subrange(8, 8 + n as int));
    assert(body.skip(n as int) =~= s.skip(8 + n as int));
    vstd::utf8::decode_utf8_encode_utf8(s.subrange(8, 8 + n as int));
}

/// A string is refused only for these reasons: its length prefix is cut short, or the bytes
/// that the prefix announces are not valid UTF-8.
pub proof fn lemma_string_refused(s: Seq<u8>, endianness: Endianness)
    ensures
        s.len() < 8 ==> spec_string(s, endianness) == Err::<(Seq<char>, Seq<u8>), ParseError>(
            ParseError::UnexpectedEnd,
        ),
        s.len() >= 8 && uint_value(s.take(8), endianness) <= usize::MAX && s.len() >= 8
            + uint_value(s.take(8), endianness) && !vstd::utf8::valid_utf8(
            s.subrange(8, 8 + uint_value(s.take(8), endianness) as int),
        ) ==> spec_string(s, endianness) == Err::<(Seq<char>, Seq<u8>), ParseError>(
            ParseError::InvalidUtf8,
        ),
        spec_string(s, endianness) matches Err(e) ==> (e == ParseError::UnexpectedEnd
            <==> s.len() < 8),
        spec_string(s, endianness) matches Err(e) ==> (e == ParseError::UnexpectedEnd || e
            == ParseError::InvalidUtf8),
{
    if s.len() >= 8 {
        let n = uint_value(s.take(8), endianness);
        lemma_uint_value_bound(s.take(8), endianness);
        lemma_pow256_values();
        if n <= usize::MAX && s.len() >= 8 + n {
            assert(length_prefix(s, endianness) == n);
            assert(s.skip(8).take(n as int) =~= s.subrange(8, 8 + n as int));
        }
    }
}

/// Converts bytes to a string when they are valid UTF-8.
///
/// Calls `String::from_utf8`, whose documentation says that it succeeds exactly when the
/// bytes are valid UTF-8, and that the string then holds these bytes; the contract states
/// this with vstd's model of UTF-8 (`valid_utf8`, `decode_utf8`).
#[verifier::external_body]
fn string_from_utf8(bytes: Vec<u8>) -> (r: Option<String>)
    ensures
        r is Some <==> vstd::utf8::valid_utf8(bytes@),
        r matches Some(s) ==> s@ == vstd::utf8::decode_utf8(bytes@),
{
    String::from_utf8(bytes).ok()
}

/// Reads a string, or tells why it cannot be read.
pub fn parse_string(pos: &mut ByteIter<'_>, endianness: Endianness) -> (r: core::result::Result<
    String,
    ParseError,
>)
    ensures
        outcome_matches(r, spec_string(old(pos)@, endianness), final(pos)@),
{
    if pos.len() < 8 {
        return Err(ParseError::UnexpectedEnd);
    }
    let ghost s = pos@;
    let length_buffer = take_n_bytes(pos, 8);
    assert(length_buffer@.take(8) =~= s.take(8));
    let length = bytes_to_u64(&length_buffer, endianness) as usize;
    let string_buffer = take_n_bytes(pos, length);
    match string_from_utf8(string_buffer) {
        Some(string) => Ok(string),
        None => Err(ParseError::InvalidUtf8),
    }
}

/// Reads a string: a length prefix of eight bytes, then that many bytes of UTF-8.
pub fn read_string(pos: &mut ByteIter<'_>, endianness: Endianness) -> (r: error::Result<String>)
    requires
        spec_string(old(pos)@, endianness) is Ok,
    ensures
        r matches Ok(x) && spec_string(old(pos)@, endianness) == Ok::<(Seq<char>, Seq<u8>), ParseError>(
            (x@, final(pos)@),
        ),
{
    match parse_string(pos, endianness) {
        Ok(string) => Ok(string),
        Err(_) => {
            assert(false);
            Ok(String::new())
        },
    }
}

/// A value type that can be an element of a vector in a `gt` file.
pub trait GtScalar: Sized + View {
    /// What reading one value from the bytes `s` gives: the value's view and the bytes after it.
    spec fn spec_read(s: Seq<u8>, endianness: Endianness) -> core::result::Result<
        (Self::V, Seq<u8>),
        ParseError,
    >;

    /// Reads one value.
    fn parse(pos: &mut ByteIter<'_>, endianness: Endianness) -> (r: core::result::Result<
        Self,
        ParseError,
    >)
        ensures
            outcome_matches(r, Self::spec_read(old(pos)@, endianness), final(pos)@),
    ;
}

impl GtScalar for bool {
    open spec fn spec_read(s: Seq<u8>, endianness: Endianness) -> core::result::Result<
        (bool, Seq<u8>),
        ParseError,
    > {
        if s.len() < 1 {
            Err(ParseError::UnexpectedEnd)
        } else {
            Ok((s[0] == 1, s.drop_first()))
        }
    }

    fn parse(pos: &mut ByteIter<'_>, endianness: Endianness) -> (r: core::result::Result<
        bool,
        ParseError,
    >) {
        if pos.len() < 1 {
            return Err(ParseError::UnexpectedEnd);
        }
        match read_bool(pos, endianness) {
            Ok(b) => Ok(b),
            Err(_) => Err(ParseError::UnexpectedEnd),
        }
    }
}

impl GtScalar for i16 {
    open spec fn spec_read(s: Seq<u8>, endianness: Endianness) -> core::result::Result<
        (i16, Seq<u8>),
        ParseError,
    > {
        if s.len() < 2 {
            Err(ParseError::UnexpectedEnd)
        } else {
            Ok((signed16(uint_value(s.take(2), endianness)) as i16, s.skip(2)))
        }
    }

    fn parse(pos: &mut ByteIter<'_>, endianness: Endianness) -> (r: core::result::Result<
        i16,
        ParseError,
    >) {
        if pos.len() < 2 {
            return Err(ParseError::UnexpectedEnd);
        }
        match read_i16(pos, endianness) {
            Ok(v) => Ok(v),
            Err(_) => Err(ParseError::UnexpectedEnd),
        }
    }
}

impl GtScalar for i32 {
    open spec fn spec_read(s: Seq<u8>, endianness: Endianness) -> core::result::Result<
        (i32, Seq<u8>),
        ParseError,
    > {
        if s.len() < 4 {
            Err(ParseError::UnexpectedEnd)
        } else {
            Ok((signed32(uint_value(s.take(4), endianness)) as i32, s.skip(4)))
        }
    }

    fn parse(pos: &mut ByteIter<'_>, endianness: Endianness) -> (r: core::result::Result<
        i32,
        ParseError,
    >) {
        if pos.len() < 4 {
            return Err(ParseError::UnexpectedEnd);
        }
        match read_i32(pos, endianness) {
            Ok(v) => Ok(v),
            Err(_) => Err(ParseError::UnexpectedEnd),
        }
    }
}

impl GtScalar for i64 {
    open spec fn spec_read(s: Seq<u8>, endianness: Endianness) -> core::result::Result<
        (i64, Seq<u8>),
        ParseError,
    > {
        if s.len() < 8 {
            Err(ParseError::UnexpectedEnd)
        } else {
            Ok((signed64(uint_value(s.take(8), endianness)) as i64, s.skip(8)))
        }
    }

    fn parse(pos: &mut ByteIter<'_>, endianness: Endianness) -> (r: core::result::Result<
        i64,
        ParseError,
    >) {
        if pos.len() < 8 {
            return Err(ParseError::UnexpectedEnd);
        }
        match read_i64(pos, endianness) {
            Ok(v) => Ok(v),
            Err(_) => Err(ParseError::UnexpectedEnd),
        }
    }
}

impl GtScalar for String {
    open spec fn spec_read(s: Seq<u8>, endianness: Endianness) -> core::result::Result<
        (Seq<char>, Seq<u8>),
        ParseError,
    > {
        spec_string(s, endianness)
    }

    fn parse(pos: &mut ByteIter<'_>, endianness: Endianness) -> (r: core::result::Result<
        String,
        ParseError,
    >) {
        parse_string(pos, endianness)
    }
}

/// One step of reading a vector: one more element.
pub open spec fn vector_step<T: GtScalar>(endianness: Endianness) -> spec_fn(
    (Seq<T::V>, Seq<u8>),
) -> core::result::Result<(Seq<T::V>, Seq<u8>), ParseError> {
    |state: (Seq<T::V>, Seq<u8>)|
        match T::spec_read(state.1, endianness) {
            Ok((v, rest)) => Ok((state.0.push(v), rest)),
            Err(e) => Err(e),
        }
}

/// A vector: a length prefix of eight bytes, then that many elements.
pub open spec fn spec_vector<T: GtScalar>(s: Seq<u8>, endianness: Endianness) -> core::result::Result<
    (Seq<T::V>, Seq<u8>),
    ParseError,
> {
    if s.len() < 8 {
        Err(ParseError::UnexpectedEnd)
    } else {
        iterate(
            vector_step::<T>(endianness),
            (Seq::empty(), s.skip(8)),
            length_prefix(s, endianness) as nat,
        )
    }
}

/// Reads a vector of values, or tells why it cannot be read.
pub fn parse_vector<T: GtScalar>(pos: &mut ByteIter<'_>, endianness: Endianness) -> (r:
    core::result::Result<Vec<T>, ParseError>)
    ensures
        match spec_vector::<T>(old(pos)@, endianness) {
            Ok((vs, rest)) => r matches Ok(v) && view_all(v@) == vs && final(pos)@ == rest,
            Err(e) => r == Err::<Vec<T>, ParseError>(e),
        },
{
    if pos.len() < 8 {
        return Err(ParseError::UnexpectedEnd);
    }
    let ghost s = pos@;
    let size = match read_size(pos, endianness) {
        Ok(size) => size,
        Err(_) => {
            return Err(ParseError::UnexpectedEnd);
        },
    };
    let ghost step = vector_step::<T>(endianness);
    let ghost init = (Seq::<T::V>::empty(), s.skip(8));
    let mut vector: Vec<T> = Vec::new();
    let mut i: usize = 0;
    assert(view_all(vector@) =~= Seq::<T::V>::empty());
    while i < size
        invariant
            i <= size,
            size == length_prefix(s, endianness),
            s == old(pos)@,
            s.len() >= 8,
            step == vector_step::<T>(endianness),
            init == (Seq::<T::V>::empty(), s.skip(8)),
            iterate(step, init, i as nat) == Ok::<(Seq<T::V>, Seq<u8>), ParseError>(
                (view_all(vector@), pos@),
            ),
        decreases size - i,
    {
        let ghost before = vector@;
        let ghost p0 = pos@;
        match T::parse(pos, endianness) {
            Ok(element) => {
                vector.push(element);
                assert(view_all(vector@) =~= view_all(before).push(element@));
            },
            Err(e) => {
                proof {
                    assert(T::spec_read(p0, endianness) == Err::<(T::V, Seq<u8>), ParseError>(e));
                    assert(iterate(step, init, (i + 1) as nat) == step((view_all(before), p0)));
                    lemma_iterate_err(step, init, (i + 1) as nat, size as nat);
                }
                return Err(e);
            },
        }
        i = i + 1;
    }
    Ok(vector)
}

/// Reads a vector: a length prefix of eight bytes, then that many elements.
pub fn read_vector<T: GtScalar>(pos: &mut ByteIter<'_>, endianness: Endianness) -> (r: error::Result<
    Vec<T>,
>)
    requires
        spec_vector::<T>(old(pos)@, endianness) is Ok,
    ensures
        r matches Ok(v) && spec_vector::<T>(old(pos)@, endianness) == Ok::<
            (Seq<T::V>, Seq<u8>),
            ParseError,
        >((view_all(v@), final(pos)@)),
{
    match parse_vector::<T>(pos, endianness) {
        Ok(vector) => Ok(vector),
        Err(_) => {
            assert(false);
            Ok(Vec::new())
        },
    }
}


/// `std::io::Error`, the error type of the adjacency readers.
#[verifier::external_type_specification]
#[verifier::external_body]
pub struct ExIoError(std::io::Error);

/// The `j`-th node identifier of width `d` in `s`.
pub open spec fn node_id(s: Seq<u8>, endianness: Endianness, d: usize, j: int) -> usize {
    (uint_value(s.subrange(j * d, j * d + d), endianness) as u64) as usize
}

/// The `count` node identifiers of width `d` at the front of `s`.
pub open spec fn spec_successors(s: Seq<u8>, endianness: Endianness, d: usize, count: usize) -> Seq<
    usize,
> {
    Seq::new(count as nat, |j: int| node_id(s, endianness, d, j))
}

/// One step of reading the adjacency: the out-neighbours of one more node,
/// a count of eight bytes followed by that many identifiers of `d` bytes.
pub open spec fn node_step(endianness: Endianness, d: usize) -> spec_fn(
    (Seq<Seq<usize>>, Seq<u8>),
) -> core::result::Result<(Seq<Seq<usize>>, Seq<u8>), ParseError> {
    |state: (Seq<Seq<usize>>, Seq<u8>)|
        if state.1.len() < 8 {
            Err(ParseError::UnexpectedEnd)
        } else {
            let count = uint_value(state.1.take(8), endianness);
            let body = state.1.skip(8);
            if count > usize::MAX {
                Err(ParseError::SizeOverflow)
            } else if body.len() < count * d {
                Err(ParseError::UnexpectedEnd)
            } else {
                Ok(
                    (
                        state.0.push(spec_successors(body, endianness, d, count as usize)),
                        body.skip(count * d),
                    ),
                )
            }
        }
}

/// The adjacency lists: the number of nodes `N` (eight bytes), then for each node
/// its out-neighbours, with identifiers of `node_id_width(N)` bytes.
/// A number of nodes that does not fit in a `usize` is refused.
pub open spec fn spec_edges(s: Seq<u8>, endianness: Endianness) -> core::result::Result<
    (Seq<Seq<usize>>, Seq<u8>),
    ParseError,
> {
    if s.len() < 8 {
        Err(ParseError::UnexpectedEnd)
    } else {
        let n = uint_value(s.take(8), endianness);
        if n > usize::MAX {
            Err(ParseError::SizeOverflow)
        } else {
            iterate(node_step(endianness, node_id_width(n as usize)), (Seq::empty(), s.skip(8)), n)
        }
    }
}

/// The number of edges `E`: the total length of the adjacency lists.
pub open spec fn total_successors(edges: Seq<Seq<usize>>) -> nat
    decreases edges.len(),
{
    if edges.len() == 0 {
        0
    } else {
        total_successors(edges.drop_last()) + edges.last().len()
    }
}

proof fn lemma_node_steps_size(endianness: Endianness, d: usize, s: Seq<u8>, k: nat)
    requires
        iterate(node_step(endianness, d), (Seq::empty(), s), k) is Ok,
    ensures
        ({
            let (es, rest) = iterate(node_step(endianness, d), (Seq::empty(), s), k)->Ok_0;
            let used = 8 * k + total_successors(es) * d;
            &&& es.len() == k
            &&& used <= s.len()
            &&& rest == s.skip(used as int)
        }),
    decreases k,
{
    let step = node_step(endianness, d);
    if k > 0 {
        let prev = iterate(step, (Seq::empty(), s), (k - 1) as nat);
        if prev is Err {
            assert(iterate(step, (Seq::empty(), s), k) == prev);
        } else {
            lemma_node_steps_size(endianness, d, s, (k - 1) as nat);
            let (es0, r0) = prev->Ok_0;
            let count = uint_value(r0.take(8), endianness);
            let body = r0.skip(8);
            let succ = spec_successors(body, endianness, d, count as usize);
            let (es, r1) = iterate(step, (Seq::empty(), s), k)->Ok_0;
            assert(iterate(step, (Seq::empty(), s), k) == step((es0, r0)));
            assert(es == es0.push(succ));
            assert(r1 == body.skip(count * d));
            assert(succ.len() == count);
            assert(es.drop_last() =~= es0);
            assert(es.last() == succ);
            let t0 = total_successors(es0);
            assert(total_successors(es) == t0 + count);
            assert(8 * k + (t0 + count) * d == 8 * (k - 1) + t0 * d + 8 + count * d)
                by (nonlinear_arith);
            assert(r1 =~= s.skip(8 * k + total_successors(es) * d));
            assert(8 * k + total_successors(es) * d <= s.len());
            assert(es.len() == k);
        }
    } else {
        assert(total_successors(Seq::<Seq<usize>>::empty()) * d == 0);
        assert(s.skip(0) =~= s);
    }
}

/// The adjacency lists take `8 + 8 N + E d` bytes from the front of the input, where `N`
/// is the number of nodes, `E` the number of edges and `d` the width of the node
/// identifiers (with the directed flag before them, `1 + 8 + 8 N + E d`).
pub proof fn lemma_adjacency_size(s: Seq<u8>, endianness: Endianness)
    requires
        spec_edges(s, endianness) is Ok,
    ensures
        ({
            let (edges, rest) = spec_edges(s, endianness)->Ok_0;
            let d = node_id_width(edges.len() as usize);
            let used = 8 + 8 * edges.len() + total_successors(edges) * d;
            &&& edges.len() == uint_value(s.take(8), endianness)
            &&& used <= s.len()
            &&& rest == s.skip(used as int)
        }),
{
    let n = uint_value(s.take(8), endianness);
    let d = node_id_width(n as usize);
    lemma_node_steps_size(endianness, d, s.skip(8), n);
    let (edges, rest) = spec_edges(s, endianness)->Ok_0;
    assert(rest =~= s.skip(8 + 8 * edges.len() + total_successors(edges) * d));
}

/// Every node identifier is the unsigned value of its `d` bytes in the file's byte order:
/// the `j`-th out-neighbour is the value of bytes `j d .. j d + d` (when it fits in a `usize`).
pub proof fn lemma_successor_values(s: Seq<u8>, endianness: Endianness, d: usize, count: usize, j: int)
    requires
        d == 1 || d == 2 || d == 4 || d == 8,
        0 <= j < count,
        uint_value(s.subrange(j * d, j * d + d), endianness) <= usize::MAX,
    ensures
        spec_successors(s, endianness, d, count)[j] as int == uint_value(
            s.subrange(j * d, j * d + d),
            endianness,
        ),
{
}

/// Reading the out-neighbours of one node: an eight-byte count in the file's byte order,
/// then that many identifiers of `d` bytes, each the value of its bytes in that order.
pub proof fn lemma_node_step(
    endianness: Endianness,
    d: usize,
    es: Seq<Seq<usize>>,
    r: Seq<u8>,
)
    requires
        d == 1 || d == 2 || d == 4 || d == 8,
        node_step(endianness, d)((es, r)) is Ok,
    ensures
        ({
            let (es2, r2) = node_step(endianness, d)((es, r))->Ok_0;
            let count = uint_value(r.take(8), endianness);
            let list = es2.last();
            &&& es2.drop_last() == es
            &&& list.len() == count
            &&& r2 == r.skip(8 + count * d)
            &&& forall|j: int|
                0 <= j < count && uint_value(r.subrange(8 + j * d, 8 + j * d + d), endianness)
                    <= usize::MAX ==> #[trigger] list[j] as int == uint_value(
                    r.subrange(8 + j * d, 8 + j * d + d),
                    endianness,
                )
        }),
{
    let count = uint_value(r.take(8), endianness);
    let body = r.skip(8);
    let (es2, r2) = node_step(endianness, d)((es, r))->Ok_0;
    assert(es2.drop_last() =~= es);
    assert(r2 =~= r.skip(8 + count * d));
    assert forall|j: int|
        0 <= j < count && uint_value(r.subrange(8 + j * d, 8 + j * d + d), endianness)
            <= usize::MAX implies #[trigger] es2.last()[j] as int == uint_value(
        r.subrange(8 + j * d, 8 + j * d + d),
        endianness,
    ) by {
        assert(j * d + d <= count * d) by (nonlinear_arith)
            requires
                j < count,
                d > 0,
        ;
        assert(0 <= j * d) by (nonlinear_arith)
            requires
                j >= 0,
                d > 0,
        ;
        assert(body.subrange(j * d, j * d + d) =~= r.subrange(8 + j * d, 8 + j * d + d));
        lemma_successor_values(body, endianness, d, count as usize, j);
    }
}

/// Reads the identifiers of `n_successors` out-neighbours, each of
/// `n_bytes_per_node_identifier` bytes.
pub fn read_n_successors(
    pos: &mut ByteIter<'_>,
    endianness: Endianness,
    n_bytes_per_node_identifier: usize,
    n_successors: usize,
) -> (r: std::io::Result<Vec<usize>>)
    requires
        n_successors > 0 ==> (n_bytes_per_node_identifier == 1 || n_bytes_per_node_identifier == 2
            || n_bytes_per_node_identifier == 4 || n_bytes_per_node_identifier == 8),
        old(pos)@.len() >= n_successors * n_bytes_per_node_identifier,
    ensures
        r matches Ok(v) && v@ == spec_successors(
            old(pos)@,
            endianness,
            n_bytes_per_node_identifier,
            n_successors,
        ),
        final(pos)@ == old(pos)@.skip(n_successors * n_bytes_per_node_identifier),
{
    let d = n_bytes_per_node_identifier;
    let ghost s = pos@;
    let mut successors: Vec<usize> = Vec::new();
    let mut j: usize = 0;
    while j < n_successors
        invariant
            n_successors > 0 ==> (d == 1 || d == 2 || d == 4 || d == 8),
            j <= n_successors,
            s.len() >= n_successors * d,
            j * d <= n_successors * d,
            pos@ == s.skip(j * d),
            successors@ == Seq::new(j as nat, |k: int| node_id(s, endianness, d, k)),
        decreases n_successors - j,
    {
        proof {
            assert((j + 1) * d == j * d + d) by (nonlinear_arith);
            assert((j + 1) * d <= n_successors * d) by (nonlinear_arith)
                requires
                    j + 1 <= n_successors,
                    d > 0,
            ;
        }
        let node_identifier_buffer = take_n_bytes(pos, d);
        assert(node_identifier_buffer@.take(d as int) =~= s.subrange(j * d, j * d + d));
        let id = bytes_to_int::<u64>(&node_identifier_buffer, endianness, d);
        let id = match id {
            Ok(v) => v,
            Err(_) => 0,
        };
        successors.push(id as usize);
        j = j + 1;
        assert(pos@ =~= s.skip(j * d));
        assert(successors@ =~= Seq::new(j as nat, |k: int| node_id(s, endianness, d, k)));
    }
    Ok(successors)
}

/// Reads the adjacency lists, or tells why they cannot be read.
pub fn parse_edges(pos: &mut ByteIter<'_>, endianness: Endianness) -> (r: core::result::Result<
    Vec<Vec<usize>>,
    ParseError,
>)
    ensures
        match spec_edges(old(pos)@, endianness) {
            Ok((edges, rest)) => r matches Ok(v) && view_all(v@) == edges && final(pos)@ == rest,
            Err(e) => r == Err::<Vec<Vec<usize>>, ParseError>(e),
        },
{
    let ghost s = pos@;
    if pos.len() < 8 {
        return Err(ParseError::UnexpectedEnd);
    }
    let length_buffer = take_n_bytes(pos, 8);
    assert(length_buffer@.take(8) =~= s.take(8));
    let n64 = bytes_to_u64(&length_buffer, endianness);
    let n_nodes: usize = match usize::try_from(n64) {
        Ok(n) => n,
        Err(_) => {
            return Err(ParseError::SizeOverflow);
        },
    };
    let d = match n_bytes_node_encoding(n_nodes) {
        Some(d) => d,
        None => {
            return Err(ParseError::SizeOverflow);
        },
    };
    let ghost step = node_step(endianness, d);
    let ghost init = (Seq::<Seq<usize>>::empty(), s.skip(8));
    let mut edges: Vec<Vec<usize>> = Vec::new();
    let mut node: usize = 0;
    assert(view_all(edges@) =~= Seq::<Seq<usize>>::empty());
    while node < n_nodes
        invariant
            node <= n_nodes,
            s == old(pos)@,
            s.len() >= 8,
            n_nodes == uint_value(s.take(8), endianness),
            node_id_width(n_nodes) == d,
            d == 1 || d == 2 || d == 4 || d == 8,
            step == node_step(endianness, d),
            init == (Seq::<Seq<usize>>::empty(), s.skip(8)),
            iterate(step, init, node as nat) == Ok::<(Seq<Seq<usize>>, Seq<u8>), ParseError>(
                (view_all(edges@), pos@),
            ),
        decreases n_nodes - node,
    {
        let ghost before = edges@;
        let ghost p0 = pos@;
        let ghost st = (view_all(before), p0);
        assert(iterate(step, init, (node + 1) as nat) == step(st));
        if pos.len() < 8 {
            proof {
                lemma_iterate_err(step, init, (node + 1) as nat, n_nodes as nat);
            }
            return Err(ParseError::UnexpectedEnd);
        }
        let n_successors_buffer = take_n_bytes(pos, 8);
        assert(n_successors_buffer@.take(8) =~= p0.take(8));
        let c64 = bytes_to_u64(&n_successors_buffer, endianness);
        let n_successors: usize = match usize::try_from(c64) {
            Ok(c) => c,
            Err(_) => {
                proof {
                    lemma_iterate_err(step, init, (node + 1) as nat, n_nodes as nat);
                }
                return Err(ParseError::SizeOverflow);
            },
        };
        if n_successors > pos.len() / d {
            proof {
                assert(pos@.len() < n_successors * d) by (nonlinear_arith)
                    requires
                        n_successors > pos@.len() / (d as nat),
                        d > 0,
                ;
                lemma_iterate_err(step, init, (node + 1) as nat, n_nodes as nat);
            }
            return Err(ParseError::UnexpectedEnd);
        }
        proof {
            assert(n_successors * d <= pos@.len()) by (nonlinear_arith)
                requires
                    n_successors <= pos@.len() / (d as nat),
                    d > 0,
            ;
        }
        let successors = match read_n_successors(pos, endianness, d, n_successors) {
            Ok(v) => v,
            Err(_) => Vec::new(),
        };
        edges.push(successors);
        assert(view_all(edges@) =~= view_all(before).push(successors@));
        node = node + 1;
    }
    Ok(edges)
}

/// Reads the adjacency lists: the number of nodes, then the out-neighbours of each node.
pub fn read_edges(pos: &mut ByteIter<'_>, endianness: Endianness) -> (r: std::io::Result<
    Vec<Vec<usize>>,
>)
    requires
        spec_edges(old(pos)@, endianness) is Ok,
    ensures
        r matches Ok(v) && spec_edges(old(pos)@, endianness) == Ok::<
            (Seq<Seq<usize>>, Seq<u8>),
            ParseError,
        >((view_all(v@), final(pos)@)),
{
    match parse_edges(pos, endianness) {
        Ok(edges) => Ok(edges),
        Err(_) => {
            assert(false);
            Ok(Vec::new())
        },
    }
}

} // verus!
