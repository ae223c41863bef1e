//! Big-endian byte encodings of the fixed-width integers used by the chunk
//! record format: `u64` for lengths and counts, `u128` (two's complement of
//! `i128`) for integer scalars.

use vstd::prelude::*;

verus! {

/// The eight big-endian bytes of a 64-bit unsigned integer.
pub open spec fn u64_be_bytes(x: u64) -> Seq<u8> {
    seq![
        (x >> 56) as u8,
        (x >> 48) as u8,
        (x >> 40) as u8,
        (x >> 32) as u8,
        (x >> 24) as u8,
        (x >> 16) as u8,
        (x >> 8) as u8,
        x as u8,
    ]
}

/// The 64-bit unsigned integer read from eight big-endian bytes.
pub open spec fn u64_of_be(s: Seq<u8>) -> u64
    recommends
        s.len() == 8,
{
    (s[0] as u64) << 56 | (s[1] as u64) << 48 | (s[2] as u64) << 40 | (s[3] as u64) << 32 | (
    s[4] as u64) << 24 | (s[5] as u64) << 16 | (s[6] as u64) << 8 | (s[7] as u64)
}

/// Reading back the bytes written for `x` yields `x`.
pub proof fn lemma_u64_be_round_trip(x: u64)
    ensures
        u64_of_be(u64_be_bytes(x)) == x,
{
    assert(((x >> 56) as u8 as u64) << 56 | ((x >> 48) as u8 as u64) << 48 | ((x
        >> 40) as u8 as u64) << 40 | ((x >> 32) as u8 as u64) << 32 | ((x >> 24) as u8 as u64)
        << 24 | ((x >> 16) as u8 as u64) << 16 | ((x >> 8) as u8 as u64) << 8 | (x as u8 as u64)
        == x) by (bit_vector);
}

/// The bytes written for the integer read from eight bytes are those bytes.
pub proof fn lemma_u64_of_be_round_trip(s: Seq<u8>)
    requires
        s.len() == 8,
    ensures
        u64_be_bytes(u64_of_be(s)) =~= s,
{
    let b0 = s[0];
    let b1 = s[1];
    let b2 = s[2];
    let b3 = s[3];
    let b4 = s[4];
    let b5 = s[5];
    let b6 = s[6];
    let b7 = s[7];
    let x = (b0 as u64) << 56 | (b1 as u64) << 48 | (b2 as u64) << 40 | (b3 as u64) << 32 | (
    b4 as u64) << 24 | (b5 as u64) << 16 | (b6 as u64) << 8 | (b7 as u64);
    assert((x >> 56) as u8 == b0 && (x >> 48) as u8 == b1 && (x >> 40) as u8 == b2 && (x
        >> 32) as u8 == b3 && (x >> 24) as u8 == b4 && (x >> 16) as u8 == b5 && (x >> 8) as u8
        == b6 && x as u8 == b7) by (bit_vector)
        requires
            x == (b0 as u64) << 56 | (b1 as u64) << 48 | (b2 as u64) << 40 | (b3 as u64) << 32 | (
            b4 as u64) << 24 | (b5 as u64) << 16 | (b6 as u64) << 8 | (b7 as u64),
    ;
}

/// Appends the big-endian bytes of `x` to `buf`.
pub fn push_u64_be(buf: &mut Vec<u8>, x: u64)
    ensures
        final(buf)@ =~= old(buf)@ + u64_be_bytes(x),
{
    buf.push((x >> 56) as u8);
    buf.push((x >> 48) as u8);
    buf.push((x >> 40) as u8);
    buf.push((x >> 32) as u8);
    buf.push((x >> 24) as u8);
    buf.push((x >> 16) as u8);
    buf.push((x >> 8) as u8);
    buf.push(x as u8);
}

/// Reads the 64-bit big-endian integer at `pos`.
pub fn read_u64_be(bytes: &[u8], pos: usize) -> (x: u64)
    requires
        pos + 8 <= bytes@.len(),
    ensures
        x == u64_of_be(bytes@.subrange(pos as int, pos as int + 8)),
        u64_be_bytes(x) =~= bytes@.subrange(pos as int, pos as int + 8),
{
    let x = (bytes[pos] as u64) << 56 | (bytes[pos + 1] as u64) << 48 | (bytes[pos + 2] as u64)
        << 40 | (bytes[pos + 3] as u64) << 32 | (bytes[pos + 4] as u64) << 24 | (bytes[pos
        + 5] as u64) << 16 | (bytes[pos + 6] as u64) << 8 | (bytes[pos + 7] as u64);
    proof {
        let s = bytes@.subrange(pos as int, pos as int + 8);
        assert(x == u64_of_be(s));
        lemma_u64_of_be_round_trip(s);
    }
    x
}

/// The sixteen big-endian bytes of a 128-bit unsigned integer.
pub open spec fn u128_be_bytes(x: u128) -> Seq<u8> {
    seq![
        (x >> 120) as u8,
        (x >> 112) as u8,
        (x >> 104) as u8,
        (x >> 96) as u8,
        (x >> 88) as u8,
        (x >> 80) as u8,
        (x >> 72) as u8,
        (x >> 64) as u8,
        (x >> 56) as u8,
        (x >> 48) as u8,
        (x >> 40) as u8,
        (x >> 32) as u8,
        (x >> 24) as u8,
        (x >> 16) as u8,
        (x >> 8) as u8,
        x as u8,
    ]
}

/// The 128-bit unsigned integer read from sixteen big-endian bytes.
pub open spec fn u128_of_be(s: Seq<u8>) -> u128
    recommends
        s.len() == 16,
{
    (s[0] as u128) << 120 | (s[1] as u128) << 112 | (s[2] as u128) << 104 | (s[3] as u128) << 96 | (
    s[4] as u128) << 88 | (s[5] as u128) << 80 | (s[6] as u128) << 72 | (s[7] as u128) << 64 | (
    s[8] as u128) << 56 | (s[9] as u128) << 48 | (s[10] as u128) << 40 | (s[11] as u128) << 32 | (
    s[12] as u128) << 24 | (s[13] as u128) << 16 | (s[14] as u128) << 8 | (s[15] as u128)
}

/// Reading back the bytes written for `x` yields `x`.
pub proof fn lemma_u128_be_round_trip(x: u128)
    ensures
        u128_of_be(u128_be_bytes(x)) == x,
{
    assert(((x >> 120) as u8 as u128) << 120 | ((x >> 112) as u8 as u128) << 112 | ((x
        >> 104) as u8 as u128) << 104 | ((x >> 96) as u8 as u128) << 96 | ((x >> 88) as u8 as u128)
        << 88 | ((x >> 80) as u8 as u128) << 80 | ((x >> 72) as u8 as u128) << 72 | ((x
        >> 64) as u8 as u128) << 64 | ((x >> 56) as u8 as u128) << 56 | ((x >> 48) as u8 as u128)
        << 48 | ((x >> 40) as u8 as u128) << 40 | ((x >> 32) as u8 as u128) << 32 | ((x
        >> 24) as u8 as u128) << 24 | ((x >> 16) as u8 as u128) << 16 | ((x >> 8) as u8 as u128)
        << 8 | (x as u8 as u128) == x) by (bit_vector);
}

/// The bytes written for the integer read from sixteen bytes are those bytes.
pub proof fn lemma_u128_of_be_round_trip(s: Seq<u8>)
    requires
        s.len() == 16,
    ensures
        u128_be_bytes(u128_of_be(s)) =~= s,
{
    let b0 = s[0];
    let b1 = s[1];
    let b2 = s[2];
    let b3 = s[3];
    let b4 = s[4];
    let b5 = s[5];
    let b6 = s[6];
    let b7 = s[7];
    let b8 = s[8];
    let b9 = s[9];
    let b10 = s[10];
    let b11 = s[11];
    let b12 = s[12];
    let b13 = s[13];
    let b14 = s[14];
    let b15 = s[15];
    let x = (b0 as u128) << 120 | (b1 as u128) << 112 | (b2 as u128) << 104 | (b3 as u128) << 96 | (
    b4 as u128) << 88 | (b5 as u128) << 80 | (b6 as u128) << 72 | (b7 as u128) << 64 | (
    b8 as u128) << 56 | (b9 as u128) << 48 | (b10 as u128) << 40 | (b11 as u128) << 32 | (
    b12 as u128) << 24 | (b13 as u128) << 16 | (b14 as u128) << 8 | (b15 as u128);
    assert((x >> 120) as u8 == b0 && (x >> 112) as u8 == b1 && (x >> 104) as u8 == b2 && (x
        >> 96) as u8 == b3 && (x >> 88) as u8 == b4 && (x >> 80) as u8 == b5 && (x >> 72) as u8
        == b6 && (x >> 64) as u8 == b7 && (x >> 56) as u8 == b8 && (x >> 48) as u8 == b9 && (x
        >> 40) as u8 == b10 && (x >> 32) as u8 == b11 && (x >> 24) as u8 == b12 && (x >> 16) as u8
        == b13 && (x >> 8) as u8 == b14 && x as u8 == b15) by (bit_vector)
        requires
            x == (b0 as u128) << 120 | (b1 as u128) << 112 | (b2 as u128) << 104 | (b3 as u128)
                << 96 | (b4 as u128) << 88 | (b5 as u128) << 80 | (b6 as u128) << 72 | (b7 as u128)
                << 64 | (b8 as u128) << 56 | (b9 as u128) << 48 | (b10 as u128) << 40 | (
            b11 as u128) << 32 | (b12 as u128) << 24 | (b13 as u128) << 16 | (b14 as u128) << 8 | (
            b15 as u128),
    ;
}

/// Round trip of the two's-complement view of a signed 128-bit integer.
pub proof fn lemma_i128_cast_round_trip(x: i128)
    ensures
        (x as u128) as i128 == x,
{
    assert((x as u128) as i128 == x) by (bit_vector);
}

/// Round trip of a `u128` through `i128`.
pub proof fn lemma_u128_cast_round_trip(x: u128)
    ensures
        (x as i128) as u128 == x,
{
    assert((x as i128) as u128 == x) by (bit_vector);
}

/// Appends the big-endian bytes of `x` to `buf`.
pub fn push_u128_be(buf: &mut Vec<u8>, x: u128)
    ensures
        final(buf)@ =~= old(buf)@ + u128_be_bytes(x),
{
    buf.push((x >> 120) as u8);
    buf.push((x >> 112) as u8);
    buf.push((x >> 104) as u8);
    buf.push((x >> 96) as u8);
    buf.push((x >> 88) as u8);
    buf.push((x >> 80) as u8);
    buf.push((x >> 72) as u8);
    buf.push((x >> 64) as u8);
    buf.push((x >> 56) as u8);
    buf.push((x >> 48) as u8);
    buf.push((x >> 40) as u8);
    buf.push((x >> 32) as u8);
    buf.push((x >> 24) as u8);
    buf.push((x >> 16) as u8);
    buf.push((x >> 8) as u8);
    buf.push(x as u8);
}

/// Reads the 128-bit big-endian integer at `pos`.
pub fn read_u128_be(bytes: &[u8], pos: usize) -> (x: u128)
    requires
        pos + 16 <= bytes@.len(),
    ensures
        x == u128_of_be(bytes@.subrange(pos as int, pos as int + 16)),
        u128_be_bytes(x) =~= bytes@.subrange(pos as int, pos as int + 16),
{
    let x = (bytes[pos] as u128) << 120 | (bytes[pos + 1] as u128) << 112 | (bytes[pos
        + 2] as u128) << 104 | (bytes[pos + 3] as u128) << 96 | (bytes[pos + 4] as u128) << 88 | (
    bytes[pos + 5] as u128) << 80 | (bytes[pos + 6] as u128) << 72 | (bytes[pos + 7] as u128) << 64
        | (bytes[pos + 8] as u128) << 56 | (bytes[pos + 9] as u128) << 48 | (bytes[pos
        + 10] as u128) << 40 | (bytes[pos + 11] as u128) << 32 | (bytes[pos + 12] as u128) << 24 | (
    bytes[pos + 13] as u128) << 16 | (bytes[pos + 14] as u128) << 8 | (bytes[pos + 15] as u128);
    proof {
        let s = bytes@.subrange(pos as int, pos as int + 16);
        assert(x == u128_of_be(s));
        lemma_u128_of_be_round_trip(s);
    }
    x
}

} // verus!
