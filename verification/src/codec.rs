//! Serialization of fixed-width values to byte buffers.
//!
//! A 64-bit value (the bit pattern of a double) is written as 8 bytes, a
//! 32-bit value (the bit pattern of a single) as 4 bytes, least significant
//! byte first for little endian and most significant byte first for big
//! endian.  Values are concatenated in input order with no padding or
//! framing.  `Endianess::Native` is resolved to the executing platform's
//! order at the point of encoding.

use vstd::prelude::*;

use crate::Endianess;

verus! {

// ------------------------------------------------------------------
// Byte layout of a single value
// ------------------------------------------------------------------

/// The 8 bytes of a 64-bit value, least significant first.
pub open spec fn word64_le_bytes(x: u64) -> Seq<u8> {
    seq![
        (x & 0xff) as u8,
        ((x >> 8) & 0xff) as u8,
        ((x >> 16) & 0xff) as u8,
        ((x >> 24) & 0xff) as u8,
        ((x >> 32) & 0xff) as u8,
        ((x >> 40) & 0xff) as u8,
        ((x >> 48) & 0xff) as u8,
        ((x >> 56) & 0xff) as u8,
    ]
}

/// The 8 bytes of a 64-bit value, most significant first.
pub open spec fn word64_be_bytes(x: u64) -> Seq<u8> {
    seq![
        ((x >> 56) & 0xff) as u8,
        ((x >> 48) & 0xff) as u8,
        ((x >> 40) & 0xff) as u8,
        ((x >> 32) & 0xff) as u8,
        ((x >> 24) & 0xff) as u8,
        ((x >> 16) & 0xff) as u8,
        ((x >> 8) & 0xff) as u8,
        (x & 0xff) as u8,
    ]
}

/// The 8 bytes of a 64-bit value in the chosen order.
pub open spec fn word64_bytes(x: u64, little: bool) -> Seq<u8> {
    if little {
        word64_le_bytes(x)
    } else {
        word64_be_bytes(x)
    }
}

/// The 64-bit value held by 8 bytes, least significant first.
pub open spec fn word64_from_le_bytes(s: Seq<u8>) -> u64
    recommends
        s.len() == 8,
{
    (s[0] as u64) | ((s[1] as u64) << 8) | ((s[2] as u64) << 16) | ((s[3] as u64) << 24) | ((
    s[4] as u64) << 32) | ((s[5] as u64) << 40) | ((s[6] as u64) << 48) | ((s[7] as u64) << 56)
}

/// The 64-bit value held by 8 bytes, most significant first.
pub open spec fn word64_from_be_bytes(s: Seq<u8>) -> u64
    recommends
        s.len() == 8,
{
    ((s[0] as u64) << 56) | ((s[1] as u64) << 48) | ((s[2] as u64) << 40) | ((s[3] as u64) << 32)
        | ((s[4] as u64) << 24) | ((s[5] as u64) << 16) | ((s[6] as u64) << 8) | (s[7] as u64)
}

/// The 64-bit value held by 8 bytes in the chosen order.
pub open spec fn word64_from_bytes(s: Seq<u8>, little: bool) -> u64
    recommends
        s.len() == 8,
{
    if little {
        word64_from_le_bytes(s)
    } else {
        word64_from_be_bytes(s)
    }
}

/// The 4 bytes of a 32-bit value, least significant first.
pub open spec fn word32_le_bytes(x: u32) -> Seq<u8> {
    seq![
        (x & 0xff) as u8,
        ((x >> 8) & 0xff) as u8,
        ((x >> 16) & 0xff) as u8,
        ((x >> 24) & 0xff) as u8,
    ]
}

/// The 4 bytes of a 32-bit value, most significant first.
pub open spec fn word32_be_bytes(x: u32) -> Seq<u8> {
    seq![
        ((x >> 24) & 0xff) as u8,
        ((x >> 16) & 0xff) as u8,
        ((x >> 8) & 0xff) as u8,
        (x & 0xff) as u8,
    ]
}

/// The 4 bytes of a 32-bit value in the chosen order.
pub open spec fn word32_bytes(x: u32, little: bool) -> Seq<u8> {
    if little {
        word32_le_bytes(x)
    } else {
        word32_be_bytes(x)
    }
}

/// The 32-bit value held by 4 bytes, least significant first.
pub open spec fn word32_from_le_bytes(s: Seq<u8>) -> u32
    recommends
        s.len() == 4,
{
    (s[0] as u32) | ((s[1] as u32) << 8) | ((s[2] as u32) << 16) | ((s[3] as u32) << 24)
}

/// The 32-bit value held by 4 bytes, most significant first.
pub open spec fn word32_from_be_bytes(s: Seq<u8>) -> u32
    recommends
        s.len() == 4,
{
    ((s[0] as u32) << 24) | ((s[1] as u32) << 16) | ((s[2] as u32) << 8) | (s[3] as u32)
}

/// The 32-bit value held by 4 bytes in the chosen order.
pub open spec fn word32_from_bytes(s: Seq<u8>, little: bool) -> u32
    recommends
        s.len() == 4,
{
    if little {
        word32_from_le_bytes(s)
    } else {
        word32_from_be_bytes(s)
    }
}

// ------------------------------------------------------------------
// Byte layout of a sequence of values
// ------------------------------------------------------------------

/// The serialization of a sequence of 64-bit values: each value's bytes in
/// the chosen order, concatenated in input order.
pub open spec fn encode_f64(vs: Seq<u64>, little: bool) -> Seq<u8>
    decreases vs.len(),
{
    if vs.len() == 0 {
        Seq::empty()
    } else {
        word64_bytes(vs[0], little) + encode_f64(vs.skip(1), little)
    }
}

/// The values held by a byte buffer read 8 bytes at a time in the chosen
/// order.
pub open spec fn decode_f64(bs: Seq<u8>, little: bool) -> Seq<u64>
    recommends
        bs.len() % 8 == 0,
    decreases bs.len(),
{
    if bs.len() < 8 {
        Seq::empty()
    } else {
        seq![word64_from_bytes(bs.take(8), little)] + decode_f64(bs.skip(8), little)
    }
}

/// The serialization of a sequence of 32-bit values: each value's bytes in
/// the chosen order, concatenated in input order.
pub open spec fn encode_f32(vs: Seq<u32>, little: bool) -> Seq<u8>
    decreases vs.len(),
{
    if vs.len() == 0 {
        Seq::empty()
    } else {
        word32_bytes(vs[0], little) + encode_f32(vs.skip(1), little)
    }
}

/// The values held by a byte buffer read 4 bytes at a time in the chosen
/// order.
pub open spec fn decode_f32(bs: Seq<u8>, little: bool) -> Seq<u32>
    recommends
        bs.len() % 4 == 0,
    decreases bs.len(),
{
    if bs.len() < 4 {
        Seq::empty()
    } else {
        seq![word32_from_bytes(bs.take(4), little)] + decode_f32(bs.skip(4), little)
    }
}

// ------------------------------------------------------------------
// Laws
// ------------------------------------------------------------------

proof fn lemma_word64_round_trip(x: u64, little: bool)
    ensures
        word64_from_bytes(word64_bytes(x, little), little) == x,
{
    let s = word64_bytes(x, little);
    if little {
        let b0: u8 = (x & 0xff) as u8;
        let b1: u8 = ((x >> 8) & 0xff) as u8;
        let b2: u8 = ((x >> 16) & 0xff) as u8;
        let b3: u8 = ((x >> 24) & 0xff) as u8;
        let b4: u8 = ((x >> 32) & 0xff) as u8;
        let b5: u8 = ((x >> 40) & 0xff) as u8;
        let b6: u8 = ((x >> 48) & 0xff) as u8;
        let b7: u8 = ((x >> 56) & 0xff) as u8;
        assert(s[0] == b0 && s[1] == b1 && s[2] == b2 && s[3] == b3 && s[4] == b4 && s[5] == b5
            && s[6] == b6 && s[7] == b7);
        assert((b0 as u64) | ((b1 as u64) << 8) | ((b2 as u64) << 16) | ((b3 as u64) << 24) | ((
        b4 as u64) << 32) | ((b5 as u64) << 40) | ((b6 as u64) << 48) | ((b7 as u64) << 56)
            == x) by (bit_vector)
            requires
                b0 == (x & 0xff) as u8,
                b1 == ((x >> 8) & 0xff) as u8,
                b2 == ((x >> 16) & 0xff) as u8,
                b3 == ((x >> 24) & 0xff) as u8,
                b4 == ((x >> 32) & 0xff) as u8,
                b5 == ((x >> 40) & 0xff) as u8,
                b6 == ((x >> 48) & 0xff) as u8,
                b7 == ((x >> 56) & 0xff) as u8,
        ;
    } else {
        let b0: u8 = ((x >> 56) & 0xff) as u8;
        let b1: u8 = ((x >> 48) & 0xff) as u8;
        let b2: u8 = ((x >> 40) & 0xff) as u8;
        let b3: u8 = ((x >> 32) & 0xff) as u8;
        let b4: u8 = ((x >> 24) & 0xff) as u8;
        let b5: u8 = ((x >> 16) & 0xff) as u8;
        let b6: u8 = ((x >> 8) & 0xff) as u8;
        let b7: u8 = (x & 0xff) as u8;
        assert(s[0] == b0 && s[1] == b1 && s[2] == b2 && s[3] == b3 && s[4] == b4 && s[5] == b5
            && s[6] == b6 && s[7] == b7);
        assert(((b0 as u64) << 56) | ((b1 as u64) << 48) | ((b2 as u64) << 40) | ((b3 as u64)
            << 32) | ((b4 as u64) << 24) | ((b5 as u64) << 16) | ((b6 as u64) << 8) | (b7 as u64)
            == x) by (bit_vector)
            requires
                b0 == ((x >> 56) & 0xff) as u8,
                b1 == ((x >> 48) & 0xff) as u8,
                b2 == ((x >> 40) & 0xff) as u8,
                b3 == ((x >> 32) & 0xff) as u8,
                b4 == ((x >> 24) & 0xff) as u8,
                b5 == ((x >> 16) & 0xff) as u8,
                b6 == ((x >> 8) & 0xff) as u8,
                b7 == (x & 0xff) as u8,
        ;
    }
}

proof fn lemma_word32_round_trip(x: u32, little: bool)
    ensures
        word32_from_bytes(word32_bytes(x, little), little) == x,
{
    let s = word32_bytes(x, little);
    if little {
        let b0: u8 = (x & 0xff) as u8;
        let b1: u8 = ((x >> 8) & 0xff) as u8;
        let b2: u8 = ((x >> 16) & 0xff) as u8;
        let b3: u8 = ((x >> 24) & 0xff) as u8;
        assert(s[0] == b0 && s[1] == b1 && s[2] == b2 && s[3] == b3);
        assert((b0 as u32) | ((b1 as u32) << 8) | ((b2 as u32) << 16) | ((b3 as u32) << 24)
            == x) by (bit_vector)
            requires
                b0 == (x & 0xff) as u8,
                b1 == ((x >> 8) & 0xff) as u8,
                b2 == ((x >> 16) & 0xff) as u8,
                b3 == ((x >> 24) & 0xff) as u8,
        ;
    } else {
        let b0: u8 = ((x >> 24) & 0xff) as u8;
        let b1: u8 = ((x >> 16) & 0xff) as u8;
        let b2: u8 = ((x >> 8) & 0xff) as u8;
        let b3: u8 = (x & 0xff) as u8;
        assert(s[0] == b0 && s[1] == b1 && s[2] == b2 && s[3] == b3);
        assert(((b0 as u32) << 24) | ((b1 as u32) << 16) | ((b2 as u32) << 8) | (b3 as u32)
            == x) by (bit_vector)
            requires
                b0 == ((x >> 24) & 0xff) as u8,
                b1 == ((x >> 16) & 0xff) as u8,
                b2 == ((x >> 8) & 0xff) as u8,
                b3 == (x & 0xff) as u8,
        ;
    }
}

/// The encoding of a sequence of 64-bit values is exactly 8 bytes per value,
/// for either byte order and for every input, the empty sequence included.
pub proof fn lemma_encode_f64_len(vs: Seq<u64>, little: bool)
    ensures
        encode_f64(vs, little).len() == vs.len() * 8,
    decreases vs.len(),
{
    if vs.len() > 0 {
        lemma_encode_f64_len(vs.skip(1), little);
    }
}

/// The encoding of a sequence of 32-bit values is exactly 4 bytes per value,
/// for either byte order and for every input, the empty sequence included.
pub proof fn lemma_encode_f32_len(vs: Seq<u32>, little: bool)
    ensures
        encode_f32(vs, little).len() == vs.len() * 4,
    decreases vs.len(),
{
    if vs.len() > 0 {
        lemma_encode_f32_len(vs.skip(1), little);
    }
}

/// Round trip: decoding the encoding of any sequence of 64-bit values with
/// the same byte order restores the sequence exactly, bit for bit.
pub proof fn lemma_decode_encode_f64(vs: Seq<u64>, little: bool)
    ensures
        decode_f64(encode_f64(vs, little), little) == vs,
    decreases vs.len(),
{
    if vs.len() == 0 {
        assert(decode_f64(encode_f64(vs, little), little) =~= vs);
    } else {
        let w = word64_bytes(vs[0], little);
        let rest = encode_f64(vs.skip(1), little);
        let bs = w + rest;
        lemma_encode_f64_len(vs.skip(1), little);
        assert(bs.take(8) =~= w);
        assert(bs.skip(8) =~= rest);
        lemma_word64_round_trip(vs[0], little);
        lemma_decode_encode_f64(vs.skip(1), little);
        assert(decode_f64(bs, little) =~= vs);
    }
}

/// Round trip: decoding the encoding of any sequence of 32-bit values with
/// the same byte order restores the sequence exactly, bit for bit.
pub proof fn lemma_decode_encode_f32(vs: Seq<u32>, little: bool)
    ensures
        decode_f32(encode_f32(vs, little), little) == vs,
    decreases vs.len(),
{
    if vs.len() == 0 {
        assert(decode_f32(encode_f32(vs, little), little) =~= vs);
    } else {
        let w = word32_bytes(vs[0], little);
        let rest = encode_f32(vs.skip(1), little);
        let bs = w + rest;
        lemma_encode_f32_len(vs.skip(1), little);
        assert(bs.take(4) =~= w);
        assert(bs.skip(4) =~= rest);
        lemma_word32_round_trip(vs[0], little);
        lemma_decode_encode_f32(vs.skip(1), little);
        assert(decode_f32(bs, little) =~= vs);
    }
}

// ------------------------------------------------------------------
// Resolving the platform's byte order
// ------------------------------------------------------------------

/// Relies on `u32::to_ne_bytes`: the native representation of a 32-bit
/// integer is its little-endian bytes on a little-endian platform and its
/// big-endian bytes on a big-endian platform, so the result is one of the
/// two fixed-order encodings of the argument.
#[verifier::external_body]
fn u32_ne_bytes(v: u32) -> (r: Vec<u8>)
    ensures
        r@ == word32_le_bytes(v) || r@ == word32_be_bytes(v),
{
    v.to_ne_bytes().to_vec()
}

/// Probes the executing platform's byte order: true on a little-endian
/// platform, false on a big-endian one.
fn native_is_little() -> bool {
    let probe = u32_ne_bytes(0x0102_0304);
    assert(probe@.len() == 4);
    probe[0] == 4
}

/// Resolves a byte-order selection to a concrete order: `Native` becomes the
/// executing platform's own order, the two fixed orders stay what they are.
fn is_little(endianess: Endianess) -> (r: bool)
    ensures
        endianess == Endianess::Big ==> r == false,
        endianess == Endianess::Little ==> r == true,
{
    match endianess {
        Endianess::Big => false,
        Endianess::Little => true,
        Endianess::Native => native_is_little(),
    }
}

// ------------------------------------------------------------------
// Executable encoding
// ------------------------------------------------------------------

/// Appends the bytes of one 64-bit value in the chosen order.
fn push_word64(out: &mut Vec<u8>, x: u64, little: bool)
    ensures
        final(out)@ == old(out)@ + word64_bytes(x, little),
{
    proof {
        assert((x & 0xff) < 256 && ((x >> 8) & 0xff) < 256 && ((x >> 16) & 0xff) < 256 && ((x
            >> 24) & 0xff) < 256 && ((x >> 32) & 0xff) < 256 && ((x >> 40) & 0xff) < 256 && ((x
            >> 48) & 0xff) < 256 && ((x >> 56) & 0xff) < 256) by (bit_vector);
    }
    if little {
        out.push((x & 0xff) as u8);
        out.push(((x >> 8) & 0xff) as u8);
        out.push(((x >> 16) & 0xff) as u8);
        out.push(((x >> 24) & 0xff) as u8);
        out.push(((x >> 32) & 0xff) as u8);
        out.push(((x >> 40) & 0xff) as u8);
        out.push(((x >> 48) & 0xff) as u8);
        out.push(((x >> 56) & 0xff) as u8);
    } else {
        out.push(((x >> 56) & 0xff) as u8);
        out.push(((x >> 48) & 0xff) as u8);
        out.push(((x >> 40) & 0xff) as u8);
        out.push(((x >> 32) & 0xff) as u8);
        out.push(((x >> 24) & 0xff) as u8);
        out.push(((x >> 16) & 0xff) as u8);
        out.push(((x >> 8) & 0xff) as u8);
        out.push((x & 0xff) as u8);
    }
    proof {
        assert(out@ =~= old(out)@ + word64_bytes(x, little));
    }
}

/// Appends the bytes of one 32-bit value in the chosen order.
fn push_word32(out: &mut Vec<u8>, x: u32, little: bool)
    ensures
        final(out)@ == old(out)@ + word32_bytes(x, little),
{
    proof {
        assert((x & 0xff) < 256 && ((x >> 8) & 0xff) < 256 && ((x >> 16) & 0xff) < 256 && ((x
            >> 24) & 0xff) < 256) by (bit_vector);
    }
    if little {
        out.push((x & 0xff) as u8);
        out.push(((x >> 8) & 0xff) as u8);
        out.push(((x >> 16) & 0xff) as u8);
        out.push(((x >> 24) & 0xff) as u8);
    } else {
        out.push(((x >> 24) & 0xff) as u8);
        out.push(((x >> 16) & 0xff) as u8);
        out.push(((x >> 8) & 0xff) as u8);
        out.push((x & 0xff) as u8);
    }
    proof {
        assert(out@ =~= old(out)@ + word32_bytes(x, little));
    }
}

#[verifier::loop_isolation(false)]
fn encode_words_f64(data: &[u64], little: bool) -> (r: Vec<u8>)
    ensures
        r@ == encode_f64(data@, little),
{
    let mut out: Vec<u8> = Vec::new();
    let mut i: usize = 0;
    proof {
        assert(data@.skip(0) =~= data@);
        assert(out@ + encode_f64(data@, little) =~= encode_f64(data@, little));
    }
    while i < data.len()
        invariant
            i <= data@.len(),
            encode_f64(data@, little) == out@ + encode_f64(data@.skip(i as int), little),
        decreases data@.len() - i,
    {
        proof {
            let tail = data@.skip(i as int);
            assert(tail[0] == data@[i as int]);
            assert(tail.skip(1) =~= data@.skip(i as int + 1));
        }
        push_word64(&mut out, data[i], little);
        i = i + 1;
        proof {
            assert(encode_f64(data@, little) =~= out@ + encode_f64(data@.skip(i as int), little));
        }
    }
    proof {
        assert(data@.skip(i as int) =~= Seq::<u64>::empty());
        assert(out@ + encode_f64(data@.skip(i as int), little) =~= out@);
    }
    out
}

#[verifier::loop_isolation(false)]
fn encode_words_f32(data: &[u32], little: bool) -> (r: Vec<u8>)
    ensures
        r@ == encode_f32(data@, little),
{
    let mut out: Vec<u8> = Vec::new();
    let mut i: usize = 0;
    proof {
        assert(data@.skip(0) =~= data@);
        assert(out@ + encode_f32(data@, little) =~= encode_f32(data@, little));
    }
    while i < data.len()
        invariant
            i <= data@.len(),
            encode_f32(data@, little) == out@ + encode_f32(data@.skip(i as int), little),
        decreases data@.len() - i,
    {
        proof {
            let tail = data@.skip(i as int);
            assert(tail[0] == data@[i as int]);
            assert(tail.skip(1) =~= data@.skip(i as int + 1));
        }
        push_word32(&mut out, data[i], little);
        i = i + 1;
        proof {
            assert(encode_f32(data@, little) =~= out@ + encode_f32(data@.skip(i as int), little));
        }
    }
    proof {
        assert(data@.skip(i as int) =~= Seq::<u32>::empty());
        assert(out@ + encode_f32(data@.skip(i as int), little) =~= out@);
    }
    out
}

/// Serializes 64-bit values (the bit patterns of doubles) to a byte buffer:
/// 8 bytes per value in the chosen order, concatenated in input order.  With
/// `Endianess::Native` the platform's own order is used, so the buffer is
/// one of the two fixed-order encodings.
pub fn to_u8_f64(data: &[u64], endianess: Endianess) -> (r: Vec<u8>)
    ensures
        r@.len() == data@.len() * 8,
        endianess == Endianess::Big ==> r@ == encode_f64(data@, false),
        endianess == Endianess::Little ==> r@ == encode_f64(data@, true),
        exists|little: bool| r@ == encode_f64(data@, little),
{
    let little = is_little(endianess);
    let r = encode_words_f64(data, little);
    proof {
        lemma_encode_f64_len(data@, little);
        assert(r@ == encode_f64(data@, little));
    }
    r
}

/// Serializes 32-bit values (the bit patterns of singles) to a byte buffer:
/// 4 bytes per value in the chosen order, concatenated in input order.  With
/// `Endianess::Native` the platform's own order is used, so the buffer is
/// one of the two fixed-order encodings.
pub fn to_u8_f32(data: &[u32], endianess: Endianess) -> (r: Vec<u8>)
    ensures
        r@.len() == data@.len() * 4,
        endianess == Endianess::Big ==> r@ == encode_f32(data@, false),
        endianess == Endianess::Little ==> r@ == encode_f32(data@, true),
        exists|little: bool| r@ == encode_f32(data@, little),
{
    let little = is_little(endianess);
    let r = encode_words_f32(data, little);
    proof {
        lemma_encode_f32_len(data@, little);
        assert(r@ == encode_f32(data@, little));
    }
    r
}

// ------------------------------------------------------------------
// Executable decoding
// ------------------------------------------------------------------

/// Reads one 64-bit value from 8 bytes at offset `i` in the chosen order.
fn read_word64(data: &[u8], i: usize, little: bool) -> (x: u64)
    requires
        i + 8 <= data@.len(),
    ensures
        x == word64_from_bytes(data@.subrange(i as int, i as int + 8), little),
{
    let b0: u8 = data[i];
    let b1: u8 = data[i + 1];
    let b2: u8 = data[i + 2];
    let b3: u8 = data[i + 3];
    let b4: u8 = data[i + 4];
    let b5: u8 = data[i + 5];
    let b6: u8 = data[i + 6];
    let b7: u8 = data[i + 7];
    proof {
        let s = data@.subrange(i as int, i as int + 8);
        assert(s[0] == b0 && s[1] == b1 && s[2] == b2 && s[3] == b3 && s[4] == b4 && s[5] == b5
            && s[6] == b6 && s[7] == b7);
    }
    if little {
        (b0 as u64) | ((b1 as u64) << 8) | ((b2 as u64) << 16) | ((b3 as u64) << 24) | ((
        b4 as u64) << 32) | ((b5 as u64) << 40) | ((b6 as u64) << 48) | ((b7 as u64) << 56)
    } else {
        ((b0 as u64) << 56) | ((b1 as u64) << 48) | ((b2 as u64) << 40) | ((b3 as u64) << 32) | ((
        b4 as u64) << 24) | ((b5 as u64) << 16) | ((b6 as u64) << 8) | (b7 as u64)
    }
}

/// Reads one 32-bit value from 4 bytes at offset `i` in the chosen order.
fn read_word32(data: &[u8], i: usize, little: bool) -> (x: u32)
    requires
        i + 4 <= data@.len(),
    ensures
        x == word32_from_bytes(data@.subrange(i as int, i as int + 4), little),
{
    let b0: u8 = data[i];
    let b1: u8 = data[i + 1];
    let b2: u8 = data[i + 2];
    let b3: u8 = data[i + 3];
    proof {
        let s = data@.subrange(i as int, i as int + 4);
        assert(s[0] == b0 && s[1] == b1 && s[2] == b2 && s[3] == b3);
    }
    if little {
        (b0 as u32) | ((b1 as u32) << 8) | ((b2 as u32) << 16) | ((b3 as u32) << 24)
    } else {
        ((b0 as u32) << 24) | ((b1 as u32) << 16) | ((b2 as u32) << 8) | (b3 as u32)
    }
}

/// The inverse of `to_u8_f64`: reads a byte buffer back as 64-bit values in
/// the chosen order.  Succeeds exactly when the buffer's length is a
/// multiple of 8.
#[verifier::loop_isolation(false)]
pub fn from_u8_f64(data: &[u8], endianess: Endianess) -> (r: Option<Vec<u64>>)
    ensures
        r is Some <==> data@.len() % 8 == 0,
        r matches Some(v) ==> {
            &&& endianess == Endianess::Big ==> v@ == decode_f64(data@, false)
            &&& endianess == Endianess::Little ==> v@ == decode_f64(data@, true)
            &&& exists|little: bool| v@ == decode_f64(data@, little)
            &&& v@.len() * 8 == data@.len()
        },
{
    if data.len() % 8 != 0 {
        return None;
    }
    let little = is_little(endianess);
    let mut out: Vec<u64> = Vec::new();
    let mut i: usize = 0;
    proof {
        assert(data@.skip(0) =~= data@);
        assert(out@ + decode_f64(data@, little) =~= decode_f64(data@, little));
    }
    while i < data.len()
        invariant
            i <= data@.len(),
            i % 8 == 0,
            out@.len() * 8 == i,
            decode_f64(data@, little) == out@ + decode_f64(data@.skip(i as int), little),
        decreases data@.len() - i,
    {
        proof {
            assert(data@.len() - i >= 8) by {
                assert((data@.len() - i) % 8 == 0);
            }
            let tail = data@.skip(i as int);
            assert(tail.take(8) =~= data@.subrange(i as int, i as int + 8));
            assert(tail.skip(8) =~= data@.skip(i as int + 8));
        }
        let x = read_word64(data, i, little);
        out.push(x);
        i = i + 8;
        proof {
            assert(decode_f64(data@, little) =~= out@ + decode_f64(data@.skip(i as int), little));
        }
    }
    proof {
        assert(data@.skip(i as int) =~= Seq::<u8>::empty());
        assert(out@ + decode_f64(data@.skip(i as int), little) =~= out@);
    }
    Some(out)
}

/// The inverse of `to_u8_f32`: reads a byte buffer back as 32-bit values in
/// the chosen order.  Succeeds exactly when the buffer's length is a
/// multiple of 4.
#[verifier::loop_isolation(false)]
pub fn from_u8_f32(data: &[u8], endianess: Endianess) -> (r: Option<Vec<u32>>)
    ensures
        r is Some <==> data@.len() % 4 == 0,
        r matches Some(v) ==> {
            &&& endianess == Endianess::Big ==> v@ == decode_f32(data@, false)
            &&& endianess == Endianess::Little ==> v@ == decode_f32(data@, true)
            &&& exists|little: bool| v@ == decode_f32(data@, little)
            &&& v@.len() * 4 == data@.len()
        },
{
    if data.len() % 4 != 0 {
        return None;
    }
    let little = is_little(endianess);
    let mut out: Vec<u32> = Vec::new();
    let mut i: usize = 0;
    proof {
        assert(data@.skip(0) =~= data@);
        assert(out@ + decode_f32(data@, little) =~= decode_f32(data@, little));
    }
    while i < data.len()
        invariant
            i <= data@.len(),
            i % 4 == 0,
            out@.len() * 4 == i,
            decode_f32(data@, little) == out@ + decode_f32(data@.skip(i as int), little),
        decreases data@.len() - i,
    {
        proof {
            assert(data@.len() - i >= 4) by {
                assert((data@.len() - i) % 4 == 0);
            }
            let tail = data@.skip(i as int);
            assert(tail.take(4) =~= data@.subrange(i as int, i as int + 4));
            assert(tail.skip(4) =~= data@.skip(i as int + 4));
        }
        let x = read_word32(data, i, little);
        out.push(x);
        i = i + 4;
        proof {
            assert(decode_f32(data@, little) =~= out@ + decode_f32(data@.skip(i as int), little));
        }
    }
    proof {
        assert(data@.skip(i as int) =~= Seq::<u8>::empty());
        assert(out@ + decode_f32(data@.skip(i as int), little) =~= out@);
    }
    Some(out)
}

} // verus!
