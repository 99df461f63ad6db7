//! Primitive encodings of the wire format: big-endian integers and
//! length-prefixed byte strings.

use vstd::prelude::*;
use vstd::utf8::encode_utf8;

verus! {

/// The byte of `x` that is `i` places behind its most significant byte.
#[verifier::opaque]
pub open spec fn digit(x: u32, i: int) -> u8 {
    if i == 0 {
        (x / 0x100_0000) as u8
    } else if i == 1 {
        ((x / 0x1_0000) % 0x100) as u8
    } else if i == 2 {
        ((x / 0x100) % 0x100) as u8
    } else {
        (x % 0x100) as u8
    }
}

/// The number that four bytes spell, most significant first.
#[verifier::opaque]
pub open spec fn word(b0: u8, b1: u8, b2: u8, b3: u8) -> u32 {
    (b0 as int * 0x100_0000 + b1 as int * 0x1_0000 + b2 as int * 0x100 + b3 as int) as u32
}

/// The upper half of `x`.
#[verifier::opaque]
pub open spec fn high_word(x: u64) -> u32 {
    (x / 0x1_0000_0000) as u32
}

/// The lower half of `x`.
#[verifier::opaque]
pub open spec fn low_word(x: u64) -> u32 {
    (x % 0x1_0000_0000) as u32
}

/// The number whose upper half is `high` and whose lower half is `low`.
#[verifier::opaque]
pub open spec fn long_word(high: u32, low: u32) -> u64 {
    (high as int * 0x1_0000_0000 + low as int) as u64
}

/// The four bytes of `x`, most significant first.
pub open spec fn be_u32(x: u32) -> Seq<u8> {
    seq![digit(x, 0), digit(x, 1), digit(x, 2), digit(x, 3)]
}

/// The eight bytes of `x`, most significant first.
pub open spec fn be_u64(x: u64) -> Seq<u8> {
    be_u32(high_word(x)) + be_u32(low_word(x))
}

/// The number that the first four bytes of `s` spell, most significant first.
pub open spec fn u32_from_be(s: Seq<u8>) -> u32
    recommends
        s.len() >= 4,
{
    word(s[0], s[1], s[2], s[3])
}

/// The number that the first eight bytes of `s` spell, most significant first.
pub open spec fn u64_from_be(s: Seq<u8>) -> u64
    recommends
        s.len() >= 8,
{
    long_word(u32_from_be(s), u32_from_be(s.skip(4)))
}

/// The signed number that the first eight bytes of `s` spell in two's complement.
pub open spec fn i64_from_be(s: Seq<u8>) -> i64
    recommends
        s.len() >= 8,
{
    let u = u64_from_be(s);
    if u < 0x8000_0000_0000_0000 {
        u as i64
    } else {
        (u - 0x1_0000_0000_0000_0000) as i64
    }
}

/// What a length field holds for a payload of `n` bytes: the low 32 bits of `n`.
pub open spec fn wire_len(n: nat) -> u32 {
    (n % 0x1_0000_0000) as u32
}

/// A string field: the length of `bytes` in four bytes, then `bytes`.
pub open spec fn string_field(bytes: Seq<u8>) -> Seq<u8> {
    be_u32(wire_len(bytes.len())) + bytes
}

/// A frame: the length of `payload` in four bytes, then `payload`.
pub open spec fn framed(payload: Seq<u8>) -> Seq<u8> {
    be_u32(wire_len(payload.len())) + payload
}

/// Reading back the four bytes written for `x` gives `x`, whatever follows them.
pub proof fn lemma_u32_round_trip(x: u32, rest: Seq<u8>)
    ensures
        u32_from_be(be_u32(x) + rest) == x,
        (be_u32(x) + rest).skip(4) == rest,
        be_u32(x).len() == 4,
{
    reveal(digit);
    reveal(word);
    let s = be_u32(x) + rest;
    assert(s[0] == be_u32(x)[0]);
    assert(s[1] == be_u32(x)[1]);
    assert(s[2] == be_u32(x)[2]);
    assert(s[3] == be_u32(x)[3]);
    assert(s.skip(4) =~= rest);
}

/// Reading back the eight bytes written for `x` gives `x`, whatever follows them.
pub proof fn lemma_u64_round_trip(x: u64, rest: Seq<u8>)
    ensures
        u64_from_be(be_u64(x) + rest) == x,
        (be_u64(x) + rest).skip(8) == rest,
        be_u64(x).len() == 8,
{
    let hi = high_word(x);
    let lo = low_word(x);
    let s = be_u64(x) + rest;
    assert(s =~= be_u32(hi) + (be_u32(lo) + rest));
    lemma_u32_round_trip(hi, be_u32(lo) + rest);
    lemma_u32_round_trip(lo, rest);
    assert(s.skip(8) =~= rest);
    assert(long_word(hi, lo) == x) by {
        reveal(high_word);
        reveal(low_word);
        reveal(long_word);
    }
}

/// Dropping `a` items and then `b` more drops `a + b` items.
pub proof fn lemma_skip_skip(s: Seq<u8>, a: int, b: int)
    requires
        0 <= a,
        0 <= b,
        a + b <= s.len(),
    ensures
        s.skip(a).skip(b) == s.skip(a + b),
        s.skip(a).len() == s.len() - a,
{
    assert(s.skip(a).skip(b) =~= s.skip(a + b));
}

/// Appends the four bytes of `num`, most significant first.
pub fn add_u32(payload: &mut Vec<u8>, num: u32)
    ensures
        final(payload)@ == old(payload)@ + be_u32(num),
{
    payload.push((num / 0x100_0000) as u8);
    payload.push(((num / 0x1_0000) % 0x100) as u8);
    payload.push(((num / 0x100) % 0x100) as u8);
    payload.push((num % 0x100) as u8);
    proof {
        reveal(digit);
    }
    assert(payload@ =~= old(payload)@ + be_u32(num));
}

/// Appends the eight bytes of `num`, most significant first.
pub fn add_u64(payload: &mut Vec<u8>, num: u64)
    ensures
        final(payload)@ == old(payload)@ + be_u64(num),
{
    proof {
        reveal(high_word);
        reveal(low_word);
    }
    add_u32(payload, (num / 0x1_0000_0000) as u32);
    add_u32(payload, (num % 0x1_0000_0000) as u32);
    assert(payload@ =~= old(payload)@ + be_u64(num));
}

/// The length that a length field declares: the number that the first four
/// bytes of `header` spell, where `header` has four.
pub fn declared_length(header: &[u8]) -> (r: Option<u32>)
    ensures
        r == if header@.len() >= 4 {
            Some(u32_from_be(header@))
        } else {
            None
        },
{
    if header.len() < 4 {
        return None;
    }
    proof {
        reveal(word);
    }
    Some(
        (header[0] as u32) * 0x100_0000 + (header[1] as u32) * 0x1_0000 + (header[2] as u32)
            * 0x100 + (header[3] as u32),
    )
}

/// The low 32 bits of a length, as a length field holds it.
pub fn length_field(n: usize) -> (r: u32)
    ensures
        r == wire_len(n as nat),
{
    let wide: u64 = n as u64;
    (wide % 0x1_0000_0000) as u32
}

/// Appends every byte of `bytes`.
pub fn add_raw(payload: &mut Vec<u8>, bytes: &[u8])
    ensures
        final(payload)@ == old(payload)@ + bytes@,
{
    let mut i: usize = 0;
    while i < bytes.len()
        invariant
            i <= bytes.len(),
            payload@ == old(payload)@ + bytes@.subrange(0, i as int),
        decreases bytes.len() - i,
    {
        payload.push(bytes[i]);
        i += 1;
        assert(payload@ =~= old(payload)@ + bytes@.subrange(0, i as int));
    }
    assert(bytes@.subrange(0, i as int) =~= bytes@);
}

/// Appends `bytes` as a string field: its length, then its content.
pub fn add_bytes(payload: &mut Vec<u8>, bytes: &[u8])
    ensures
        final(payload)@ == old(payload)@ + string_field(bytes@),
{
    add_u32(payload, length_field(bytes.len()));
    add_raw(payload, bytes);
    assert(payload@ =~= old(payload)@ + string_field(bytes@));
}

/// Appends the UTF-8 encoding of `string` as a string field.
pub fn add_string(payload: &mut Vec<u8>, string: &str)
    ensures
        final(payload)@ == old(payload)@ + string_field(encode_utf8(string@)),
{
    add_bytes(payload, string.as_bytes());
}

/// Puts the length of `payload` in front of it.
pub fn add_header(payload: Vec<u8>) -> (packet: Vec<u8>)
    ensures
        packet@ == framed(payload@),
{
    let mut packet: Vec<u8> = Vec::new();
    add_u32(&mut packet, length_field(payload.len()));
    add_raw(&mut packet, payload.as_slice());
    assert(packet@ =~= framed(payload@));
    packet
}

} // verus!
