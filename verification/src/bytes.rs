//! Big-endian integer packing and the additive checksums used on the wire.

use vstd::prelude::*;

verus! {

/// The value of four bytes read as a big-endian 32-bit number.
pub open spec fn be_u32(b0: u8, b1: u8, b2: u8, b3: u8) -> int {
    b0 as int * 0x100_0000 + b1 as int * 0x1_0000 + b2 as int * 0x100 + b3 as int
}

/// The value of two bytes read as a big-endian 16-bit number.
pub open spec fn be_u16(b0: u8, b1: u8) -> int {
    b0 as int * 0x100 + b1 as int
}

/// Big-endian value of the four bytes of `s` starting at `at`.
pub open spec fn be_u32_at(s: Seq<u8>, at: int) -> int {
    be_u32(s[at], s[at + 1], s[at + 2], s[at + 3])
}

/// Big-endian value of the two bytes of `s` starting at `at`.
pub open spec fn be_u16_at(s: Seq<u8>, at: int) -> int {
    be_u16(s[at], s[at + 1])
}

/// The four big-endian bytes of a 32-bit number.
pub open spec fn be_u32_bytes(v: u32) -> Seq<u8> {
    seq![
        (v as int / 0x100_0000) as u8,
        (v as int / 0x1_0000 % 0x100) as u8,
        (v as int / 0x100 % 0x100) as u8,
        (v as int % 0x100) as u8,
    ]
}

/// The two big-endian bytes of a 16-bit number.
pub open spec fn be_u16_bytes(v: u16) -> Seq<u8> {
    seq![(v as int / 0x100) as u8, (v as int % 0x100) as u8]
}

/// Sum of all bytes, as a mathematical integer.
pub open spec fn byte_sum(s: Seq<u8>) -> int
    decreases s.len(),
{
    if s.len() == 0 {
        0
    } else {
        byte_sum(s.drop_last()) + s.last() as int
    }
}

/// The 8-bit additive checksum of a byte sequence.
pub open spec fn sum8(s: Seq<u8>) -> u8 {
    (byte_sum(s) % 0x100) as u8
}

/// The 16-bit additive checksum of a byte sequence.
pub open spec fn sum16(s: Seq<u8>) -> u16 {
    (byte_sum(s) % 0x1_0000) as u16
}

pub proof fn lemma_be_u32_bytes_roundtrip(v: u32)
    ensures
        be_u32(be_u32_bytes(v)[0], be_u32_bytes(v)[1], be_u32_bytes(v)[2], be_u32_bytes(v)[3])
            == v as int,
{
}

pub proof fn lemma_be_u16_bytes_roundtrip(v: u16)
    ensures
        be_u16(be_u16_bytes(v)[0], be_u16_bytes(v)[1]) == v as int,
{
}

/// Reads a big-endian 32-bit number from four bytes.
pub fn read_be_u32(b0: u8, b1: u8, b2: u8, b3: u8) -> (r: u32)
    ensures
        r as int == be_u32(b0, b1, b2, b3),
{
    (b0 as u32) * 0x100_0000 + (b1 as u32) * 0x1_0000 + (b2 as u32) * 0x100 + (b3 as u32)
}

/// Reads a big-endian 16-bit number from two bytes.
pub fn read_be_u16(b0: u8, b1: u8) -> (r: u16)
    ensures
        r as int == be_u16(b0, b1),
{
    (b0 as u16) * 0x100 + (b1 as u16)
}

/// Splits a 32-bit number into its four big-endian bytes.
pub fn u32_to_be(v: u32) -> (r: [u8; 4])
    ensures
        r@ == be_u32_bytes(v),
{
    let r = [(v / 0x100_0000) as u8, (v / 0x1_0000 % 0x100) as u8, (v / 0x100 % 0x100) as u8, (v % 0x100) as u8];
    assert(r@ =~= be_u32_bytes(v));
    r
}

/// Splits a 16-bit number into its two big-endian bytes.
pub fn u16_to_be(v: u16) -> (r: [u8; 2])
    ensures
        r@ == be_u16_bytes(v),
{
    let r = [(v / 0x100) as u8, (v % 0x100) as u8];
    assert(r@ =~= be_u16_bytes(v));
    r
}

pub proof fn lemma_byte_sum_push(s: Seq<u8>, b: u8)
    ensures
        byte_sum(s.push(b)) == byte_sum(s) + b as int,
{
    assert(s.push(b).drop_last() =~= s);
}

pub proof fn lemma_byte_sum_nonneg(s: Seq<u8>)
    ensures
        0 <= byte_sum(s) <= 255 * s.len(),
    decreases s.len(),
{
    if s.len() > 0 {
        lemma_byte_sum_nonneg(s.drop_last());
    }
}

/// The 16-bit additive checksum of a payload.
pub fn checksum16(payload: &[u8]) -> (r: u16)
    ensures
        r == sum16(payload@),
{
    let mut acc: u16 = 0;
    let mut i: usize = 0;
    while i < payload.len()
        invariant
            i <= payload@.len(),
            acc == sum16(payload@.subrange(0, i as int)),
        decreases payload@.len() - i,
    {
        proof {
            let pre = payload@.subrange(0, i as int);
            assert(payload@.subrange(0, i + 1) =~= pre.push(payload@[i as int]));
            lemma_byte_sum_push(pre, payload@[i as int]);
            lemma_byte_sum_nonneg(pre);
        }
        acc = ((acc as u32 + payload[i] as u32) % 0x1_0000) as u16;
        i = i + 1;
    }
    assert(payload@.subrange(0, payload@.len() as int) =~= payload@);
    acc
}

/// The 8-bit additive checksum of a byte slice.
pub fn checksum8(bytes: &[u8]) -> (r: u8)
    ensures
        r == sum8(bytes@),
{
    let mut acc: u8 = 0;
    let mut i: usize = 0;
    while i < bytes.len()
        invariant
            i <= bytes@.len(),
            acc == sum8(bytes@.subrange(0, i as int)),
        decreases bytes@.len() - i,
    {
        proof {
            let pre = bytes@.subrange(0, i as int);
            assert(bytes@.subrange(0, i + 1) =~= pre.push(bytes@[i as int]));
            lemma_byte_sum_push(pre, bytes@[i as int]);
            lemma_byte_sum_nonneg(pre);
        }
        acc = ((acc as u32 + bytes[i] as u32) % 0x100) as u8;
        i = i + 1;
    }
    assert(bytes@.subrange(0, bytes@.len() as int) =~= bytes@);
    acc
}

} // verus!
