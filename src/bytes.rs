//! Little-endian integers and NUL-terminated text inside byte buffers.

use byteorder::{ByteOrder, LittleEndian};
use vstd::prelude::*;
use vstd::utf8::{decode_utf8, valid_utf8};

verus! {

/// The unsigned 16-bit value stored little-endian at `off`.
pub open spec fn le_u16_at(b: Seq<u8>, off: int) -> u16 {
    (b[off] as int + 256 * (b[off + 1] as int)) as u16
}

/// The unsigned 32-bit value stored little-endian at `off`.
pub open spec fn le_u32_at(b: Seq<u8>, off: int) -> u32 {
    (b[off] as int + 256 * (b[off + 1] as int) + 65536 * (b[off + 2] as int) + 16777216 * (
    b[off + 3] as int)) as u32
}

/// Relies on byteorder's `LittleEndian::read_u16`: the first two bytes,
/// least significant first (it panics on a shorter buffer).
#[verifier::external_body]
fn read_u16_le(b: &[u8]) -> (r: u16)
    requires
        b@.len() >= 2,
    ensures
        r == le_u16_at(b@, 0),
{
    LittleEndian::read_u16(b)
}

/// Relies on byteorder's `LittleEndian::read_u32`: the first four bytes,
/// least significant first (it panics on a shorter buffer).
#[verifier::external_body]
fn read_u32_le(b: &[u8]) -> (r: u32)
    requires
        b@.len() >= 4,
    ensures
        r == le_u32_at(b@, 0),
{
    LittleEndian::read_u32(b)
}

/// The 16-bit value at byte offset `off` of `b`.
pub fn le_u16(b: &[u8], off: usize) -> (r: u16)
    requires
        off + 2 <= b@.len(),
    ensures
        r == le_u16_at(b@, off as int),
{
    let n = b.len();
    assert(off + 2 <= n);
    let w = &b[off..off + 2];
    read_u16_le(w)
}

/// The 32-bit value at byte offset `off` of `b`.
pub fn le_u32(b: &[u8], off: usize) -> (r: u32)
    requires
        off + 4 <= b@.len(),
    ensures
        r == le_u32_at(b@, off as int),
{
    let n = b.len();
    assert(off + 4 <= n);
    let w = &b[off..off + 4];
    read_u32_le(w)
}

/// The bytes of `b` before its first NUL (all of `b` if it has none).
pub open spec fn until_nul(b: Seq<u8>) -> Seq<u8>
    decreases b.len(),
{
    if b.len() == 0 {
        b
    } else if b[0] == 0 {
        Seq::empty()
    } else {
        seq![b[0]] + until_nul(b.drop_first())
    }
}

/// The text held in a NUL-terminated field: `None` where its bytes are not UTF-8.
pub open spec fn nul_terminated_text(b: Seq<u8>) -> Option<Seq<char>> {
    if valid_utf8(until_nul(b)) {
        Some(decode_utf8(until_nul(b)))
    } else {
        None
    }
}

/// Relies on `String::from_utf8`: it accepts exactly the well-formed UTF-8
/// sequences and then holds the characters they encode.
#[verifier::external_body]
fn string_from_utf8(b: Vec<u8>) -> (r: Option<String>)
    ensures
        r is Some <==> valid_utf8(b@),
        r matches Some(s) ==> s@ == decode_utf8(b@),
{
    String::from_utf8(b).ok()
}

/// Decodes the text before the first NUL byte of `bytes`.
pub fn bytes_to_string(bytes: &[u8]) -> (r: Option<String>)
    ensures
        r matches Some(s) ==> nul_terminated_text(bytes@) == Some(s@),
        r is None <==> nul_terminated_text(bytes@) is None,
{
    let mut v: Vec<u8> = Vec::new();
    let mut i: usize = 0;
    while i < bytes.len() && bytes[i] != 0
        invariant
            i <= bytes@.len(),
            forall|j: int| 0 <= j < i ==> bytes@[j] != 0,
            v@ == bytes@.subrange(0, i as int),
        decreases bytes@.len() - i,
    {
        v.push(bytes[i]);
        i = i + 1;
    }
    proof {
        lemma_until_nul(bytes@, i as int);
    }
    string_from_utf8(v)
}

/// `until_nul` stops at the first NUL, or at the end.
proof fn lemma_until_nul(b: Seq<u8>, i: int)
    requires
        0 <= i <= b.len(),
        forall|j: int| 0 <= j < i ==> b[j] != 0,
        i == b.len() || b[i] == 0,
    ensures
        until_nul(b) == b.subrange(0, i),
    decreases i,
{
    if i == 0 {
        if b.len() == 0 {
            assert(b.subrange(0, 0) =~= b);
        } else {
            assert(b.subrange(0, 0) =~= Seq::<u8>::empty());
        }
    } else {
        let t = b.drop_first();
        lemma_until_nul(t, i - 1);
        assert(b.subrange(0, i) =~= seq![b[0]] + t.subrange(0, i - 1));
    }
}

} // verus!
