//! Little-endian integer fields inside byte buffers.

use vstd::prelude::*;
use vstd::bytes::*;

verus! {

/// The `i32` stored little-endian in the four bytes `s[0..4]`.
pub open spec fn le_i32(s: Seq<u8>) -> i32 {
    spec_u32_from_le_bytes(s.subrange(0, 4)) as i32
}

/// The four little-endian bytes of `x`.
pub open spec fn i32_le(x: i32) -> Seq<u8> {
    spec_u32_to_le_bytes(x as u32)
}

/// The `i32` stored little-endian at byte offset `p` of `b`.
pub open spec fn i32_at(b: Seq<u8>, p: int) -> i32 {
    le_i32(b.subrange(p, p + 4))
}

/// The `i64` stored little-endian in the eight bytes `s[0..8]`.
pub open spec fn le_i64(s: Seq<u8>) -> i64 {
    spec_u64_from_le_bytes(s.subrange(0, 8)) as i64
}

/// The eight little-endian bytes of `x`.
pub open spec fn i64_le(x: i64) -> Seq<u8> {
    spec_u64_to_le_bytes(x as u64)
}

pub proof fn lemma_i32_le(x: i32)
    ensures
        i32_le(x).len() == 4,
        le_i32(i32_le(x)) == x,
        forall|t: Seq<u8>| #[trigger] le_i32(i32_le(x) + t) == x,
{
    lemma_auto_spec_u32_to_from_le_bytes();
    let u = x as u32;
    assert(u as i32 == x) by (bit_vector)
        requires u == x as u32;
    assert forall|t: Seq<u8>| #[trigger] le_i32(i32_le(x) + t) == x by {
        assert((i32_le(x) + t).subrange(0, 4) =~= i32_le(x));
    }
    assert(i32_le(x).subrange(0, 4) =~= i32_le(x));
}

pub proof fn lemma_i64_le(x: i64)
    ensures
        i64_le(x).len() == 8,
        le_i64(i64_le(x)) == x,
        forall|t: Seq<u8>| #[trigger] le_i64(i64_le(x) + t) == x,
{
    lemma_auto_spec_u64_to_from_le_bytes();
    let u = x as u64;
    assert(u as i64 == x) by (bit_vector)
        requires u == x as u64;
    assert forall|t: Seq<u8>| #[trigger] le_i64(i64_le(x) + t) == x by {
        assert((i64_le(x) + t).subrange(0, 8) =~= i64_le(x));
    }
    assert(i64_le(x).subrange(0, 8) =~= i64_le(x));
}

/// Reads the little-endian `i32` at byte offset `p`.
pub fn read_i32_at(b: &[u8], p: usize) -> (r: i32)
    requires
        p + 4 <= b@.len(),
    ensures
        r == i32_at(b@, p as int),
{
    let _n = b.len();
    let s = &b[p..p + 4];
    let u = u32_from_le_bytes(s);
    assert(s@ =~= b@.subrange(p as int, p + 4).subrange(0, 4));
    #[verifier::truncate] (u as i32)
}

/// Reads the little-endian `i64` at byte offset `p`.
pub fn read_i64_at(b: &[u8], p: usize) -> (r: i64)
    requires
        p + 8 <= b@.len(),
    ensures
        r == le_i64(b@.subrange(p as int, b@.len() as int)),
{
    let _n = b.len();
    let s = &b[p..p + 8];
    let u = u64_from_le_bytes(s);
    assert(s@ =~= b@.subrange(p as int, b@.len() as int).subrange(0, 8));
    #[verifier::truncate] (u as i64)
}

/// Appends the little-endian bytes of `x`.
pub fn push_i32(out: &mut Vec<u8>, x: i32)
    ensures
        final(out)@ == old(out)@ + i32_le(x),
{
    let v = u32_to_le_bytes(#[verifier::truncate] (x as u32));
    out.extend_from_slice(v.as_slice());
}

/// Appends the little-endian bytes of `x`.
pub fn push_i64(out: &mut Vec<u8>, x: i64)
    ensures
        final(out)@ == old(out)@ + i64_le(x),
{
    let v = u64_to_le_bytes(#[verifier::truncate] (x as u64));
    out.extend_from_slice(v.as_slice());
}

/// Appends the little-endian bytes of `x`.
pub fn push_u32(out: &mut Vec<u8>, x: u32)
    ensures
        final(out)@ == old(out)@ + spec_u32_to_le_bytes(x),
{
    let v = u32_to_le_bytes(x);
    out.extend_from_slice(v.as_slice());
}

} // verus!
