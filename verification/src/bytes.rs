//! Byte-order conversions of fixed-width integers, done by the
//! `packed_struct` crate, and the bit-level facts the rest of the crate needs.
use packed_struct::types::IntegerAsBytes;
use vstd::prelude::*;

verus! {

/// The value of four bytes read most significant byte first.
pub open spec fn be_u32(b: Seq<u8>) -> u32 {
    ((b[0] as u32) << 24u32) | ((b[1] as u32) << 16u32) | ((b[2] as u32) << 8u32) | (b[3] as u32)
}

/// The bytes of `v`, most significant byte first.
pub open spec fn be_bytes_u32(v: u32) -> Seq<u8> {
    seq![(v >> 24u32) as u8, (v >> 16u32) as u8, (v >> 8u32) as u8, v as u8]
}

/// Calls `packed_struct`'s `<u32 as IntegerAsBytes>::from_msb_bytes`, which
/// combines the four bytes most significant first (`from_bytes!(4, ..)` in
/// `types_num.rs`); the contract states exactly that formula.
#[verifier::external_body]
pub(crate) fn u32_from_msb_bytes(b: &[u8; 4]) -> (r: u32)
    ensures
        r == be_u32(b@),
{
    <u32 as IntegerAsBytes>::from_msb_bytes(b)
}

/// Calls `packed_struct`'s `<u32 as IntegerAsBytes>::to_msb_bytes`, which
/// writes the value most significant byte first (`as_bytes!(4, ..)`).
#[verifier::external_body]
pub(crate) fn u32_to_msb_bytes(v: u32) -> (r: [u8; 4])
    ensures
        r@ == be_bytes_u32(v),
{
    v.to_msb_bytes()
}

pub proof fn lemma_be_u32_roundtrip(v: u32)
    ensures
        be_u32(be_bytes_u32(v)) == v,
{
    let b = be_bytes_u32(v);
    let b0 = b[0];
    let b1 = b[1];
    let b2 = b[2];
    let b3 = b[3];
    assert(b0 == (v >> 24u32) as u8 && b1 == (v >> 16u32) as u8 && b2 == (v >> 8u32) as u8 && b3 == v as u8);
    assert(((b0 as u32) << 24u32) | ((b1 as u32) << 16u32) | ((b2 as u32) << 8u32) | (b3 as u32) == v) by (bit_vector)
        requires
            b0 == (v >> 24u32) as u8,
            b1 == (v >> 16u32) as u8,
            b2 == (v >> 8u32) as u8,
            b3 == v as u8,
    ;
}


/// The value of two bytes read most significant byte first.
pub open spec fn be_u16(b: Seq<u8>) -> u16 {
    ((b[0] as u16) << 8u16) | (b[1] as u16)
}

/// The bytes of `v`, most significant byte first.
pub open spec fn be_bytes_u16(v: u16) -> Seq<u8> {
    seq![(v >> 8u16) as u8, v as u8]
}

/// Calls `packed_struct`'s `<u16 as IntegerAsBytes>::from_msb_bytes`
/// (`from_bytes!(2, ..)`): the first byte is the most significant.
#[verifier::external_body]
pub(crate) fn u16_from_msb_bytes(b: &[u8; 2]) -> (r: u16)
    ensures
        r == be_u16(b@),
{
    <u16 as IntegerAsBytes>::from_msb_bytes(b)
}

/// Calls `packed_struct`'s `<u16 as IntegerAsBytes>::to_msb_bytes`
/// (`as_bytes!(2, ..)`): the most significant byte comes first.
#[verifier::external_body]
pub(crate) fn u16_to_msb_bytes(v: u16) -> (r: [u8; 2])
    ensures
        r@ == be_bytes_u16(v),
{
    v.to_msb_bytes()
}

pub proof fn lemma_be_u16_roundtrip(v: u16)
    ensures
        be_u16(be_bytes_u16(v)) == v,
{
    let b = be_bytes_u16(v);
    let b0 = b[0];
    let b1 = b[1];
    assert(((b0 as u16) << 8u16) | (b1 as u16) == v) by (bit_vector)
        requires
            b0 == (v >> 8u16) as u8,
            b1 == v as u8,
    ;
}

} // verus!

verus! {

/// The value of two bytes from `i` on, least significant first.
pub open spec fn le_u16_at(b: Seq<u8>, i: int) -> u16 {
    ((b[i] as u16) | ((b[i + 1] as u16) << 8u16)) as u16
}

/// The value of four bytes from `i` on, least significant first.
pub open spec fn le_u32_at(b: Seq<u8>, i: int) -> u32 {
    (b[i] as u32) | ((b[i + 1] as u32) << 8u32) | ((b[i + 2] as u32) << 16u32) | ((b[i + 3] as u32)
        << 24u32)
}

/// The value of eight bytes from `i` on, least significant first.
pub open spec fn le_u64_at(b: Seq<u8>, i: int) -> u64 {
    (b[i] as u64) | ((b[i + 1] as u64) << 8u64) | ((b[i + 2] as u64) << 16u64) | ((b[i + 3] as u64)
        << 24u64) | ((b[i + 4] as u64) << 32u64) | ((b[i + 5] as u64) << 40u64) | ((b[i + 6] as u64)
        << 48u64) | ((b[i + 7] as u64) << 56u64)
}

/// The bytes of `v`, least significant first.
pub open spec fn le_bytes_u16(v: u16) -> Seq<u8> {
    seq![v as u8, (v >> 8u16) as u8]
}

pub open spec fn le_bytes_u32(v: u32) -> Seq<u8> {
    seq![v as u8, (v >> 8u32) as u8, (v >> 16u32) as u8, (v >> 24u32) as u8]
}

pub open spec fn le_bytes_u64(v: u64) -> Seq<u8> {
    seq![
        v as u8,
        (v >> 8u64) as u8,
        (v >> 16u64) as u8,
        (v >> 24u64) as u8,
        (v >> 32u64) as u8,
        (v >> 40u64) as u8,
        (v >> 48u64) as u8,
        (v >> 56u64) as u8,
    ]
}

/// Calls `packed_struct`'s `<u16 as IntegerAsBytes>::from_lsb_bytes`, which
/// swaps the bytes of the most-significant-first value (`types_num.rs`): the
/// first byte is the least significant.
#[verifier::external_body]
pub(crate) fn u16_from_lsb_bytes(b: &[u8; 2]) -> (r: u16)
    ensures
        r == le_u16_at(b@, 0),
{
    <u16 as IntegerAsBytes>::from_lsb_bytes(b)
}

/// Calls `packed_struct`'s `<u32 as IntegerAsBytes>::from_lsb_bytes`.
#[verifier::external_body]
pub(crate) fn u32_from_lsb_bytes(b: &[u8; 4]) -> (r: u32)
    ensures
        r == le_u32_at(b@, 0),
{
    <u32 as IntegerAsBytes>::from_lsb_bytes(b)
}

/// Calls `packed_struct`'s `<u64 as IntegerAsBytes>::from_lsb_bytes`.
#[verifier::external_body]
pub(crate) fn u64_from_lsb_bytes(b: &[u8; 8]) -> (r: u64)
    ensures
        r == le_u64_at(b@, 0),
{
    <u64 as IntegerAsBytes>::from_lsb_bytes(b)
}

/// Calls `packed_struct`'s `<u16 as IntegerAsBytes>::to_lsb_bytes`, which
/// writes the byte-swapped value most significant first: the least
/// significant byte comes first.
#[verifier::external_body]
pub(crate) fn u16_to_lsb_bytes(v: u16) -> (r: [u8; 2])
    ensures
        r@ == le_bytes_u16(v),
{
    v.to_lsb_bytes()
}

/// Calls `packed_struct`'s `<u32 as IntegerAsBytes>::to_lsb_bytes`.
#[verifier::external_body]
pub(crate) fn u32_to_lsb_bytes(v: u32) -> (r: [u8; 4])
    ensures
        r@ == le_bytes_u32(v),
{
    v.to_lsb_bytes()
}

/// Calls `packed_struct`'s `<u64 as IntegerAsBytes>::to_lsb_bytes`.
#[verifier::external_body]
pub(crate) fn u64_to_lsb_bytes(v: u64) -> (r: [u8; 8])
    ensures
        r@ == le_bytes_u64(v),
{
    v.to_lsb_bytes()
}

/// The two bytes of a `u16` read back as it.
pub proof fn lemma_le_u16_roundtrip(v: u16)
    ensures
        le_u16_at(le_bytes_u16(v), 0) == v,
{
    let b = le_bytes_u16(v);
    let (b0, b1) = (b[0], b[1]);
    assert(((b0 as u16) | ((b1 as u16) << 8u16)) as u16 == v) by (bit_vector)
        requires
            b0 == v as u8,
            b1 == (v >> 8u16) as u8,
    ;
}

/// The four bytes of a `u32` read back as it.
pub proof fn lemma_le_u32_roundtrip(v: u32)
    ensures
        le_u32_at(le_bytes_u32(v), 0) == v,
{
    let b = le_bytes_u32(v);
    let (b0, b1, b2, b3) = (b[0], b[1], b[2], b[3]);
    assert((b0 as u32) | ((b1 as u32) << 8u32) | ((b2 as u32) << 16u32) | ((b3 as u32) << 24u32) == v)
        by (bit_vector)
        requires
            b0 == v as u8,
            b1 == (v >> 8u32) as u8,
            b2 == (v >> 16u32) as u8,
            b3 == (v >> 24u32) as u8,
    ;
}

/// The eight bytes of a `u64` read back as it.
pub proof fn lemma_le_u64_roundtrip(v: u64)
    ensures
        le_u64_at(le_bytes_u64(v), 0) == v,
{
    let b = le_bytes_u64(v);
    let (b0, b1, b2, b3, b4, b5, b6, b7) = (b[0], b[1], b[2], b[3], b[4], b[5], b[6], b[7]);
    assert((b0 as u64) | ((b1 as u64) << 8u64) | ((b2 as u64) << 16u64) | ((b3 as u64) << 24u64)
        | ((b4 as u64) << 32u64) | ((b5 as u64) << 40u64) | ((b6 as u64) << 48u64) | ((b7 as u64)
        << 56u64) == v) by (bit_vector)
        requires
            b0 == v as u8,
            b1 == (v >> 8u64) as u8,
            b2 == (v >> 16u64) as u8,
            b3 == (v >> 24u64) as u8,
            b4 == (v >> 32u64) as u8,
            b5 == (v >> 40u64) as u8,
            b6 == (v >> 48u64) as u8,
            b7 == (v >> 56u64) as u8,
    ;
}

/// The `u16` at byte `i` of `b`.
pub fn get_u16_le(b: &[u8], i: usize) -> (r: u16)
    requires
        i + 2 <= b@.len(),
    ensures
        r == le_u16_at(b@, i as int),
{
    let a: [u8; 2] = [b[i], b[i + 1]];
    u16_from_lsb_bytes(&a)
}

/// The `u32` at byte `i` of `b`.
pub fn get_u32_le(b: &[u8], i: usize) -> (r: u32)
    requires
        i + 4 <= b@.len(),
    ensures
        r == le_u32_at(b@, i as int),
{
    let a: [u8; 4] = [b[i], b[i + 1], b[i + 2], b[i + 3]];
    u32_from_lsb_bytes(&a)
}

/// The `u64` at byte `i` of `b`.
pub fn get_u64_le(b: &[u8], i: usize) -> (r: u64)
    requires
        i + 8 <= b@.len(),
    ensures
        r == le_u64_at(b@, i as int),
{
    let a: [u8; 8] = [b[i], b[i + 1], b[i + 2], b[i + 3], b[i + 4], b[i + 5], b[i + 6], b[i + 7]];
    u64_from_lsb_bytes(&a)
}

/// Appends the bytes of `v`, least significant first.
pub fn put_u16_le(out: &mut Vec<u8>, v: u16)
    ensures
        final(out)@ == old(out)@ + le_bytes_u16(v),
{
    let a = u16_to_lsb_bytes(v);
    out.push(a[0]);
    out.push(a[1]);
    assert(out@ =~= old(out)@ + le_bytes_u16(v));
}

pub fn put_u32_le(out: &mut Vec<u8>, v: u32)
    ensures
        final(out)@ == old(out)@ + le_bytes_u32(v),
{
    let a = u32_to_lsb_bytes(v);
    out.push(a[0]);
    out.push(a[1]);
    out.push(a[2]);
    out.push(a[3]);
    assert(out@ =~= old(out)@ + le_bytes_u32(v));
}

pub fn put_u64_le(out: &mut Vec<u8>, v: u64)
    ensures
        final(out)@ == old(out)@ + le_bytes_u64(v),
{
    let a = u64_to_lsb_bytes(v);
    let mut k: usize = 0;
    while k < 8
        invariant
            k <= 8,
            a@ == le_bytes_u64(v),
            out@ == old(out)@ + a@.subrange(0, k as int),
        decreases 8 - k,
    {
        out.push(a[k]);
        assert(a@.subrange(0, k + 1) =~= a@.subrange(0, k as int).push(a@[k as int]));
        k = k + 1;
    }
    assert(a@.subrange(0, 8) =~= a@);
}

} // verus!
