//! Little-endian integer encoding used by the file-store image and the
//! per-file metadata attribute.

use vstd::prelude::*;

verus! {

/// The four little-endian bytes of a 32-bit value.
pub open spec fn u32_le_bytes(v: u32) -> Seq<u8> {
    seq![
        (v & 0xFF) as u8,
        ((v >> 8) & 0xFF) as u8,
        ((v >> 16) & 0xFF) as u8,
        ((v >> 24) & 0xFF) as u8,
    ]
}

/// The 32-bit value read from four little-endian bytes.
pub open spec fn u32_from_le_bytes(b0: u8, b1: u8, b2: u8, b3: u8) -> u32 {
    (b0 as u32) | ((b1 as u32) << 8) | ((b2 as u32) << 16) | ((b3 as u32) << 24)
}

/// Reading back the four little-endian bytes of a value yields the value.
pub proof fn lemma_u32_le_roundtrip(v: u32)
    ensures
        u32_from_le_bytes(
            (v & 0xFF) as u8,
            ((v >> 8) & 0xFF) as u8,
            ((v >> 16) & 0xFF) as u8,
            ((v >> 24) & 0xFF) as u8,
        ) == v,
{
    assert(((v & 0xFF) as u8 as u32) | ((((v >> 8) & 0xFF) as u8 as u32) << 8) | ((((v >> 16)
        & 0xFF) as u8 as u32) << 16) | ((((v >> 24) & 0xFF) as u8 as u32) << 24) == v)
        by (bit_vector);
}

/// Appends the four little-endian bytes of `v`.
pub fn push_u32_le(out: &mut Vec<u8>, v: u32)
    ensures
        final(out)@ == old(out)@ + u32_le_bytes(v),
{
    out.push((v & 0xFF) as u8);
    out.push(((v >> 8) & 0xFF) as u8);
    out.push(((v >> 16) & 0xFF) as u8);
    out.push(((v >> 24) & 0xFF) as u8);
    assert(out@ =~= old(out)@ + u32_le_bytes(v));
}

/// Reads a 32-bit value from four little-endian bytes.
pub fn read_u32_le(b0: u8, b1: u8, b2: u8, b3: u8) -> (r: u32)
    ensures
        r == u32_from_le_bytes(b0, b1, b2, b3),
{
    (b0 as u32) | ((b1 as u32) << 8) | ((b2 as u32) << 16) | ((b3 as u32) << 24)
}

/// The eight little-endian bytes of a 64-bit value.
pub open spec fn u64_le_bytes(v: u64) -> Seq<u8> {
    seq![
        (v & 0xFF) as u8,
        ((v >> 8) & 0xFF) as u8,
        ((v >> 16) & 0xFF) as u8,
        ((v >> 24) & 0xFF) as u8,
        ((v >> 32) & 0xFF) as u8,
        ((v >> 40) & 0xFF) as u8,
        ((v >> 48) & 0xFF) as u8,
        ((v >> 56) & 0xFF) as u8,
    ]
}

/// The 64-bit value read from eight little-endian bytes.
pub open spec fn u64_from_le_bytes(
    b0: u8,
    b1: u8,
    b2: u8,
    b3: u8,
    b4: u8,
    b5: u8,
    b6: u8,
    b7: u8,
) -> u64 {
    (b0 as u64) | ((b1 as u64) << 8) | ((b2 as u64) << 16) | ((b3 as u64) << 24) | ((b4
        as u64) << 32) | ((b5 as u64) << 40) | ((b6 as u64) << 48) | ((b7 as u64) << 56)
}

/// Reading back the eight little-endian bytes of a value yields the value.
pub proof fn lemma_u64_le_roundtrip(v: u64)
    ensures
        u64_from_le_bytes(
            (v & 0xFF) as u8,
            ((v >> 8) & 0xFF) as u8,
            ((v >> 16) & 0xFF) as u8,
            ((v >> 24) & 0xFF) as u8,
            ((v >> 32) & 0xFF) as u8,
            ((v >> 40) & 0xFF) as u8,
            ((v >> 48) & 0xFF) as u8,
            ((v >> 56) & 0xFF) as u8,
        ) == v,
{
    assert(((v & 0xFF) as u8 as u64) | ((((v >> 8) & 0xFF) as u8 as u64) << 8) | ((((v >> 16)
        & 0xFF) as u8 as u64) << 16) | ((((v >> 24) & 0xFF) as u8 as u64) << 24) | ((((v >> 32)
        & 0xFF) as u8 as u64) << 32) | ((((v >> 40) & 0xFF) as u8 as u64) << 40) | ((((v >> 48)
        & 0xFF) as u8 as u64) << 48) | ((((v >> 56) & 0xFF) as u8 as u64) << 56) == v)
        by (bit_vector);
}

/// The eight little-endian bytes of a signed 64-bit value, two's complement.
pub open spec fn i64_le_bytes(v: i64) -> Seq<u8> {
    u64_le_bytes(v as u64)
}

/// The signed 64-bit value read from eight little-endian bytes.
pub open spec fn i64_from_le_bytes(
    b0: u8,
    b1: u8,
    b2: u8,
    b3: u8,
    b4: u8,
    b5: u8,
    b6: u8,
    b7: u8,
) -> i64 {
    u64_from_le_bytes(b0, b1, b2, b3, b4, b5, b6, b7) as i64
}

/// Round trip for signed 64-bit values through their little-endian bytes.
pub proof fn lemma_i64_le_roundtrip(v: i64)
    ensures
        i64_le_bytes(v).len() == 8,
        i64_from_le_bytes(
            i64_le_bytes(v)[0],
            i64_le_bytes(v)[1],
            i64_le_bytes(v)[2],
            i64_le_bytes(v)[3],
            i64_le_bytes(v)[4],
            i64_le_bytes(v)[5],
            i64_le_bytes(v)[6],
            i64_le_bytes(v)[7],
        ) == v,
{
    let u = v as u64;
    lemma_u64_le_roundtrip(u);
    assert((v as u64) as i64 == v) by (bit_vector);
}

/// Appends the eight little-endian bytes of `v`, two's complement.
pub fn push_i64_le(out: &mut Vec<u8>, v: i64)
    ensures
        final(out)@ == old(out)@ + i64_le_bytes(v),
{
    let u: u64 = v as u64;
    out.push((u & 0xFF) as u8);
    out.push(((u >> 8) & 0xFF) as u8);
    out.push(((u >> 16) & 0xFF) as u8);
    out.push(((u >> 24) & 0xFF) as u8);
    out.push(((u >> 32) & 0xFF) as u8);
    out.push(((u >> 40) & 0xFF) as u8);
    out.push(((u >> 48) & 0xFF) as u8);
    out.push(((u >> 56) & 0xFF) as u8);
    assert(out@ =~= old(out)@ + i64_le_bytes(v));
}

/// Reads a signed 64-bit value from eight little-endian bytes.
pub fn read_i64_le(b0: u8, b1: u8, b2: u8, b3: u8, b4: u8, b5: u8, b6: u8, b7: u8) -> (r: i64)
    ensures
        r == i64_from_le_bytes(b0, b1, b2, b3, b4, b5, b6, b7),
{
    let u: u64 = (b0 as u64) | ((b1 as u64) << 8) | ((b2 as u64) << 16) | ((b3 as u64) << 24)
        | ((b4 as u64) << 32) | ((b5 as u64) << 40) | ((b6 as u64) << 48) | ((b7 as u64) << 56);
    u as i64
}

} // verus!
