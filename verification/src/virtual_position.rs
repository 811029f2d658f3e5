//! Virtual positions: 64-bit packed addresses into the logical (decompressed)
//! stream.
//!
//! A virtual position packs a 48-bit compressed-stream offset (the byte offset
//! of a block's first byte in the physical stream) together with a 16-bit
//! offset into that block's decompressed bytes. The natural integer order of
//! the packed value is exactly the lexicographic order of the two components,
//! which in turn is logical-stream byte order.

use vstd::prelude::*;

verus! {

/// Number of decompressed bytes a block may hold; intra-block offsets are
/// strictly below it.
pub const MAX_BLOCK_SIZE: u64 = 65536;

/// Exclusive upper bound on the compressed-stream offset (48 bits).
pub const MAX_COMPRESSED_OFFSET: u64 = 0x1_0000_0000_0000;

/// The packed value as an unbounded integer: the compressed offset shifted
/// past the 16 bits that hold the intra-block offset.
pub open spec fn vpos(compressed_offset: int, uncompressed_offset: int) -> int {
    compressed_offset * 65536 + uncompressed_offset
}

/// Packs a compressed-stream offset and an intra-block offset into a single
/// 64-bit virtual position. Returns `None` when the compressed offset does
/// not fit in 48 bits.
pub fn pack(compressed_offset: u64, uncompressed_offset: u16) -> (r: Option<u64>)
    ensures
        r is Some <==> compressed_offset < MAX_COMPRESSED_OFFSET,
        r is Some ==> r->0 == vpos(compressed_offset as int, uncompressed_offset as int),
{
    if compressed_offset < MAX_COMPRESSED_OFFSET {
        let packed: u64 = (compressed_offset << 16u64) | (uncompressed_offset as u64);
        proof {
            assert(packed == compressed_offset * 65536 + uncompressed_offset) by (bit_vector)
                requires
                    packed == (compressed_offset << 16u64) | (uncompressed_offset as u64),
                    compressed_offset < 0x1_0000_0000_0000u64,
                    uncompressed_offset < 0x1_0000u64,
            ;
        }
        Some(packed)
    } else {
        None
    }
}

/// Splits a packed virtual position back into its compressed-stream offset
/// and intra-block offset. Exact inverse of `pack`.
pub fn unpack(v: u64) -> (r: (u64, u16))
    ensures
        r.0 < MAX_COMPRESSED_OFFSET,
        r.1 < MAX_BLOCK_SIZE,
        v == vpos(r.0 as int, r.1 as int),
{
    let compressed_offset: u64 = v >> 16u64;
    let uncompressed_offset: u16 = (v & 0xffff) as u16;
    proof {
        assert(compressed_offset < 0x1_0000_0000_0000u64
            && uncompressed_offset < 0x1_0000u64
            && v == compressed_offset * 65536 + uncompressed_offset) by (bit_vector)
            requires
                compressed_offset == v >> 16u64,
                uncompressed_offset == (v & 0xffff) as u16,
        ;
    }
    (compressed_offset, uncompressed_offset)
}

/// Virtual-position ordering law: packed values compare as integers exactly
/// the way their components compare lexicographically — first by compressed
/// offset, then by intra-block offset. Since blocks appear in the physical
/// stream in logical order and a block's decompressed bytes form a contiguous
/// logical range, this is logical-stream byte order.
pub proof fn lemma_vpos_order(c1: int, u1: int, c2: int, u2: int)
    requires
        0 <= u1 < 65536,
        0 <= u2 < 65536,
    ensures
        vpos(c1, u1) < vpos(c2, u2) <==> (c1 < c2 || (c1 == c2 && u1 < u2)),
{
    if c1 < c2 {
        assert(c1 * 65536 + 65536 <= c2 * 65536) by (nonlinear_arith)
            requires c1 < c2;
    }
    if c2 < c1 {
        assert(c2 * 65536 + 65536 <= c1 * 65536) by (nonlinear_arith)
            requires c2 < c1;
    }
}

/// Packing then unpacking returns the original components.
pub proof fn lemma_unpack_of_pack(c: int, u: int, v: int)
    requires
        0 <= c < 0x1_0000_0000_0000,
        0 <= u < 65536,
        v == vpos(c, u),
    ensures
        v / 65536 == c,
        v % 65536 == u,
{
    assert((c * 65536 + u) / 65536 == c && (c * 65536 + u) % 65536 == u) by (nonlinear_arith)
        requires
            0 <= c,
            0 <= u < 65536,
    ;
}

} // verus!
