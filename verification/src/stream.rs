//! The byte-level model of a whole compressed stream: how a sequence of
//! uncompressed block payloads appears on disk, and the facts about that
//! shape that the writer establishes and the reader consumes.

use vstd::prelude::*;
use crate::block::{
    header_bytes, trailer_bytes, eof_bytes, MAX_CDATA_LEN, MAX_UNCOMPRESSED_LEN,
};
use crate::deflate::{crc32_of, deflate_of, inflate_of};

verus! {

/// The physical bytes of one block carrying the uncompressed payload `b`:
/// header, compressed payload, trailer.
pub open spec fn block_bytes(b: Seq<u8>) -> Seq<u8> {
    header_bytes(deflate_of(b).len() as int) + deflate_of(b) + trailer_bytes(
        crc32_of(b),
        b.len() as u32,
    )
}

/// A payload the writer may emit as one block: non-empty, within the
/// uncompressed cap, its compressed form within the on-disk cap, and its
/// compressed form inflating back to the payload itself.
pub open spec fn block_wf(b: Seq<u8>) -> bool {
    &&& 0 < b.len() <= MAX_UNCOMPRESSED_LEN
    &&& deflate_of(b).len() <= MAX_CDATA_LEN
    &&& inflate_of(deflate_of(b)) == Some(b)
}

pub open spec fn blocks_wf(blocks: Seq<Seq<u8>>) -> bool {
    forall|i: int| 0 <= i < blocks.len() ==> block_wf(#[trigger] blocks[i])
}

/// The physical bytes of a sequence of data blocks, in order.
pub open spec fn stream_bytes(blocks: Seq<Seq<u8>>) -> Seq<u8>
    decreases blocks.len(),
{
    if blocks.len() == 0 {
        Seq::empty()
    } else {
        block_bytes(blocks[0]) + stream_bytes(blocks.skip(1))
    }
}

pub proof fn lemma_stream_bytes_push(blocks: Seq<Seq<u8>>, b: Seq<u8>)
    ensures
        stream_bytes(blocks.push(b)) == stream_bytes(blocks) + block_bytes(b),
    decreases blocks.len(),
{
    if blocks.len() == 0 {
        let p = blocks.push(b);
        assert(p[0] == b);
        assert(p.skip(1) =~= Seq::<Seq<u8>>::empty());
        assert(stream_bytes(p) == block_bytes(b) + stream_bytes(Seq::<Seq<u8>>::empty()));
        assert(stream_bytes(p) =~= stream_bytes(blocks) + block_bytes(b));
    } else {
        assert(blocks.push(b).skip(1) =~= blocks.skip(1).push(b));
        assert(blocks.push(b)[0] == blocks[0]);
        lemma_stream_bytes_push(blocks.skip(1), b);
        assert(stream_bytes(blocks.push(b)) =~= stream_bytes(blocks) + block_bytes(b));
    }
}

pub proof fn lemma_stream_bytes_concat(x: Seq<Seq<u8>>, y: Seq<Seq<u8>>)
    ensures
        stream_bytes(x + y) == stream_bytes(x) + stream_bytes(y),
    decreases x.len(),
{
    if x.len() == 0 {
        assert(x + y =~= y);
        assert(stream_bytes(x + y) =~= stream_bytes(x) + stream_bytes(y));
    } else {
        assert((x + y).skip(1) =~= x.skip(1) + y);
        assert((x + y)[0] == x[0]);
        lemma_stream_bytes_concat(x.skip(1), y);
        assert(stream_bytes(x + y) =~= stream_bytes(x) + stream_bytes(y));
    }
}

/// Appending one payload to a block sequence appends exactly that payload to
/// the flattened logical bytes.
pub proof fn lemma_flatten_push(blocks: Seq<Seq<u8>>, b: Seq<u8>)
    ensures
        blocks.push(b).flatten() == blocks.flatten() + b,
{
    assert(blocks.push(b) =~= blocks + seq![b]);
    vstd::seq_lib::lemma_flatten_concat(blocks, seq![b]);
    seq![b].lemma_flatten_one_element();
    assert(blocks.push(b).flatten() =~= blocks.flatten() + b);
}

} // verus!
