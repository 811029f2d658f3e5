//! Round-trip laws: a stream of blocks as the writer encodes them, followed
//! by the end-of-file marker, decodes back to exactly the bytes that were
//! written — from the start of the stream or from any block boundary.

use vstd::prelude::*;
use crate::block::{
    eof_bytes, find_bsize, le16_bytes, le32_bytes, spec_decode_header, spec_decode_trailer,
    ReadError,
};
use crate::deflate::{crc32_of, deflate_of, inflate_of};
use crate::reader::{spec_read_all, spec_read_block};
use crate::stream::{block_bytes, block_wf, blocks_wf, lemma_stream_bytes_concat, stream_bytes};

verus! {

proof fn lemma_le16_value(v: u16)
    ensures
        le16_bytes(v)[0] + le16_bytes(v)[1] * 256 == v,
{
    assert((v % 256) + (v / 256) * 256 == v) by (bit_vector);
}

proof fn lemma_le32_value(v: u32)
    ensures
        le32_bytes(v)[0] + le32_bytes(v)[1] * 256 + le32_bytes(v)[2] * 65536 + le32_bytes(
            v,
        )[3] * 16777216 == v,
{
    assert((v % 256) + ((v / 256) % 256) * 256 + ((v / 65536) % 256) * 65536 + (v
        / 16777216) * 16777216 == v) by (bit_vector);
}

/// Decoding at the start of one well-formed block's encoding yields exactly
/// that block's payload and stops exactly at its end.
pub proof fn lemma_read_block_at(src: Seq<u8>, pos: int, b: Seq<u8>)
    requires
        block_wf(b),
        0 <= pos,
        pos + block_bytes(b).len() <= src.len(),
        src.subrange(pos, pos + block_bytes(b).len()) == block_bytes(b),
    ensures
        spec_read_block(src, pos) == Ok::<Option<(Seq<u8>, int)>, ReadError>(
            Some((b, pos + block_bytes(b).len())),
        ),
{
    let d = deflate_of(b);
    let dlen = d.len() as int;
    let bb = block_bytes(b);
    let lth = bb.len() as int;
    assert(lth == 26 + dlen);
    let bsize = (dlen + 25) as u16;
    assert(bsize == dlen + 25);

    assert forall|k: int| 0 <= k < lth implies src[pos + k] == #[trigger] bb[k] by {
        assert(src.subrange(pos, pos + lth)[k] == src[pos + k]);
    }

    lemma_le16_value(bsize);

    // The bytes at hand are not the end-of-file marker: either the stored
    // block size differs, or the trailer's stored length is non-zero.
    if pos + 28 <= src.len() && src.subrange(pos, pos + 28) == eof_bytes() {
        assert(eof_bytes()[16] == 27 && eof_bytes()[17] == 0);
        assert(src.subrange(pos, pos + 28)[16] == src[pos + 16]);
        assert(src.subrange(pos, pos + 28)[17] == src[pos + 17]);
        assert(src[pos + 16] == bb[16] && src[pos + 17] == bb[17]);
        assert(bb[16] == le16_bytes(bsize)[0] && bb[17] == le16_bytes(bsize)[1]);
        assert(bsize == 27);
        assert(dlen == 2 && lth == 28);
        let ulen = b.len() as u32;
        assert(ulen >= 1);
        assert forall|j: int| 0 <= j < 4 implies src[pos + (24 + j)] == #[trigger] le32_bytes(
            ulen,
        )[j] by {
            assert(src[pos + (24 + j)] == bb[24 + j]);
            assert(bb[24 + j] == le32_bytes(ulen)[j]);
        }
        assert forall|j: int| 0 <= j < 4 implies #[trigger] le32_bytes(ulen)[j] == 0 by {
            assert(src.subrange(pos, pos + 28)[24 + j] == src[pos + (24 + j)]);
            assert(eof_bytes()[24 + j] == 0);
        }
        lemma_le32_value(ulen);
        assert(false);
    }

    // Header: magic bytes, extra-field flag, 6-byte extra field holding the
    // reserved subfield with the stored block size.
    assert(src[pos + 0] == bb[0] && src[pos + 1] == bb[1] && src[pos + 3] == bb[3]);
    assert(src[pos + 10] == bb[10] && src[pos + 11] == bb[11]);
    assert(src[pos] == 0x1f && src[pos + 1] == 0x8b && src[pos + 3] == 0x04);
    assert(src[pos + 10] == 0x06 && src[pos + 11] == 0x00);
    assert(0x04u8 & 0x04u8 == 0x04u8) by (bit_vector);
    let extra = src.subrange(pos + 12, pos + 18);
    assert forall|k: int| 0 <= k < 6 implies #[trigger] extra[k] == bb[12 + k] by {
        assert(src[pos + (12 + k)] == bb[12 + k]);
    }
    assert(extra =~= seq![
        0x42u8,
        0x43u8,
        0x02u8,
        0x00u8,
        (bsize % 256) as u8,
        (bsize / 256) as u8,
    ]);
    assert(find_bsize(extra) == Some(bsize));
    assert(spec_decode_header(src, pos) == Ok::<(u16, int), ReadError>((bsize, 18)));

    // Payload: exactly the compressed bytes, which inflate back to `b`.
    assert forall|k: int| 0 <= k < dlen implies src.subrange(pos + 18, pos + 18 + dlen)[k] == d[k]
    by {
        assert(src[pos + (18 + k)] == bb[18 + k]);
        assert(bb[18 + k] == d[k]);
    }
    assert(src.subrange(pos + 18, pos + 18 + dlen) =~= d);
    assert(inflate_of(src.subrange(pos + 18, pos + 18 + dlen)) == Some(b));

    // Trailer: the stored checksum and length match the recomputed ones.
    let tpos = pos + 18 + dlen;
    assert forall|j: int| 0 <= j < 4 implies src[tpos + j] == #[trigger] le32_bytes(crc32_of(b))[j]
    by {
        assert(src[pos + (18 + dlen + j)] == bb[18 + dlen + j]);
        assert(bb[18 + dlen + j] == le32_bytes(crc32_of(b))[j]);
    }
    assert forall|j: int| 0 <= j < 4 implies src[tpos + (4 + j)] == #[trigger] le32_bytes(
        b.len() as u32,
    )[j] by {
        assert(src[pos + (22 + dlen + j)] == bb[22 + dlen + j]);
        assert(bb[22 + dlen + j] == le32_bytes(b.len() as u32)[j]);
    }
    lemma_le32_value(crc32_of(b));
    lemma_le32_value(b.len() as u32);
    assert(spec_decode_trailer(src, tpos) == Ok::<(u32, u32), ReadError>(
        (crc32_of(b), b.len() as u32),
    ));
}

/// Decoding from `pos` of a source that holds, at `pos`, the encodings of
/// `blocks` followed by the end-of-file marker yields exactly the
/// concatenation of the blocks' payloads.
pub proof fn lemma_read_all_at(src: Seq<u8>, pos: int, blocks: Seq<Seq<u8>>)
    requires
        blocks_wf(blocks),
        0 <= pos,
        pos + stream_bytes(blocks).len() + 28 <= src.len(),
        src.subrange(pos, pos + stream_bytes(blocks).len() + 28) == stream_bytes(blocks)
            + eof_bytes(),
    ensures
        spec_read_all(src, pos) == Ok::<Seq<u8>, ReadError>(blocks.flatten()),
    decreases blocks.len(),
{
    assert(eof_bytes().len() == 28);
    if blocks.len() == 0 {
        assert(stream_bytes(blocks).len() == 0);
        assert(src.subrange(pos, pos + 28) =~= eof_bytes()) by {
            assert forall|k: int|
                0 <= k < 28 implies src.subrange(pos, pos + 28)[k] == eof_bytes()[k] by {
                assert(src.subrange(pos, pos + 28)[k] == src[pos + k]);
                assert((stream_bytes(blocks) + eof_bytes())[k] == eof_bytes()[k]);
            }
        }
        assert(spec_read_block(src, pos) == Ok::<Option<(Seq<u8>, int)>, ReadError>(None));
        assert(blocks.flatten() =~= Seq::<u8>::empty());
    } else {
        let b0 = blocks[0];
        let rest = blocks.skip(1);
        let bb = block_bytes(b0);
        let lth = bb.len() as int;
        assert(block_wf(b0));
        assert(blocks_wf(rest));
        assert(stream_bytes(blocks) == bb + stream_bytes(rest));
        assert forall|k: int|
            0 <= k < stream_bytes(blocks).len() + 28 implies #[trigger] src[pos + k] == (
        stream_bytes(blocks) + eof_bytes())[k] by {
            assert(src.subrange(pos, pos + stream_bytes(blocks).len() + 28)[k] == src[pos + k]);
        }
        assert forall|k: int| 0 <= k < lth implies src.subrange(pos, pos + lth)[k] == bb[k] by {
            assert(src.subrange(pos, pos + lth)[k] == src[pos + k]);
            assert(src[pos + k] == (stream_bytes(blocks) + eof_bytes())[k]);
        }
        assert(src.subrange(pos, pos + lth) =~= bb);
        lemma_read_block_at(src, pos, b0);
        let rlen = stream_bytes(rest).len() as int;
        assert forall|k: int|
            0 <= k < rlen + 28 implies src.subrange(pos + lth, pos + lth + rlen + 28)[k] == (
        stream_bytes(rest) + eof_bytes())[k] by {
            assert(src.subrange(pos + lth, pos + lth + rlen + 28)[k] == src[pos + lth + k]);
            assert(src[pos + (lth + k)] == (stream_bytes(blocks) + eof_bytes())[lth + k]);
        }
        assert(src.subrange(pos + lth, pos + lth + stream_bytes(rest).len() + 28)
            =~= stream_bytes(rest) + eof_bytes());
        lemma_read_all_at(src, pos + lth, rest);
        assert(blocks.drop_first() =~= rest);
        assert(blocks.flatten() == b0 + rest.flatten());
    }
}

/// Round trip: for every sequence of well-formed block payloads — in
/// particular, for the blocks of any finished writer — decoding the whole
/// encoded stream yields back exactly the concatenation of the payloads.
pub proof fn lemma_round_trip(blocks: Seq<Seq<u8>>)
    requires
        blocks_wf(blocks),
    ensures
        spec_read_all(stream_bytes(blocks) + eof_bytes(), 0) == Ok::<Seq<u8>, ReadError>(
            blocks.flatten(),
        ),
{
    let src = stream_bytes(blocks) + eof_bytes();
    assert(eof_bytes().len() == 28);
    assert(src.subrange(0, stream_bytes(blocks).len() + 28 as int) =~= src);
    lemma_read_all_at(src, 0, blocks);
}

/// Round trip, stated on the writer itself: the sink of a finished writer
/// over an empty initial sink decodes back to exactly the logical bytes the
/// writer accepted.
pub proof fn lemma_writer_stream_decodes(w: crate::writer::Writer)
    requires
        w.inv(),
        w.is_finished(),
        w.base_bytes().len() == 0,
    ensures
        spec_read_all(w.out_bytes(), 0) == Ok::<Seq<u8>, ReadError>(w.blocks().flatten()),
{
    lemma_round_trip(w.blocks());
    assert(w.out_bytes() =~= stream_bytes(w.blocks()) + eof_bytes());
}

/// Seek correctness at block granularity: decoding the same stream from the
/// offset where block `i` starts yields exactly the payloads of blocks
/// `i..` — the logical bytes from that point onward.
pub proof fn lemma_seek_round_trip(blocks: Seq<Seq<u8>>, i: int)
    requires
        blocks_wf(blocks),
        0 <= i <= blocks.len(),
    ensures
        spec_read_all(
            stream_bytes(blocks) + eof_bytes(),
            stream_bytes(blocks.take(i)).len() as int,
        ) == Ok::<Seq<u8>, ReadError>(blocks.skip(i).flatten()),
{
    let src = stream_bytes(blocks) + eof_bytes();
    let front = blocks.take(i);
    let back = blocks.skip(i);
    assert(front + back =~= blocks);
    lemma_stream_bytes_concat(front, back);
    assert(blocks_wf(back)) by {
        assert(forall|j: int|
            0 <= j < back.len() ==> #[trigger] back[j] == blocks[i + j] && block_wf(blocks[i + j]));
    }
    let off = stream_bytes(front).len() as int;
    assert(eof_bytes().len() == 28);
    assert(src.subrange(off, off + stream_bytes(back).len() + 28) =~= stream_bytes(back)
        + eof_bytes());
    lemma_read_all_at(src, off, back);
}

/// Seek correctness in one statement, at byte granularity: decoding the
/// stream from block `i`'s offset yields a tail whose bytes from intra-block
/// offset `u` onward are exactly the logical bytes from logical offset
/// `flatten(take(i)).len() + u` onward — the bytes originally written from
/// that offset.
pub proof fn lemma_seek_logical(blocks: Seq<Seq<u8>>, i: int, u: int)
    requires
        blocks_wf(blocks),
        0 <= i < blocks.len(),
        0 <= u <= blocks[i].len(),
    ensures
        spec_read_all(
            stream_bytes(blocks) + eof_bytes(),
            stream_bytes(blocks.take(i)).len() as int,
        ) matches Ok(tail) && tail.skip(u) == blocks.flatten().skip(
            blocks.take(i).flatten().len() + u,
        ),
{
    lemma_seek_round_trip(blocks, i);
    assert(blocks.take(i) + blocks.skip(i) =~= blocks);
    vstd::seq_lib::lemma_flatten_concat(blocks.take(i), blocks.skip(i));
    assert(blocks.flatten() == blocks.take(i).flatten() + blocks.skip(i).flatten());
    blocks.skip(i).lemma_flatten_length_ge_single_element_length(0);
    assert(blocks.skip(i)[0] == blocks[i]);
    assert(blocks.flatten().skip(blocks.take(i).flatten().len() + u) =~= blocks.skip(
        i,
    ).flatten().skip(u));
}

} // verus!
