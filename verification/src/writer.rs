//! The block-stream writer: accumulates uncompressed bytes, emits one
//! compressed block per 65536 accumulated bytes (or per explicit flush), and
//! terminates the stream with the fixed end-of-file marker.

use vstd::prelude::*;
use crate::block::{
    eof_bytes, write_eof, write_header, write_trailer, MAX_CDATA_LEN, MAX_UNCOMPRESSED_LEN,
};
use crate::deflate::{crc32_sum, deflate_compress, deflate_of};
use crate::stream::{
    block_bytes, block_wf, blocks_wf, lemma_flatten_push, lemma_stream_bytes_push, stream_bytes,
};
use crate::virtual_position;

verus! {

/// An error raised by the writer.
#[derive(Clone, Copy, Debug, PartialEq, Eq, Structural)]
pub enum WriteError {
    /// The accumulation buffer was already full; the completed block has
    /// been flushed to the sink, and the caller must retry with the bytes
    /// that were not accepted. Not a failure of the stream.
    Backpressure,
    /// The compressed form of the accumulated bytes does not fit the 16-bit
    /// on-disk block-size field. Nothing was written.
    OversizedBlock,
}

/// A writer that frames uncompressed bytes into compressed blocks appended
/// to an in-memory sink.
pub struct Writer {
    inner: Vec<u8>,
    buf: Vec<u8>,
    flushed: Ghost<Seq<Seq<u8>>>,
    base: Ghost<Seq<u8>>,
    finished: Ghost<bool>,
}

impl Writer {
    /// The bytes the sink holds.
    pub closed spec fn out_bytes(self) -> Seq<u8> {
        self.inner@
    }

    /// The bytes the sink held when the writer was created.
    pub closed spec fn base_bytes(self) -> Seq<u8> {
        self.base@
    }

    /// The uncompressed payloads of the blocks flushed so far, in order.
    pub closed spec fn blocks(self) -> Seq<Seq<u8>> {
        self.flushed@
    }

    /// The bytes accumulated since the last flushed block.
    pub closed spec fn buffered(self) -> Seq<u8> {
        self.buf@
    }

    /// Whether `finish` has sealed the stream with the end-of-file marker.
    pub closed spec fn is_finished(self) -> bool {
        self.finished@
    }

    /// The writer's invariant: the buffer respects the block-size cap, every
    /// flushed payload is a well-formed block, and the sink holds exactly
    /// its initial bytes followed by the encoding of the flushed payloads
    /// (and, once finished, the end-of-file marker).
    pub open spec fn inv(self) -> bool {
        &&& self.buffered().len() <= MAX_UNCOMPRESSED_LEN
        &&& blocks_wf(self.blocks())
        &&& (!self.is_finished() ==> self.out_bytes() == self.base_bytes() + stream_bytes(
            self.blocks(),
        ))
        &&& (self.is_finished() ==> self.out_bytes() == self.base_bytes() + stream_bytes(
            self.blocks(),
        ) + eof_bytes() && self.buffered().len() == 0)
    }

    /// The number of logical (uncompressed) bytes accepted so far.
    pub open spec fn logical_len(self) -> int {
        self.blocks().flatten().len() + self.buffered().len() as int
    }

    /// The writer's current virtual position as an unbounded integer:
    /// compressed offset scaled past the 16 intra-block bits, plus the
    /// number of bytes buffered in the still-open block.
    pub open spec fn vpos_model(self) -> int {
        virtual_position::vpos(self.out_bytes().len() as int, self.buffered().len() as int)
    }

    /// Creates a writer that appends blocks to `inner`.
    pub fn new(inner: Vec<u8>) -> (r: Writer)
        ensures
            r.inv(),
            !r.is_finished(),
            r.base_bytes() == inner@,
            r.out_bytes() == inner@,
            r.blocks() == Seq::<Seq<u8>>::empty(),
            r.buffered() == Seq::<u8>::empty(),
    {
        let ghost base: Seq<u8> = inner@;
        let r = Writer {
            inner,
            buf: Vec::new(),
            flushed: Ghost(Seq::empty()),
            base: Ghost(base),
            finished: Ghost(false),
        };
        proof {
            assert(r.out_bytes() =~= r.base_bytes() + stream_bytes(r.blocks()));
        }
        r
    }

    /// A reference to the underlying sink.
    pub fn get_ref(&self) -> (r: &Vec<u8>)
        ensures
            r@ == self.out_bytes(),
    {
        &self.inner
    }

    /// Compresses the accumulated bytes and appends one complete block —
    /// header, compressed payload, trailer — to the sink, then resets the
    /// buffer and checksum state.
    fn flush_block(&mut self) -> (r: Result<(), WriteError>)
        requires
            old(self).inv(),
            !old(self).is_finished(),
            old(self).buffered().len() > 0,
        ensures
            final(self).inv(),
            !final(self).is_finished(),
            final(self).base_bytes() == old(self).base_bytes(),
            final(self).logical_len() == old(self).logical_len(),
            final(self).vpos_model() >= old(self).vpos_model(),
            match r {
                Ok(()) => {
                    &&& deflate_of(old(self).buffered()).len() <= MAX_CDATA_LEN
                    &&& final(self).blocks() == old(self).blocks().push(old(self).buffered())
                    &&& final(self).buffered().len() == 0
                    &&& final(self).out_bytes() == old(self).out_bytes() + block_bytes(
                        old(self).buffered(),
                    )
                },
                Err(e) => {
                    &&& e == WriteError::OversizedBlock
                    &&& deflate_of(old(self).buffered()).len() > MAX_CDATA_LEN
                    &&& *final(self) == *old(self)
                },
            },
    {
        let mut cdata = deflate_compress(self.buf.as_slice());
        if cdata.len() > MAX_CDATA_LEN {
            return Err(WriteError::OversizedBlock);
        }
        let checksum = crc32_sum(self.buf.as_slice());
        let cdata_len = cdata.len();
        let ghost prev = *self;
        write_header(&mut self.inner, cdata_len);
        self.inner.append(&mut cdata);
        write_trailer(&mut self.inner, checksum, self.buf.len() as u32);
        proof {
            self.flushed@ = prev.flushed@.push(prev.buf@);
        }
        self.buf.clear();
        proof {
            assert(block_wf(prev.buf@));
            lemma_stream_bytes_push(prev.flushed@, prev.buf@);
            assert(self.out_bytes() =~= old(self).out_bytes() + block_bytes(
                old(self).buffered(),
            ));
            assert(self.out_bytes() =~= self.base_bytes() + stream_bytes(self.blocks()));
            lemma_flatten_push(prev.flushed@, prev.buf@);
            assert(block_bytes(prev.buf@).len() >= 26);
        }
        Ok(())
    }

    /// Flushes the accumulated bytes as one block, or does nothing when no
    /// bytes have been accumulated since the last flush.
    pub fn flush(&mut self) -> (r: Result<(), WriteError>)
        requires
            old(self).inv(),
            !old(self).is_finished(),
        ensures
            final(self).inv(),
            !final(self).is_finished(),
            final(self).base_bytes() == old(self).base_bytes(),
            final(self).logical_len() == old(self).logical_len(),
            final(self).vpos_model() >= old(self).vpos_model(),
            r is Err <==> (old(self).buffered().len() > 0 && deflate_of(
                old(self).buffered(),
            ).len() > MAX_CDATA_LEN),
            match r {
                Ok(()) => {
                    &&& final(self).buffered().len() == 0
                    &&& final(self).blocks() == if old(self).buffered().len() == 0 {
                        old(self).blocks()
                    } else {
                        old(self).blocks().push(old(self).buffered())
                    }
                    &&& old(self).buffered().len() == 0 ==> *final(self) == *old(self)
                },
                Err(e) => {
                    &&& e == WriteError::OversizedBlock
                    &&& *final(self) == *old(self)
                },
            },
    {
        if self.buf.len() > 0 {
            self.flush_block()
        } else {
            Ok(())
        }
    }

    /// Accepts as many of `data`'s bytes as fit in the remaining block
    /// capacity and returns the count accepted. When the block is already
    /// full, flushes it and signals backpressure instead; the caller
    /// re-invokes with the bytes that were not accepted.
    pub fn write(&mut self, data: &[u8]) -> (r: Result<usize, WriteError>)
        requires
            old(self).inv(),
            !old(self).is_finished(),
        ensures
            final(self).inv(),
            !final(self).is_finished(),
            final(self).base_bytes() == old(self).base_bytes(),
            final(self).vpos_model() >= old(self).vpos_model(),
            final(self).logical_len() == old(self).logical_len() + (match r {
                Ok(n) => n as int,
                Err(_) => 0int,
            }),
            final(self).logical_len() > old(self).logical_len() ==> final(self).vpos_model()
                > old(self).vpos_model(),
            old(self).buffered().len() < MAX_UNCOMPRESSED_LEN ==> r is Ok,
            match r {
                Ok(n) => {
                    &&& old(self).buffered().len() < MAX_UNCOMPRESSED_LEN
                    &&& n == vstd::math::min(
                        MAX_UNCOMPRESSED_LEN - old(self).buffered().len(),
                        data@.len() as int,
                    )
                    &&& final(self).blocks() == old(self).blocks()
                    &&& final(self).out_bytes() == old(self).out_bytes()
                    &&& final(self).buffered() == old(self).buffered() + data@.take(n as int)
                },
                Err(WriteError::Backpressure) => {
                    &&& old(self).buffered().len() == MAX_UNCOMPRESSED_LEN
                    &&& final(self).blocks() == old(self).blocks().push(old(self).buffered())
                    &&& final(self).buffered().len() == 0
                },
                Err(WriteError::OversizedBlock) => {
                    &&& old(self).buffered().len() == MAX_UNCOMPRESSED_LEN
                    &&& deflate_of(old(self).buffered()).len() > MAX_CDATA_LEN
                    &&& *final(self) == *old(self)
                },
            },
    {
        if self.buf.len() >= MAX_UNCOMPRESSED_LEN {
            match self.flush_block() {
                Ok(()) => {
                    return Err(WriteError::Backpressure);
                },
                Err(e) => {
                    return Err(e);
                },
            }
        }
        let capacity: usize = MAX_UNCOMPRESSED_LEN - self.buf.len();
        let n: usize = if data.len() < capacity {
            data.len()
        } else {
            capacity
        };
        let ghost prev = *self;
        let mut j: usize = 0;
        while j < n
            invariant
                j <= n,
                n <= data@.len(),
                prev.buf@.len() + n <= MAX_UNCOMPRESSED_LEN,
                self.inner@ == prev.inner@,
                self.flushed@ == prev.flushed@,
                self.base@ == prev.base@,
                self.finished@ == prev.finished@,
                self.buf@ == prev.buf@ + data@.take(j as int),
            decreases n - j,
        {
            proof {
                assert(prev.buf@ + data@.take(j + 1 as int) =~= (prev.buf@ + data@.take(
                    j as int,
                )).push(data@[j as int]));
            }
            self.buf.push(data[j]);
            j += 1;
        }
        Ok(n)
    }

    /// Writes all of `data`, flushing completed blocks as the accumulation
    /// buffer fills. Every block this emits carries exactly 65536 logical
    /// bytes; the remainder stays buffered for the next flush.
    pub fn write_all(&mut self, data: &[u8]) -> (r: Result<(), WriteError>)
        requires
            old(self).inv(),
            !old(self).is_finished(),
        ensures
            final(self).inv(),
            !final(self).is_finished(),
            final(self).base_bytes() == old(self).base_bytes(),
            final(self).vpos_model() >= old(self).vpos_model(),
            r is Ok ==> final(self).logical_len() == old(self).logical_len() + data@.len(),
            r is Ok && data@.len() > 0 ==> final(self).vpos_model() > old(self).vpos_model(),
            match r {
                Ok(()) => {
                    &&& final(self).blocks().take(old(self).blocks().len() as int) == old(self).blocks()
                    &&& forall|i: int|
                        old(self).blocks().len() <= i < final(self).blocks().len()
                            ==> (#[trigger] final(self).blocks()[i]).len()
                            == MAX_UNCOMPRESSED_LEN
                    &&& final(self).blocks().flatten() + final(self).buffered() == old(self).blocks().flatten() + old(self).buffered() + data@
                    &&& final(self).blocks().flatten().len() == old(self).blocks().flatten().len() + MAX_UNCOMPRESSED_LEN * (final(self).blocks().len() - old(self).blocks().len())
                    &&& (final(self).buffered().len() == 0 ==> old(self).buffered().len()
                        + data@.len() == 0)
                },
                Err(e) => {
                    &&& e == WriteError::OversizedBlock
                    &&& final(self).buffered().len() == MAX_UNCOMPRESSED_LEN
                    &&& deflate_of(final(self).buffered()).len() > MAX_CDATA_LEN
                    &&& final(self).blocks().flatten() + final(self).buffered() == old(
                        self,
                    ).blocks().flatten() + old(self).buffered() + data@.take(
                        final(self).logical_len() - old(self).logical_len(),
                    )
                },
            },
    {
        let ghost first = *self;
        let mut off: usize = 0;
        while off < data.len()
            invariant
                first == *old(self),
                off <= data@.len(),
                self.inv(),
                !self.is_finished(),
                self.base_bytes() == first.base_bytes(),
                self.vpos_model() >= first.vpos_model(),
                self.logical_len() == first.logical_len() + off,
                off > 0 ==> self.vpos_model() > first.vpos_model(),
                self.blocks().take(first.blocks().len() as int) == first.blocks(),
                forall|i: int|
                    first.blocks().len() <= i < self.blocks().len() ==> (
                    #[trigger] self.blocks()[i]).len() == MAX_UNCOMPRESSED_LEN,
                self.blocks().flatten() + self.buffered() == first.blocks().flatten()
                    + first.buffered() + data@.take(off as int),
                self.blocks().flatten().len() == first.blocks().flatten().len()
                    + MAX_UNCOMPRESSED_LEN * (self.blocks().len() - first.blocks().len()),
                self.buffered().len() == 0 ==> (first.buffered().len() + off == 0 || off
                    < data@.len()),
                off < data@.len() ==> self.blocks().len() >= first.blocks().len(),
            decreases data@.len() - off, self.buffered().len(),
        {
            let chunk: &[u8] = &data[off..data.len()];
            let ghost mid = *self;
            match self.write(chunk) {
                Ok(n) => {
                    proof {
                        assert(data@.take(off as int) + chunk@.take(n as int) =~= data@.take(
                            off + n as int,
                        ));
                        assert(mid.blocks().flatten() + (mid.buffered() + chunk@.take(
                            n as int,
                        )) =~= (mid.blocks().flatten() + mid.buffered()) + chunk@.take(n as int));
                        assert((first.blocks().flatten() + first.buffered() + data@.take(
                            off as int,
                        )) + chunk@.take(n as int) =~= first.blocks().flatten() + first.buffered()
                            + data@.take(off + n as int));
                    }
                    if n == 0 {
                        proof {
                            assert(chunk@.len() > 0);
                            assert(false);
                        }
                    }
                    off += n;
                },
                Err(WriteError::Backpressure) => {
                    proof {
                        lemma_flatten_push(mid.blocks(), mid.buffered());
                        assert(self.blocks().take(first.blocks().len() as int) =~= mid.blocks()
                            .take(first.blocks().len() as int));
                        assert(self.blocks().flatten() + self.buffered() =~= mid.blocks()
                            .flatten() + mid.buffered());
                        assert(MAX_UNCOMPRESSED_LEN * (self.blocks().len() - first.blocks().len())
                            == MAX_UNCOMPRESSED_LEN * (mid.blocks().len() - first.blocks().len())
                            + MAX_UNCOMPRESSED_LEN) by (nonlinear_arith)
                            requires
                                self.blocks().len() == mid.blocks().len() + 1,
                        ;
                    }
                },
                Err(e) => {
                    return Err(e);
                },
            }
        }
        Ok(())
    }

    /// Flushes any accumulated bytes, then appends the fixed 28-byte
    /// end-of-file marker and seals the writer. The sink then ends with the
    /// marker whatever was written before — even nothing at all.
    pub fn finish(&mut self) -> (r: Result<(), WriteError>)
        requires
            old(self).inv(),
            !old(self).is_finished(),
        ensures
            final(self).inv(),
            final(self).base_bytes() == old(self).base_bytes(),
            final(self).logical_len() == old(self).logical_len(),
            old(self).buffered().len() == 0 ==> r is Ok,
            r is Err <==> (old(self).buffered().len() > 0 && deflate_of(
                old(self).buffered(),
            ).len() > MAX_CDATA_LEN),
            match r {
                Ok(()) => {
                    &&& final(self).is_finished()
                    &&& final(self).blocks() == if old(self).buffered().len() == 0 {
                        old(self).blocks()
                    } else {
                        old(self).blocks().push(old(self).buffered())
                    }
                    &&& final(self).out_bytes() == final(self).base_bytes() + stream_bytes(
                        final(self).blocks(),
                    ) + eof_bytes()
                    &&& final(self).out_bytes().len() >= 28
                    &&& final(self).out_bytes().skip(
                        final(self).out_bytes().len() - 28,
                    ) == eof_bytes()
                },
                Err(e) => {
                    &&& e == WriteError::OversizedBlock
                    &&& !final(self).is_finished()
                    &&& deflate_of(old(self).buffered()).len() > MAX_CDATA_LEN
                    &&& *final(self) == *old(self)
                },
            },
    {
        match self.flush() {
            Ok(()) => {
                write_eof(&mut self.inner);
                proof {
                    self.finished@ = true;
                }
                proof {
                    assert(eof_bytes().len() == 28);
                    assert(self.out_bytes().skip(self.out_bytes().len() - 28) =~= eof_bytes());
                }
                Ok(())
            },
            Err(e) => Err(e),
        }
    }

    /// Block-count law: `write_all` on a fresh writer leaves `k` full blocks
    /// and `b` buffered bytes with `65536 * k + b == n` and `b == 0` only
    /// when `n == 0`; `finish` then flushes one further block exactly when
    /// `b > 0`. Writing `n` bytes with no manual flush therefore produces
    /// exactly `ceil(n / 65536)` data blocks ahead of the end-of-file
    /// marker.
    pub proof fn lemma_block_count(k: int, b: int, n: int)
        requires
            0 <= k,
            0 <= b <= 65536,
            65536 * k + b == n,
            b == 0 ==> n == 0,
        ensures
            k + (if b > 0 {
                1int
            } else {
                0int
            }) == (n + 65535) / 65536,
    {
        if b == 0 {
            assert(k == 0) by (nonlinear_arith)
                requires
                    0 <= k,
                    65536 * k == 0,
            ;
        } else {
            assert((65536 * k + b + 65535) / 65536 == k + 1) by (nonlinear_arith)
                requires
                    0 <= k,
                    1 <= b <= 65536,
            ;
        }
    }

    /// The writer's current virtual position: the sink length paired with
    /// the count of buffered bytes. `None` when the sink offset no longer
    /// fits 48 bits or the buffer holds a full block (a flush is then due).
    pub fn virtual_position(&self) -> (r: Option<u64>)
        requires
            self.inv(),
        ensures
            r is Some <==> (self.out_bytes().len() < virtual_position::MAX_COMPRESSED_OFFSET
                && self.buffered().len() < MAX_UNCOMPRESSED_LEN),
            r is Some ==> r->0 == self.vpos_model(),
    {
        if self.buf.len() < MAX_UNCOMPRESSED_LEN {
            virtual_position::pack(self.inner.len() as u64, self.buf.len() as u16)
        } else {
            None
        }
    }
}

/// Whether consecutive observations of a writer respect what every writer
/// operation's `ensures` guarantees: the position model never decreases,
/// the logical offset never decreases, and the position model grows
/// strictly whenever the logical offset grows. An observation pairs
/// `vpos_model()` with `logical_len()`.
pub open spec fn vpos_steps_ok(trace: Seq<(int, int)>) -> bool {
    forall|k: int|
        0 <= k < trace.len() - 1 ==> {
            &&& (#[trigger] trace[k]).0 <= trace[k + 1].0
            &&& trace[k].1 <= trace[k + 1].1
            &&& (trace[k].1 < trace[k + 1].1 ==> trace[k].0 < trace[k + 1].0)
        }
}

proof fn lemma_vpos_trace_monotone(trace: Seq<(int, int)>, a: int, b: int)
    requires
        vpos_steps_ok(trace),
        0 <= a <= b < trace.len(),
    ensures
        trace[a].0 <= trace[b].0,
    decreases b - a,
{
    if a < b {
        lemma_vpos_trace_monotone(trace, a + 1, b);
    }
}

/// Virtual-position ordering over a whole run: in any sequence of writer
/// observations whose steps are as the operations' contracts guarantee, a
/// position taken at a strictly smaller logical offset is strictly smaller.
/// With `virtual_position`'s exactness and `lemma_vpos_order`, the same
/// ordering holds of the packed 64-bit positions.
pub proof fn lemma_vpos_trace(trace: Seq<(int, int)>, a: int, b: int)
    requires
        vpos_steps_ok(trace),
        0 <= a <= b < trace.len(),
        trace[a].1 < trace[b].1,
    ensures
        trace[a].0 < trace[b].0,
    decreases b - a,
{
    if trace[a].1 < trace[a + 1].1 {
        lemma_vpos_trace_monotone(trace, a + 1, b);
    } else {
        lemma_vpos_trace(trace, a + 1, b);
    }
}

} // verus!
