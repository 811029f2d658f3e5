//! The block-stream reader: decodes one block at a time from an in-memory
//! compressed source, validates its integrity, and serves the decompressed
//! bytes through a cursor. Supports direct seeks to virtual positions.

use vstd::prelude::*;
use crate::block::{
    decode_header, decode_trailer, eof_bytes, spec_decode_header, spec_decode_trailer, write_eof,
    ReadError, MAX_UNCOMPRESSED_LEN, TRAILER_SIZE,
};
use crate::deflate::{crc32_of, crc32_sum, deflate_decompress, inflate_of};
use crate::virtual_position;

verus! {

/// What decoding one block at `pos` yields: `Ok(None)` at the fixed
/// end-of-file marker, `Ok(Some((data, next)))` for a valid block whose
/// decompressed bytes are `data` and whose encoding ends at `next`, or the
/// error. Integrity checks follow the trailer: the recomputed checksum and
/// the decompressed length must match it, and a block may not carry more
/// than 65536 decompressed bytes.
pub open spec fn spec_read_block(src: Seq<u8>, pos: int) -> Result<
    Option<(Seq<u8>, int)>,
    ReadError,
> {
    if pos + 28 <= src.len() && src.subrange(pos, pos + 28) == eof_bytes() {
        Ok(None)
    } else {
        match spec_decode_header(src, pos) {
            Err(e) => Err(e),
            Ok((bsize, hlen)) => {
                let cdata_len = bsize + 1 - hlen - TRAILER_SIZE;
                if cdata_len < 0 {
                    Err(ReadError::InvalidHeader)
                } else if pos + hlen + cdata_len > src.len() {
                    Err(ReadError::TruncatedStream)
                } else {
                    match inflate_of(src.subrange(pos + hlen, pos + hlen + cdata_len)) {
                        None => Err(ReadError::Corruption),
                        Some(data) => match spec_decode_trailer(src, pos + hlen + cdata_len) {
                            Err(e) => Err(e),
                            Ok((checksum, ulen)) => {
                                if crc32_of(data) == checksum && data.len() == ulen && data.len()
                                    <= MAX_UNCOMPRESSED_LEN {
                                    Ok(Some((data, pos + hlen + cdata_len + TRAILER_SIZE)))
                                } else {
                                    Err(ReadError::Corruption)
                                }
                            },
                        },
                    }
                }
            },
        }
    }
}

/// A successfully decoded block ends strictly after it starts and within the
/// source.
pub proof fn lemma_read_block_advances(src: Seq<u8>, pos: int)
    requires
        0 <= pos <= src.len(),
        spec_read_block(src, pos) is Ok,
        spec_read_block(src, pos)->Ok_0 is Some,
    ensures
        pos < spec_read_block(src, pos)->Ok_0->Some_0.1 <= src.len(),
{
}

/// The decompressed bytes of every block from `pos` to the end-of-file
/// marker, concatenated, or the first error met.
pub open spec fn spec_read_all(src: Seq<u8>, pos: int) -> Result<Seq<u8>, ReadError>
    decreases src.len() - pos,
    when 0 <= pos <= src.len()
    via spec_read_all_decreases
{
    match spec_read_block(src, pos) {
        Err(e) => Err(e),
        Ok(None) => Ok(Seq::empty()),
        Ok(Some((data, next))) => match spec_read_all(src, next) {
            Err(e) => Err(e),
            Ok(rest) => Ok(data + rest),
        },
    }
}

#[via_fn]
proof fn spec_read_all_decreases(src: Seq<u8>, pos: int) {
    if spec_read_block(src, pos) matches Ok(Some(_)) {
        lemma_read_block_advances(src, pos);
    }
}

/// The first non-empty block at or after `pos`, skipping empty data blocks:
/// `Ok(None)` at the marker, otherwise `Ok(Some((data, start, next)))` where
/// `start` is the block's own offset.
pub open spec fn spec_read_some(src: Seq<u8>, pos: int) -> Result<
    Option<(Seq<u8>, int, int)>,
    ReadError,
>
    decreases src.len() - pos,
    when 0 <= pos <= src.len()
    via spec_read_some_decreases
{
    match spec_read_block(src, pos) {
        Err(e) => Err(e),
        Ok(None) => Ok(None),
        Ok(Some((data, next))) => if data.len() > 0 {
            Ok(Some((data, pos, next)))
        } else {
            spec_read_some(src, next)
        },
    }
}

#[via_fn]
proof fn spec_read_some_decreases(src: Seq<u8>, pos: int) {
    if spec_read_block(src, pos) matches Ok(Some(_)) {
        lemma_read_block_advances(src, pos);
    }
}

/// `Ok(prefix + s)` when `r` is `Ok(s)`, else `r` itself.
pub open spec fn prepend(prefix: Seq<u8>, r: Result<Seq<u8>, ReadError>) -> Result<
    Seq<u8>,
    ReadError,
> {
    match r {
        Ok(s) => Ok(prefix + s),
        Err(e) => Err(e),
    }
}

/// Appends `src[from .. to]` to `dst`.
fn append_range(dst: &mut Vec<u8>, src: &Vec<u8>, from: usize, to: usize)
    requires
        from <= to <= src.len(),
    ensures
        final(dst)@ == old(dst)@ + src@.subrange(from as int, to as int),
{
    let mut i: usize = from;
    proof {
        assert(dst@ =~= dst@ + src@.subrange(from as int, from as int));
    }
    while i < to
        invariant
            from <= i <= to <= src.len(),
            dst@ == old(dst)@ + src@.subrange(from as int, i as int),
        decreases to - i,
    {
        proof {
            assert(old(dst)@ + src@.subrange(from as int, i + 1 as int) =~= (old(dst)@
                + src@.subrange(from as int, i as int)).push(src@[i as int]));
        }
        dst.push(src[i]);
        i += 1;
    }
}

/// Whether the fixed 28-byte end-of-file marker sits at `pos`.
fn is_eof_at(src: &Vec<u8>, pos: usize) -> (r: bool)
    requires
        pos <= src.len(),
    ensures
        r == (pos + 28 <= src@.len() && src@.subrange(pos as int, pos + 28) == eof_bytes()),
{
    if src.len() - pos < 28 {
        return false;
    }
    let mut marker: Vec<u8> = Vec::new();
    write_eof(&mut marker);
    let mut i: usize = 0;
    while i < 28
        invariant
            0 <= i <= 28,
            pos + 28 <= src@.len(),
            src@.len() <= usize::MAX,
            marker@ == eof_bytes(),
            marker@.len() == 28,
            forall|k: int| 0 <= k < i ==> src@[pos + k] == eof_bytes()[k],
        decreases 28 - i,
    {
        if src[pos + i] != marker[i] {
            proof {
                assert(src@.subrange(pos as int, pos + 28)[i as int] == src@[pos + i]);
            }
            return false;
        }
        i += 1;
    }
    proof {
        assert(src@.subrange(pos as int, pos + 28) =~= eof_bytes());
    }
    true
}

/// A reader over an in-memory compressed stream.
pub struct Reader {
    src: Vec<u8>,
    pos: usize,
    block: Vec<u8>,
    block_pos: usize,
    block_start: usize,
}

impl Reader {
    /// The whole compressed source.
    pub closed spec fn source(self) -> Seq<u8> {
        self.src@
    }

    /// The offset of the next compressed byte to decode.
    pub closed spec fn offset(self) -> int {
        self.pos as int
    }

    /// The decompressed bytes of the current block.
    pub closed spec fn block_data(self) -> Seq<u8> {
        self.block@
    }

    /// The read cursor within the current block.
    pub closed spec fn cursor(self) -> int {
        self.block_pos as int
    }

    /// The source offset at which the current block starts.
    pub closed spec fn block_offset(self) -> int {
        self.block_start as int
    }

    pub open spec fn inv(self) -> bool {
        &&& self.offset() <= self.source().len()
        &&& self.cursor() <= self.block_data().len()
        &&& self.block_data().len() <= MAX_UNCOMPRESSED_LEN
    }

    /// The compressed-offset component of the reader's virtual position: the
    /// current block while its bytes are still being served, else the offset
    /// of the next block to decode.
    pub open spec fn vpos_c(self) -> int {
        if self.cursor() < self.block_data().len() {
            self.block_offset()
        } else {
            self.offset()
        }
    }

    /// The intra-block component of the reader's virtual position.
    pub open spec fn vpos_u(self) -> int {
        if self.cursor() < self.block_data().len() {
            self.cursor()
        } else {
            0
        }
    }

    /// Creates a reader over `src`, positioned at its first block.
    pub fn new(src: Vec<u8>) -> (r: Reader)
        ensures
            r.inv(),
            r.source() == src@,
            r.offset() == 0,
            r.block_data().len() == 0,
            r.cursor() == 0,
    {
        Reader { src, pos: 0, block: Vec::new(), block_pos: 0, block_start: 0 }
    }

    /// Decodes the next block into the reader and returns its decompressed
    /// length, or `Ok(None)` at the fixed end-of-file marker. Whatever was
    /// left unread of the previous block is discarded. Decoding validates
    /// the checksum and length against the trailer.
    pub fn read_block(&mut self) -> (r: Result<Option<usize>, ReadError>)
        requires
            old(self).inv(),
        ensures
            final(self).inv(),
            final(self).source() == old(self).source(),
            match spec_read_block(old(self).source(), old(self).offset()) {
                Err(e) => r == Err::<Option<usize>, ReadError>(e) && *final(self) == *old(self),
                Ok(None) => {
                    &&& r == Ok::<Option<usize>, ReadError>(None)
                    &&& final(self).block_data().len() == 0
                    &&& final(self).cursor() == 0
                    &&& final(self).offset() == old(self).offset()
                },
                Ok(Some((data, next))) => {
                    &&& r == Ok::<Option<usize>, ReadError>(Some(data.len() as usize))
                    &&& final(self).block_data() == data
                    &&& final(self).cursor() == 0
                    &&& final(self).offset() == next
                    &&& final(self).block_offset() == old(self).offset()
                },
            },
    {
        if is_eof_at(&self.src, self.pos) {
            self.block = Vec::new();
            self.block_pos = 0;
            return Ok(None);
        }
        let (bsize, hlen) = match decode_header(&self.src, self.pos) {
            Ok(h) => h,
            Err(e) => {
                return Err(e);
            },
        };
        let total: usize = bsize as usize + 1;
        if total < hlen + TRAILER_SIZE {
            return Err(ReadError::InvalidHeader);
        }
        let cdata_len: usize = total - hlen - TRAILER_SIZE;
        if cdata_len > self.src.len() - (self.pos + hlen) {
            return Err(ReadError::TruncatedStream);
        }
        let payload: &[u8] = &self.src.as_slice()[self.pos + hlen..self.pos + hlen + cdata_len];
        let data = match deflate_decompress(payload) {
            Some(d) => d,
            None => {
                return Err(ReadError::Corruption);
            },
        };
        let (checksum, ulen) = match decode_trailer(&self.src, self.pos + hlen + cdata_len) {
            Ok(t) => t,
            Err(e) => {
                return Err(e);
            },
        };
        if crc32_sum(data.as_slice()) != checksum {
            return Err(ReadError::Corruption);
        }
        if data.len() > MAX_UNCOMPRESSED_LEN {
            return Err(ReadError::Corruption);
        }
        if data.len() as u32 != ulen {
            return Err(ReadError::Corruption);
        }
        let n = data.len();
        self.block_start = self.pos;
        self.pos = self.pos + hlen + cdata_len + TRAILER_SIZE;
        self.block = data;
        self.block_pos = 0;
        Ok(Some(n))
    }

    /// Serves up to `max` bytes from the current block's cursor, decoding
    /// further blocks when the cursor is exhausted. An empty result means
    /// the end-of-file marker was reached (or `max` was zero while bytes
    /// remain).
    pub fn read(&mut self, max: usize) -> (r: Result<Vec<u8>, ReadError>)
        requires
            old(self).inv(),
        ensures
            final(self).inv(),
            final(self).source() == old(self).source(),
            old(self).cursor() < old(self).block_data().len() ==> {
                let n = vstd::math::min(
                    max as int,
                    old(self).block_data().len() - old(self).cursor(),
                );
                &&& r is Ok
                &&& r->Ok_0@ == old(self).block_data().subrange(
                    old(self).cursor(),
                    old(self).cursor() + n,
                )
                &&& final(self).block_data() == old(self).block_data()
                &&& final(self).cursor() == old(self).cursor() + n
                &&& final(self).offset() == old(self).offset()
                &&& final(self).block_offset() == old(self).block_offset()
            },
            old(self).cursor() >= old(self).block_data().len() ==> match spec_read_some(
                old(self).source(),
                old(self).offset(),
            ) {
                Err(e) => r == Err::<Vec<u8>, ReadError>(e),
                Ok(None) => {
                    &&& r is Ok
                    &&& r->Ok_0@ == Seq::<u8>::empty()
                    &&& final(self).cursor() == final(self).block_data().len()
                },
                Ok(Some((data, start, next))) => {
                    let n = vstd::math::min(max as int, data.len() as int);
                    &&& r is Ok
                    &&& r->Ok_0@ == data.subrange(0, n)
                    &&& final(self).block_data() == data
                    &&& final(self).cursor() == n
                    &&& final(self).block_offset() == start
                    &&& final(self).offset() == next
                },
            },
    {
        if self.block_pos < self.block.len() {
            let n: usize = if max < self.block.len() - self.block_pos {
                max
            } else {
                self.block.len() - self.block_pos
            };
            let mut out: Vec<u8> = Vec::new();
            append_range(&mut out, &self.block, self.block_pos, self.block_pos + n);
            proof {
                assert(out@ =~= self.block@.subrange(
                    self.block_pos as int,
                    self.block_pos + n as int,
                ));
            }
            self.block_pos = self.block_pos + n;
            return Ok(out);
        }
        loop
            invariant
                old(self).cursor() >= old(self).block_data().len(),
                self.inv(),
                self.source() == old(self).source(),
                self.cursor() >= self.block_data().len(),
                spec_read_some(old(self).source(), old(self).offset()) == spec_read_some(
                    self.source(),
                    self.offset(),
                ),
            decreases self.source().len() - self.offset(),
        {
            let ghost prev = *self;
            match self.read_block() {
                Err(e) => {
                    return Err(e);
                },
                Ok(None) => {
                    return Ok(Vec::new());
                },
                Ok(Some(len)) => {
                    proof {
                        lemma_read_block_advances(prev.source(), prev.offset());
                    }
                    if len > 0 {
                        let n: usize = if max < len {
                            max
                        } else {
                            len
                        };
                        let mut out: Vec<u8> = Vec::new();
                        append_range(&mut out, &self.block, 0, n);
                        proof {
                            assert(out@ =~= self.block@.subrange(0, n as int));
                        }
                        self.block_pos = n;
                        return Ok(out);
                    }
                },
            }
        }
    }

    /// Reads and concatenates every remaining logical byte: the unread tail
    /// of the current block, then every further block up to the end-of-file
    /// marker.
    pub fn read_to_end(&mut self) -> (r: Result<Vec<u8>, ReadError>)
        requires
            old(self).inv(),
        ensures
            final(self).inv(),
            final(self).source() == old(self).source(),
            r is Ok ==> Ok::<Seq<u8>, ReadError>(r->Ok_0@) == prepend(
                old(self).block_data().skip(old(self).cursor()),
                spec_read_all(old(self).source(), old(self).offset()),
            ),
            r is Err ==> Err::<Seq<u8>, ReadError>(r->Err_0) == prepend(
                old(self).block_data().skip(old(self).cursor()),
                spec_read_all(old(self).source(), old(self).offset()),
            ),
    {
        let mut out: Vec<u8> = Vec::new();
        append_range(&mut out, &self.block, self.block_pos, self.block.len());
        self.block_pos = self.block.len();
        proof {
            assert(out@ =~= old(self).block_data().skip(old(self).cursor()));
        }
        loop
            invariant
                self.inv(),
                self.source() == old(self).source(),
                prepend(
                    old(self).block_data().skip(old(self).cursor()),
                    spec_read_all(old(self).source(), old(self).offset()),
                ) == prepend(out@, spec_read_all(self.source(), self.offset())),
            decreases self.source().len() - self.offset(),
        {
            let ghost prev = *self;
            match self.read_block() {
                Err(e) => {
                    return Err(e);
                },
                Ok(None) => {
                    return Ok(out);
                },
                Ok(Some(_len)) => {
                    proof {
                        lemma_read_block_advances(prev.source(), prev.offset());
                        let data = spec_read_block(prev.source(), prev.offset())->Ok_0->Some_0.0;
                        assert(self.block_data().subrange(0, self.block_data().len() as int)
                            =~= data);
                        match spec_read_all(self.source(), self.offset()) {
                            Ok(rest) => {
                                assert(out@ + (data + rest) =~= (out@ + data) + rest);
                            },
                            Err(_) => {},
                        }
                    }
                    let block_len = self.block.len();
                    append_range(&mut out, &self.block, 0, block_len);
                },
            }
        }
    }

    /// The reader's current virtual position: the current block's start
    /// offset packed with the cursor, or the next block's offset once the
    /// current block is exhausted. `None` when the offset no longer fits
    /// 48 bits.
    pub fn virtual_position(&self) -> (r: Option<u64>)
        requires
            self.inv(),
        ensures
            r is Some <==> self.vpos_c() < virtual_position::MAX_COMPRESSED_OFFSET,
            r is Some ==> r->0 == virtual_position::vpos(self.vpos_c(), self.vpos_u()),
    {
        if self.block_pos < self.block.len() {
            virtual_position::pack(self.block_start as u64, self.block_pos as u16)
        } else {
            virtual_position::pack(self.pos as u64, 0)
        }
    }

    /// Repositions the reader at a virtual position: decodes the block that
    /// starts at its compressed offset and advances the cursor to its
    /// intra-block offset. Any target that does not address a valid block,
    /// or whose intra-block offset lies past the block's decompressed
    /// length, fails with `InvalidVirtualPosition`; the reader stays
    /// well-formed over the same source, and a later seek repositions it.
    pub fn seek(&mut self, target: u64) -> (r: Result<(), ReadError>)
        requires
            old(self).inv(),
        ensures
            final(self).inv(),
            final(self).source() == old(self).source(),
            ({
                let c = target / 65536;
                let u = target % 65536;
                if c > old(self).source().len() {
                    r == Err::<(), ReadError>(ReadError::InvalidVirtualPosition)
                } else {
                    match spec_read_block(old(self).source(), c as int) {
                        Err(_) => r == Err::<(), ReadError>(ReadError::InvalidVirtualPosition),
                        Ok(None) => if u == 0 {
                            &&& r is Ok
                            &&& final(self).block_data().len() == 0
                            &&& final(self).cursor() == 0
                            &&& final(self).offset() == c
                        } else {
                            r == Err::<(), ReadError>(ReadError::InvalidVirtualPosition)
                        },
                        Ok(Some((data, next))) => if u <= data.len() {
                            &&& r is Ok
                            &&& final(self).block_data() == data
                            &&& final(self).cursor() == u
                            &&& final(self).block_offset() == c
                            &&& final(self).offset() == next
                        } else {
                            r == Err::<(), ReadError>(ReadError::InvalidVirtualPosition)
                        },
                    }
                }
            }),
    {
        let (c64, u) = virtual_position::unpack(target);
        proof {
            virtual_position::lemma_unpack_of_pack(c64 as int, u as int, target as int);
        }
        if c64 > self.src.len() as u64 {
            return Err(ReadError::InvalidVirtualPosition);
        }
        let c: usize = c64 as usize;
        self.pos = c;
        match self.read_block() {
            Err(_) => Err(ReadError::InvalidVirtualPosition),
            Ok(None) => {
                if u == 0 {
                    Ok(())
                } else {
                    Err(ReadError::InvalidVirtualPosition)
                }
            },
            Ok(Some(len)) => {
                if u as usize <= len {
                    self.block_pos = u as usize;
                    Ok(())
                } else {
                    Err(ReadError::InvalidVirtualPosition)
                }
            },
        }
    }
}

} // verus!
