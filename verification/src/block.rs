//! Per-block framing: the fixed-layout block header (a gzip member header
//! whose extra field carries the total block size) and the 8-byte trailer
//! (CRC-32 of the uncompressed bytes, then their length), both little-endian.

use vstd::prelude::*;

verus! {

/// Size in bytes of the header this library writes: the 12 fixed bytes plus
/// one 6-byte extra field holding the block-size subfield.
pub const BGZF_HEADER_SIZE: usize = 18;

/// Size in bytes of a block trailer.
pub const TRAILER_SIZE: usize = 8;

/// Largest compressed payload a block can carry: the 16-bit total-block-size
/// field caps `payload + header + trailer` at 65536 bytes on disk.
pub const MAX_CDATA_LEN: usize = 65510;

/// Largest number of uncompressed bytes a block may represent.
pub const MAX_UNCOMPRESSED_LEN: usize = 65536;

/// An error raised while decoding a block or seeking.
#[derive(Clone, Copy, Debug, PartialEq, Eq, Structural)]
pub enum ReadError {
    /// Magic bytes, flags, or the reserved extra subfield do not match the
    /// expected layout: the stream is not of this format.
    InvalidHeader,
    /// The recomputed checksum or decompressed length disagrees with the
    /// trailer, or the compressed payload does not inflate.
    Corruption,
    /// Fewer bytes are available than a declared field requires.
    TruncatedStream,
    /// A seek target does not address a valid block, or its intra-block
    /// offset lies past the end of the decoded block.
    InvalidVirtualPosition,
}

/// The two little-endian bytes of a 16-bit value.
pub open spec fn le16_bytes(v: u16) -> Seq<u8> {
    seq![(v % 256) as u8, (v / 256) as u8]
}

/// The four little-endian bytes of a 32-bit value.
pub open spec fn le32_bytes(v: u32) -> Seq<u8> {
    seq![
        (v % 256) as u8,
        ((v / 256) % 256) as u8,
        ((v / 65536) % 256) as u8,
        (v / 16777216) as u8,
    ]
}

/// The 16-bit value stored little-endian at `pos`.
pub open spec fn le16_at(src: Seq<u8>, pos: int) -> int {
    src[pos] + src[pos + 1] * 256
}

/// The 32-bit value stored little-endian at `pos`.
pub open spec fn le32_at(src: Seq<u8>, pos: int) -> int {
    src[pos] + src[pos + 1] * 256 + src[pos + 2] * 65536 + src[pos + 3] * 16777216
}

/// The 18 header bytes for a block whose compressed payload has length
/// `cdata_len`: gzip magic, deflate method, the extra-field flag, zeroed
/// modification time, no extra flags, unknown operating system, a 6-byte
/// extra field with the reserved `BC` subfield, and the stored total block
/// size minus one.
pub open spec fn header_bytes(cdata_len: int) -> Seq<u8> {
    seq![
        0x1fu8, 0x8bu8, 0x08u8, 0x04u8,
        0x00u8, 0x00u8, 0x00u8, 0x00u8,
        0x00u8, 0xffu8,
        0x06u8, 0x00u8,
        0x42u8, 0x43u8, 0x02u8, 0x00u8,
    ] + le16_bytes((cdata_len + BGZF_HEADER_SIZE + TRAILER_SIZE - 1) as u16)
}

/// The 8 trailer bytes: checksum, then uncompressed length.
pub open spec fn trailer_bytes(checksum: u32, uncompressed_size: u32) -> Seq<u8> {
    le32_bytes(checksum) + le32_bytes(uncompressed_size)
}

/// The fixed 28-byte end-of-file marker: a complete, valid block holding an
/// empty deflate stream, zero checksum, and zero length.
pub open spec fn eof_bytes() -> Seq<u8> {
    header_bytes(2) + seq![0x03u8, 0x00u8] + trailer_bytes(0, 0)
}

/// Appends the block header for a compressed payload of `cdata_len` bytes.
pub fn write_header(dst: &mut Vec<u8>, cdata_len: usize)
    requires
        cdata_len <= MAX_CDATA_LEN,
    ensures
        final(dst)@ == old(dst)@ + header_bytes(cdata_len as int),
{
    dst.push(0x1f);
    dst.push(0x8b);
    dst.push(0x08);
    dst.push(0x04);
    dst.push(0x00);
    dst.push(0x00);
    dst.push(0x00);
    dst.push(0x00);
    dst.push(0x00);
    dst.push(0xff);
    dst.push(0x06);
    dst.push(0x00);
    dst.push(0x42);
    dst.push(0x43);
    dst.push(0x02);
    dst.push(0x00);
    let bsize: u16 = (cdata_len + BGZF_HEADER_SIZE + TRAILER_SIZE - 1) as u16;
    dst.push((bsize % 256) as u8);
    dst.push((bsize / 256) as u8);
    proof {
        assert(dst@ =~= old(dst)@ + header_bytes(cdata_len as int));
    }
}

/// Appends the block trailer: the checksum of the uncompressed bytes and
/// their count, both little-endian.
pub fn write_trailer(dst: &mut Vec<u8>, checksum: u32, uncompressed_size: u32)
    ensures
        final(dst)@ == old(dst)@ + trailer_bytes(checksum, uncompressed_size),
{
    dst.push((checksum % 256) as u8);
    dst.push(((checksum / 256) % 256) as u8);
    dst.push(((checksum / 65536) % 256) as u8);
    dst.push((checksum / 16777216) as u8);
    dst.push((uncompressed_size % 256) as u8);
    dst.push(((uncompressed_size / 256) % 256) as u8);
    dst.push(((uncompressed_size / 65536) % 256) as u8);
    dst.push((uncompressed_size / 16777216) as u8);
    proof {
        assert(dst@ =~= old(dst)@ + trailer_bytes(checksum, uncompressed_size));
    }
}

/// Appends the fixed 28-byte end-of-file marker.
pub fn write_eof(dst: &mut Vec<u8>)
    ensures
        final(dst)@ == old(dst)@ + eof_bytes(),
{
    write_header(dst, 2);
    dst.push(0x03);
    dst.push(0x00);
    write_trailer(dst, 0, 0);
    proof {
        assert(dst@ =~= old(dst)@ + eof_bytes());
    }
}

/// The stored block size found by scanning an extra field for the reserved
/// `BC` subfield: `None` when the subfield is missing or malformed.
pub open spec fn find_bsize(extra: Seq<u8>) -> Option<u16>
    decreases extra.len(),
{
    if extra.len() < 4 {
        None
    } else {
        let slen = extra[2] + extra[3] * 256;
        if extra[0] == 0x42 && extra[1] == 0x43 && slen == 2 {
            if extra.len() >= 6 {
                Some((extra[4] + extra[5] * 256) as u16)
            } else {
                None
            }
        } else if 4 + slen <= extra.len() {
            find_bsize(extra.skip(4 + slen))
        } else {
            None
        }
    }
}

/// What decoding a block header at `pos` yields: the stored total block size
/// minus one together with the header's length in bytes, or the error. The
/// magic bytes and the extra-field flag are verified, and the reserved
/// subfield is located by its id inside the extra field.
pub open spec fn spec_decode_header(src: Seq<u8>, pos: int) -> Result<(u16, int), ReadError> {
    if pos + 12 > src.len() {
        Err(ReadError::TruncatedStream)
    } else if src[pos] != 0x1f || src[pos + 1] != 0x8b || src[pos + 3] & 0x04 == 0 {
        Err(ReadError::InvalidHeader)
    } else {
        let xlen = le16_at(src, pos + 10);
        if pos + 12 + xlen > src.len() {
            Err(ReadError::TruncatedStream)
        } else {
            match find_bsize(src.subrange(pos + 12, pos + 12 + xlen)) {
                Some(bsize) => Ok((bsize, 12 + xlen)),
                None => Err(ReadError::InvalidHeader),
            }
        }
    }
}

/// What decoding a block trailer at `pos` yields: checksum and uncompressed
/// length, or a truncation error.
pub open spec fn spec_decode_trailer(src: Seq<u8>, pos: int) -> Result<(u32, u32), ReadError> {
    if pos + 8 > src.len() {
        Err(ReadError::TruncatedStream)
    } else {
        Ok((le32_at(src, pos) as u32, le32_at(src, pos + 4) as u32))
    }
}

/// Scans the extra field at `src[base .. base + xlen]` for the reserved
/// subfield and returns the stored block size.
fn scan_bsize(src: &Vec<u8>, base: usize, xlen: usize) -> (r: Option<u16>)
    requires
        base + xlen <= src.len(),
        xlen < 65536,
    ensures
        r == find_bsize(src@.subrange(base as int, base + xlen as int)),
{
    let ghost extra: Seq<u8> = src@.subrange(base as int, base + xlen as int);
    proof {
        assert(extra.skip(0) =~= extra);
    }
    let mut i: usize = 0;
    while i + 4 <= xlen
        invariant
            i <= xlen,
            xlen < 65536,
            base + xlen <= src.len(),
            extra == src@.subrange(base as int, base + xlen as int),
            find_bsize(extra) == find_bsize(extra.skip(i as int)),
        decreases xlen - i,
    {
        let si1: u8 = src[base + i];
        let si2: u8 = src[base + i + 1];
        let slen: usize = src[base + i + 2] as usize + src[base + i + 3] as usize * 256;
        if si1 == 0x42 && si2 == 0x43 && slen == 2 {
            if i + 6 <= xlen {
                let bsize: u16 = src[base + i + 4] as u16 + src[base + i + 5] as u16 * 256;
                return Some(bsize);
            } else {
                return None;
            }
        } else if 4 + slen <= xlen - i {
            proof {
                assert(extra.skip(i as int).skip(4 + slen as int)
                    =~= extra.skip(i + 4 + slen as int));
            }
            i = i + 4 + slen;
        } else {
            return None;
        }
    }
    None
}

/// Decodes the block header at `pos`: verifies the magic bytes and the
/// extra-field flag, locates the reserved subfield, and returns the stored
/// total block size minus one together with the header length.
pub fn decode_header(src: &Vec<u8>, pos: usize) -> (r: Result<(u16, usize), ReadError>)
    requires
        pos <= src.len(),
    ensures
        r == match spec_decode_header(src@, pos as int) {
            Ok((bsize, hlen)) => Ok::<(u16, usize), ReadError>((bsize, hlen as usize)),
            Err(e) => Err::<(u16, usize), ReadError>(e),
        },
{
    if src.len() - pos < 12 {
        return Err(ReadError::TruncatedStream);
    }
    if src[pos] != 0x1f || src[pos + 1] != 0x8b || src[pos + 3] & 0x04 == 0 {
        return Err(ReadError::InvalidHeader);
    }
    let xlen: usize = src[pos + 10] as usize + src[pos + 11] as usize * 256;
    if xlen > src.len() - (pos + 12) {
        return Err(ReadError::TruncatedStream);
    }
    match scan_bsize(src, pos + 12, xlen) {
        Some(bsize) => Ok((bsize, 12 + xlen)),
        None => Err(ReadError::InvalidHeader),
    }
}

/// Decodes the block trailer at `pos`: the stored checksum and uncompressed
/// length. Validation against recomputed values is the reader's job.
pub fn decode_trailer(src: &Vec<u8>, pos: usize) -> (r: Result<(u32, u32), ReadError>)
    requires
        pos <= src.len(),
    ensures
        r == spec_decode_trailer(src@, pos as int),
{
    if src.len() - pos < 8 {
        return Err(ReadError::TruncatedStream);
    }
    let checksum: u32 = src[pos] as u32
        + src[pos + 1] as u32 * 256
        + src[pos + 2] as u32 * 65536
        + src[pos + 3] as u32 * 16777216;
    let uncompressed_size: u32 = src[pos + 4] as u32
        + src[pos + 5] as u32 * 256
        + src[pos + 6] as u32 * 65536
        + src[pos + 7] as u32 * 16777216;
    Ok((checksum, uncompressed_size))
}

} // verus!
