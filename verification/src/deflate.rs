//! Trusted bindings to the deflate-family compressor, decompressor, and
//! CRC-32 implementation of the `flate2` crate.
//!
//! The compressed form of a byte run, the result of inflating a byte run,
//! and the CRC-32 of a byte run are each given an uninterpreted name; the
//! wrappers below are the only places that relate executable calls to those
//! names.

use vstd::prelude::*;

verus! {

/// The raw-deflate encoding of `data` at the default compression level.
pub uninterp spec fn deflate_of(data: Seq<u8>) -> Seq<u8>;

/// The result of inflating the raw-deflate stream `data`: the decompressed
/// bytes, or `None` when the decoder rejects `data`.
pub uninterp spec fn inflate_of(data: Seq<u8>) -> Option<Seq<u8>>;

/// The CRC-32 checksum of `data`.
pub uninterp spec fn crc32_of(data: Seq<u8>) -> u32;

/// Relies on `flate2::write::DeflateEncoder` (default compression level):
/// the emitted raw-deflate bytes are a function of the input alone, and
/// inflating them yields back exactly the input. Writing into a `Vec` sink
/// cannot fail, so the encoder reports no error.
#[verifier::external_body]
pub(crate) fn deflate_compress(data: &[u8]) -> (r: Vec<u8>)
    ensures
        r@ == deflate_of(data@),
        inflate_of(r@) == Some(data@),
{
    let mut encoder =
        flate2::write::DeflateEncoder::new(Vec::new(), flate2::Compression::default());
    let _ = std::io::Write::write_all(&mut encoder, data);
    encoder.finish().expect("compressing into a Vec sink cannot fail")
}

/// Relies on `flate2::read::DeflateDecoder`: inflating is a function of the
/// input bytes alone, and input on which the decoder fails is reported as an
/// error rather than decoded to arbitrary bytes.
#[verifier::external_body]
pub(crate) fn deflate_decompress(data: &[u8]) -> (r: Option<Vec<u8>>)
    ensures
        r is Some <==> inflate_of(data@) is Some,
        r is Some ==> r->0@ == inflate_of(data@)->0,
{
    let mut decoder = flate2::read::DeflateDecoder::new(data);
    let mut decompressed = Vec::new();
    match std::io::Read::read_to_end(&mut decoder, &mut decompressed) {
        Ok(_) => Some(decompressed),
        Err(_) => None,
    }
}

/// Relies on `flate2::Crc`: the CRC-32 of a byte run is a function of the
/// bytes alone.
#[verifier::external_body]
pub(crate) fn crc32_sum(data: &[u8]) -> (r: u32)
    ensures
        r == crc32_of(data@),
{
    let mut crc = flate2::Crc::new();
    crc.update(data);
    crc.sum()
}

} // verus!
