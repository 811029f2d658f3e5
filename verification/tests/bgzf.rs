//! Tests of the block-compressed stream: writer, reader, virtual positions.

use noodles::block::ReadError;
use noodles::fields::Fields;
use noodles::reader::Reader;
use noodles::virtual_position;
use noodles::writer::{WriteError, Writer};

const BGZF_EOF: &[u8] = &[
    0x1f, 0x8b, 0x08, 0x04, 0x00, 0x00, 0x00, 0x00, 0x00, 0xff, 0x06, 0x00, 0x42, 0x43, 0x02,
    0x00, 0x1b, 0x00, 0x03, 0x00, 0x00, 0x00, 0x00, 0x00, 0x00, 0x00, 0x00, 0x00,
];

/// An independent CRC-32 (IEEE, reflected) implementation to hold the
/// library's checksums against.
fn reference_crc32(data: &[u8]) -> u32 {
    let mut crc: u32 = 0xffff_ffff;
    for &byte in data {
        crc ^= byte as u32;
        for _ in 0..8 {
            if crc & 1 == 1 {
                crc = (crc >> 1) ^ 0xedb8_8320;
            } else {
                crc >>= 1;
            }
        }
    }
    !crc
}

#[test]
fn test_finish() {
    let mut writer = Writer::new(Vec::new());
    writer.write_all(b"noodles").unwrap();
    writer.finish().unwrap();

    let data = writer.get_ref();
    let eof_start = data.len() - BGZF_EOF.len();

    assert_eq!(&data[eof_start..], BGZF_EOF);
}

#[test]
fn finish_on_empty_input_writes_exactly_the_marker() {
    let mut writer = Writer::new(Vec::new());
    writer.finish().unwrap();
    assert_eq!(writer.get_ref().as_slice(), BGZF_EOF);
}

#[test]
fn round_trip_empty() {
    let mut writer = Writer::new(Vec::new());
    writer.finish().unwrap();
    let mut reader = Reader::new(writer.get_ref().clone());
    assert_eq!(reader.read_to_end().unwrap(), Vec::<u8>::new());
}

#[test]
fn round_trip_noodles() {
    let mut writer = Writer::new(Vec::new());
    writer.write_all(b"noodles").unwrap();
    writer.finish().unwrap();
    let data = writer.get_ref().clone();

    // The final 28 bytes are exactly the end-of-file marker.
    assert_eq!(&data[data.len() - 28..], BGZF_EOF);

    // What precedes them is exactly one block decoding back to the input.
    let mut fields = Fields::new(Reader::new(data));
    assert_eq!(fields.next().unwrap().unwrap(), b"noodles".to_vec());
    assert!(fields.next().is_none());
}

#[test]
fn trailer_holds_the_crc32_of_the_uncompressed_bytes() {
    let mut writer = Writer::new(Vec::new());
    writer.write_all(b"noodles").unwrap();
    writer.finish().unwrap();
    let data = writer.get_ref();

    // One data block then the marker: its trailer is the 8 bytes before the
    // marker, and its first four bytes hold the checksum little-endian.
    let trailer = &data[data.len() - 28 - 8..data.len() - 28];
    let stored = u32::from_le_bytes([trailer[0], trailer[1], trailer[2], trailer[3]]);
    assert_eq!(stored, reference_crc32(b"noodles"));

    let stored_len = u32::from_le_bytes([trailer[4], trailer[5], trailer[6], trailer[7]]);
    assert_eq!(stored_len, 7);
}

#[test]
fn block_counts_follow_the_input_size() {
    // 65536 bytes of a repeating pattern, then one more byte: exactly two
    // data blocks (65536 bytes, then 1 byte) ahead of the marker.
    let mut data = Vec::new();
    for i in 0..65537usize {
        data.push((i % 251) as u8);
    }
    let mut writer = Writer::new(Vec::new());
    writer.write_all(&data).unwrap();
    writer.finish().unwrap();

    let mut fields = Fields::new(Reader::new(writer.get_ref().clone()));
    let first = fields.next().unwrap().unwrap();
    assert_eq!(first.len(), 65536);
    assert_eq!(first, data[..65536].to_vec());
    let second = fields.next().unwrap().unwrap();
    assert_eq!(second, vec![data[65536]]);
    assert!(fields.next().is_none());
}

#[test]
fn truncated_header_reports_truncation() {
    // Fewer than 16 header bytes: a truncation error, not a panic and not a
    // silent empty result.
    let mut reader = Reader::new(vec![0x1f, 0x8b, 0x08, 0x04, 0x00, 0x00, 0x00, 0x00, 0x00, 0xff]);
    assert_eq!(reader.read_block(), Err(ReadError::TruncatedStream));

    let mut reader = Reader::new(Vec::new());
    assert_eq!(reader.read_to_end(), Err(ReadError::TruncatedStream));
}

#[test]
fn bad_magic_reports_an_invalid_header() {
    let mut reader = Reader::new(vec![0xff; 64]);
    assert_eq!(reader.read_block(), Err(ReadError::InvalidHeader));
}

#[test]
fn flipping_any_payload_bit_reports_corruption() {
    let mut writer = Writer::new(Vec::new());
    writer.write_all(b"noodles").unwrap();
    writer.finish().unwrap();
    let data = writer.get_ref().clone();

    // The single data block's compressed payload sits between its 18-byte
    // header and its 8-byte trailer; the marker takes the final 28 bytes.
    let payload_start = 18;
    let payload_end = data.len() - 28 - 8;
    assert!(payload_start < payload_end);
    let mut corruption_reports = 0usize;
    for byte_index in payload_start..payload_end {
        for bit in 0..8 {
            let mut corrupted = data.clone();
            corrupted[byte_index] ^= 1 << bit;
            let mut reader = Reader::new(corrupted);
            // Never a silently wrong result: either the corruption is
            // reported, or the flipped bit was compressor padding and the
            // decoded bytes are exactly the original ones.
            match reader.read_to_end() {
                Err(e) => {
                    assert_eq!(e, ReadError::Corruption, "byte {byte_index} bit {bit}");
                    corruption_reports += 1;
                }
                Ok(decoded) => {
                    assert_eq!(decoded, b"noodles".to_vec(), "byte {byte_index} bit {bit}");
                }
            }
        }
    }
    assert!(corruption_reports > 0);
}

#[test]
fn write_signals_backpressure_when_the_block_is_full() {
    let big = vec![7u8; 65536];
    let mut writer = Writer::new(Vec::new());
    assert_eq!(writer.write(&big).unwrap(), 65536);
    assert_eq!(writer.write(b"x"), Err(WriteError::Backpressure));
    assert_eq!(writer.write(b"x").unwrap(), 1);
    writer.finish().unwrap();

    let mut reader = Reader::new(writer.get_ref().clone());
    let mut expected = big.clone();
    expected.push(b'x');
    assert_eq!(reader.read_to_end().unwrap(), expected);
}

#[test]
fn virtual_positions_grow_with_the_logical_offset() {
    let mut data = Vec::new();
    for i in 0..150_000usize {
        data.push((i % 253) as u8);
    }
    let mut writer = Writer::new(Vec::new());
    let mut positions = Vec::new();
    positions.push(writer.virtual_position().unwrap());
    for chunk in data.chunks(10_000) {
        writer.write_all(chunk).unwrap();
        if let Some(p) = writer.virtual_position() {
            positions.push(p);
        }
    }
    for pair in positions.windows(2) {
        assert!(pair[0] < pair[1], "{} !< {}", pair[0], pair[1]);
    }
}

#[test]
fn seeking_to_a_recorded_position_resumes_the_stream() {
    let mut data = Vec::new();
    for i in 0..150_000usize {
        data.push((i % 249) as u8);
    }
    let mut writer = Writer::new(Vec::new());
    let mut marks = Vec::new();
    let mut offset = 0usize;
    for chunk in data.chunks(10_000) {
        if let Some(p) = writer.virtual_position() {
            marks.push((offset, p));
        }
        writer.write_all(chunk).unwrap();
        offset += chunk.len();
    }
    writer.finish().unwrap();
    let stream = writer.get_ref().clone();

    assert!(marks.len() > 2);
    for &(logical, vpos) in &marks {
        let mut reader = Reader::new(stream.clone());
        reader.seek(vpos).unwrap();
        assert_eq!(reader.read_to_end().unwrap(), data[logical..].to_vec());
    }
}

#[test]
fn reading_in_small_chunks_matches_the_input() {
    let mut data = Vec::new();
    for i in 0..70_000usize {
        data.push((i % 241) as u8);
    }
    let mut writer = Writer::new(Vec::new());
    writer.write_all(&data).unwrap();
    writer.finish().unwrap();

    let mut reader = Reader::new(writer.get_ref().clone());
    let mut collected = Vec::new();
    loop {
        let chunk = reader.read(777).unwrap();
        if chunk.is_empty() {
            break;
        }
        collected.extend_from_slice(&chunk);
    }
    assert_eq!(collected, data);
}

#[test]
fn seeking_into_garbage_reports_an_invalid_position() {
    let mut writer = Writer::new(Vec::new());
    writer.write_all(b"plenty of bytes to have a block").unwrap();
    writer.finish().unwrap();
    let mut reader = Reader::new(writer.get_ref().clone());

    // An offset in the middle of the block is not a block header.
    let bogus = virtual_position::pack(3, 0).unwrap();
    assert_eq!(reader.seek(bogus), Err(ReadError::InvalidVirtualPosition));
}

#[test]
fn pack_and_unpack_are_inverses() {
    let packed = virtual_position::pack(0x0000_1234_5678_9abc, 0x0def).unwrap();
    assert_eq!(packed, (0x0000_1234_5678_9abc << 16) | 0x0def);
    assert_eq!(virtual_position::unpack(packed), (0x0000_1234_5678_9abc, 0x0def));

    assert_eq!(virtual_position::pack(1 << 48, 0), None);
    assert_eq!(virtual_position::unpack(0), (0, 0));
}

#[test]
fn incompressible_input_reports_an_oversized_block() {
    // A full block of pseudo-random bytes compresses to more than the
    // 16-bit on-disk size field can carry, which the writer must report
    // rather than emit a malformed block.
    let mut state: u32 = 0x9e37_79b9;
    let mut data = Vec::with_capacity(65536);
    for _ in 0..65536 {
        state ^= state << 13;
        state ^= state >> 17;
        state ^= state << 5;
        data.push((state >> 24) as u8);
    }
    let mut writer = Writer::new(Vec::new());
    assert_eq!(writer.write(&data).unwrap(), 65536);
    assert_eq!(writer.finish(), Err(WriteError::OversizedBlock));
}

#[test]
fn compression_shrinks_repetitive_input() {
    let data = vec![42u8; 10_000];
    let mut writer = Writer::new(Vec::new());
    writer.write_all(&data).unwrap();
    writer.finish().unwrap();
    // One block plus the marker, far smaller than the input: the payload
    // really went through the compressor.
    assert!(writer.get_ref().len() < data.len() / 10);
}
