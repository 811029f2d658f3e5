//! Block-compressed, randomly seekable byte streams (BGZF) together with the
//! small record-format helpers layered on top of them: record flags, text
//! header records, and the header-record grammar of variant-call files.

pub mod block;
pub mod deflate;
pub mod fields;
pub mod flags;
pub mod hd;
pub mod platform;
pub mod program;
pub mod program_tag;
pub mod quality_score;
pub mod read_group;
pub mod reader;
pub mod reference_sequence;
pub mod reference_sequence_tag;
pub mod roundtrip;
pub mod sam_header;
pub mod sam_record;
pub mod stream;
pub mod text;
pub mod vcf;
pub mod virtual_position;
pub mod writer;
