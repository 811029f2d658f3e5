//! Tests of the text-header records: tags, platforms, reference sequences,
//! and the whole header.

use noodles::platform::{ParseError as PlatformParseError, Platform};
use noodles::program_tag::Tag;
use noodles::reference_sequence::ReferenceSequence;
use noodles::reference_sequence_tag::Tag as ReferenceSequenceTag;
use noodles::sam_header::Header;

#[test]
fn tag_test_from_str() {
    assert_eq!("ID".parse::<Tag>().unwrap(), Tag::Id);
    assert_eq!("PN".parse::<Tag>().unwrap(), Tag::Name);
    assert_eq!("CL".parse::<Tag>().unwrap(), Tag::CommandLine);
    assert_eq!("PP".parse::<Tag>().unwrap(), Tag::PreviousId);
    assert_eq!("DS".parse::<Tag>().unwrap(), Tag::Description);
    assert_eq!("VN".parse::<Tag>().unwrap(), Tag::Version);

    assert_eq!("ND".parse::<Tag>().unwrap(), Tag::Other(String::from("ND")));

    assert!("".parse::<Tag>().is_err());
    assert!("NDL".parse::<Tag>().is_err());
}

#[test]
fn platform_test_fmt() {
    assert_eq!(Platform::Capillary.to_string(), "CAPILLARY");
    assert_eq!(Platform::DnbSeq.to_string(), "DNBSEQ");
    assert_eq!(Platform::LS454.to_string(), "LS454");
    assert_eq!(Platform::Illumina.to_string(), "ILLUMINA");
    assert_eq!(Platform::Solid.to_string(), "SOLID");
    assert_eq!(Platform::Helicos.to_string(), "HELICOS");
    assert_eq!(Platform::IonTorrent.to_string(), "IONTORRENT");
    assert_eq!(Platform::Ont.to_string(), "ONT");
    assert_eq!(Platform::PacBio.to_string(), "PACBIO");
}

#[test]
fn platform_test_from_str() {
    assert_eq!("CAPILLARY".parse(), Ok(Platform::Capillary));
    assert_eq!("DNBSEQ".parse(), Ok(Platform::DnbSeq));
    assert_eq!("LS454".parse(), Ok(Platform::LS454));
    assert_eq!("ILLUMINA".parse(), Ok(Platform::Illumina));
    assert_eq!("SOLID".parse(), Ok(Platform::Solid));
    assert_eq!("HELICOS".parse(), Ok(Platform::Helicos));
    assert_eq!("IONTORRENT".parse(), Ok(Platform::IonTorrent));
    assert_eq!("ONT".parse(), Ok(Platform::Ont));
    assert_eq!("PACBIO".parse(), Ok(Platform::PacBio));

    assert_eq!("".parse::<Platform>(), Err(PlatformParseError::Empty));
    assert_eq!("NOODLES".parse::<Platform>(), Err(PlatformParseError::Invalid));
    assert_eq!("Illumina".parse::<Platform>(), Err(PlatformParseError::Invalid));
    assert_eq!("illumina".parse::<Platform>(), Err(PlatformParseError::Invalid));
}

#[test]
fn reference_sequence_test_fmt() {
    let mut reference_sequence = ReferenceSequence::new(String::from("sq0"), 13);

    reference_sequence.insert(
        ReferenceSequenceTag::Md5Checksum,
        String::from("d7eba311421bbc9d3ada44709dd61534"),
    );

    let actual = reference_sequence.to_string();
    let expected = "@SQ\tSN:sq0\tLN:13\tM5:d7eba311421bbc9d3ada44709dd61534";

    assert_eq!(actual, expected);
}

#[test]
fn test_from_str_with_missing_name() {
    let fields = [
        (String::from("LN"), String::from("1")),
        (
            String::from("M5"),
            String::from("d7eba311421bbc9d3ada44709dd61534"),
        ),
    ];

    assert!(ReferenceSequence::try_from(&fields[..]).is_err());
}

#[test]
fn test_from_str_with_missing_length() {
    let fields = [
        (String::from("SN"), String::from("sq0")),
        (
            String::from("M5"),
            String::from("d7eba311421bbc9d3ada44709dd61534"),
        ),
    ];

    assert!(ReferenceSequence::try_from(&fields[..]).is_err());
}

#[test]
fn test_from_str_with_missing_name_and_length() {
    let fields = [(
        String::from("M5"),
        String::from("d7eba311421bbc9d3ada44709dd61534"),
    )];

    assert!(ReferenceSequence::try_from(&fields[..]).is_err());
}

#[test]
fn reference_sequence_rejects_a_bad_length() {
    let fields = [
        (String::from("SN"), String::from("sq0")),
        (String::from("LN"), String::from("thirteen")),
    ];
    assert!(ReferenceSequence::try_from(&fields[..]).is_err());
}

#[test]
fn reference_sequence_accessors_and_insert_replace() {
    let fields = [
        (String::from("SN"), String::from("sq0")),
        (String::from("LN"), String::from("13")),
        (String::from("M5"), String::from("aaa")),
    ];
    let mut rs = ReferenceSequence::try_from(&fields[..]).unwrap();
    assert_eq!(rs.name(), "sq0");
    assert_eq!(rs.len(), 13);
    assert_eq!(
        rs.get(&ReferenceSequenceTag::Md5Checksum),
        Some(&String::from("aaa"))
    );
    let previous = rs.insert(ReferenceSequenceTag::Md5Checksum, String::from("bbb"));
    assert_eq!(previous, Some(String::from("aaa")));
    assert_eq!(
        rs.get(&ReferenceSequenceTag::Md5Checksum),
        Some(&String::from("bbb"))
    );
    assert_eq!(rs.fields().len(), 1);
}

#[test]
fn mutable_accessors_alias_their_fields() {
    let mut rs = ReferenceSequence::new(String::from("sq0"), 13);
    *rs.len_mut() = 21;
    assert_eq!(rs.len(), 21);
    assert_eq!(rs.name(), "sq0");
    rs.name_mut().push_str("x");
    assert_eq!(rs.name(), "sq0x");
    assert_eq!(rs.len(), 21);
}

#[test]
fn header_test_from_str() {
    let raw_header = "\
@HD\tVN:1.6\tSO:coordinate
@SQ\tSN:sq0\tLN:1
@SQ\tSN:sq1\tLN:2
@RG\tID:rg0
@PG\tID:pg0\tPN:noodles
@CO\tnoodles_sam::header::tests::test_from_str
";

    let header: Header = raw_header.parse().unwrap();

    assert_eq!(header.reference_sequences().len(), 2);

    assert_eq!(header.read_groups().len(), 1);

    assert_eq!(header.programs().len(), 1);

    assert_eq!(header.comments().len(), 1);
    assert_eq!(
        &header.comments()[0],
        "noodles_sam::header::tests::test_from_str"
    );
}

#[test]
fn carriage_return_line_endings_read_the_same() {
    let raw_header = "@HD\tVN:1.6\r\n@SQ\tSN:sq0\tLN:8\r\n@CO\tnote\r\n";
    let header: Header = raw_header.parse().unwrap();
    assert_eq!(header.header().version(), "1.6");
    assert_eq!(header.reference_sequences()[0].name(), "sq0");
    assert_eq!(header.reference_sequences()[0].len(), 8);
    assert_eq!(&header.comments()[0], "note");
}

#[test]
fn header_rejects_an_unknown_record_kind() {
    assert!("@XX\tSN:sq0".parse::<Header>().is_err());
}

#[test]
fn a_field_without_a_colon_is_rejected() {
    assert!(matches!(
        noodles::sam_record::parse_record("@SQ\tnocolon"),
        Err(noodles::sam_record::ParseError::InvalidField(_))
    ));
}

#[test]
fn a_file_level_record_without_a_version_is_rejected() {
    assert!("@HD\tSO:coordinate".parse::<Header>().is_err());
}

#[test]
fn records_without_an_id_are_rejected() {
    assert!("@RG\tSM:sample0".parse::<Header>().is_err());
    assert!("@PG\tPN:tool".parse::<Header>().is_err());
}

#[test]
fn header_records_expose_their_fields() {
    let raw_header = "@HD\tVN:1.6\n@SQ\tSN:sq0\tLN:8\n@RG\tID:rg0\n@PG\tID:pg0\n";
    let header: Header = raw_header.parse().unwrap();
    assert_eq!(header.header().version(), "1.6");
    assert_eq!(header.reference_sequences()[0].name(), "sq0");
    assert_eq!(header.reference_sequences()[0].len(), 8);
    assert_eq!(header.read_groups()[0].id(), "rg0");
    assert_eq!(header.programs()[0].id(), "pg0");
}
