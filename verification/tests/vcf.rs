//! Tests of the header-record grammar of variant-call files.

use noodles::quality_score::ParseError as QualityScoreParseError;
use noodles::vcf::{parse, ParseError, Value};

#[test]
fn quality_score_error_keeps_the_input() {
    let e = QualityScoreParseError::new(String::from("ndls"));
    assert_eq!(e.invalid_input(), "ndls");
}

#[test]
fn test_parse() {
    let (_, (key, value)) = parse("##fileformat=VCFv4.3").unwrap();
    assert_eq!(key, "fileformat");
    assert_eq!(value, Value::String(String::from("VCFv4.3")));

    let (_, (key, value)) = parse("##fileDate=20200502").unwrap();
    assert_eq!(key, "fileDate");
    assert_eq!(value, Value::String(String::from("20200502")));

    let (_, (key, value)) = parse("##reference=file:///tmp/ref.fasta").unwrap();
    assert_eq!(key, "reference");
    assert_eq!(value, Value::String(String::from("file:///tmp/ref.fasta")));

    let (_, (key, value)) = parse(
        r#"##INFO=<ID=NS,Number=1,Type=Integer,Description="Number of samples with data">"#,
    )
    .unwrap();
    assert_eq!(key, "INFO");
    assert_eq!(
        value,
        Value::Struct(vec![
            (String::from("ID"), String::from("NS")),
            (String::from("Number"), String::from("1")),
            (String::from("Type"), String::from("Integer")),
            (
                String::from("Description"),
                String::from("Number of samples with data")
            ),
        ])
    );

    assert!(parse("").is_err());
    assert!(parse("fileformat=VCFv4.3").is_err());
    assert!(parse("#fileformat=VCFv4.3").is_err());
}

#[test]
fn error_kinds_name_what_is_missing() {
    assert_eq!(parse("squiggle").unwrap_err(), ParseError::MissingPrefix);
    assert_eq!(parse("##nodelimiter").unwrap_err(), ParseError::MissingDelimiter);
}

#[test]
fn quoted_values_undo_their_escapes() {
    let (rest, (key, value)) = parse(r#"##FILTER=<ID=q10,Description="a \"b\" \\ c">"#).unwrap();
    assert_eq!(rest, "");
    assert_eq!(key, "FILTER");
    assert_eq!(
        value,
        Value::Struct(vec![
            (String::from("ID"), String::from("q10")),
            (String::from("Description"), String::from(r#"a "b" \ c"#)),
        ])
    );
}

#[test]
fn a_malformed_structure_falls_back_to_a_plain_string() {
    let (rest, (key, value)) = parse("##INFO=<ID=NS,oops").unwrap();
    assert_eq!(rest, "");
    assert_eq!(key, "INFO");
    assert_eq!(value, Value::String(String::from("<ID=NS,oops")));
}
