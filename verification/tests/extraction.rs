use rtqc::FqError;
use rtqc::fastq::{FastqEntry, extract_entry, parse_header, parse_u32, trim_str};

#[test]
fn header_with_run_read_and_channel() {
    let e = parse_header("file1.fastq", "read123 runid=abc read=7 ch=2").unwrap();
    assert_eq!(e.accession, Some(String::from("read123")));
    assert_eq!(e.file_of_origin, Some(String::from("file1.fastq")));
    assert_eq!(e.runid, Some(String::from("abc")));
    assert_eq!(e.read, Some(7));
    assert_eq!(e.ch, Some(2));
    assert_eq!(e.start_time, None);
    assert_eq!(e.flow_cell_id, None);
    assert_eq!(e.protocol_group_id, None);
    assert_eq!(e.sample_id, None);
    assert_eq!(e.parent_read_id, None);
    assert_eq!(e.basecall_model_version_id, None);
}

#[test]
fn header_with_all_string_features() {
    let h = "acc runid=r start_time=2020-01-01T00:00:00Z flow_cell_id=FC1 \
             protocol_group_id=PG sample_id=S1 parent_read_id=PR \
             basecall_model_version_id=m1";
    let e = parse_header("f.fastq", h).unwrap();
    assert_eq!(e.accession, Some(String::from("acc")));
    assert_eq!(e.start_time, Some(String::from("2020-01-01T00:00:00Z")));
    assert_eq!(e.flow_cell_id, Some(String::from("FC1")));
    assert_eq!(e.protocol_group_id, Some(String::from("PG")));
    assert_eq!(e.sample_id, Some(String::from("S1")));
    assert_eq!(e.parent_read_id, Some(String::from("PR")));
    assert_eq!(e.basecall_model_version_id, Some(String::from("m1")));
    assert_eq!(e.read, None);
    assert_eq!(e.ch, None);
}

#[test]
fn malformed_read_number_is_parse_error() {
    let r = parse_header("f", "read123 read=notanumber");
    assert_eq!(r, Err(FqError::ParseError));
}

#[test]
fn malformed_channel_is_parse_error() {
    let r = parse_header("f", "read123 read=1 ch=x2");
    assert_eq!(r, Err(FqError::ParseError));
}

#[test]
fn duplicate_key_last_occurrence_wins() {
    let e = parse_header("f", "acc runid=a runid=b").unwrap();
    assert_eq!(e.runid, Some(String::from("b")));
}

#[test]
fn value_keeps_later_equals_signs() {
    let e = parse_header("f", "acc runid=a=b").unwrap();
    assert_eq!(e.runid, Some(String::from("a=b")));
}

#[test]
fn empty_header_gives_empty_accession() {
    let e = parse_header("f", "").unwrap();
    assert_eq!(e.accession, Some(String::from("")));
    assert_eq!(e.runid, None);
}

#[test]
fn numeric_value_is_trimmed_before_parsing() {
    let e = parse_header("f", "acc read=\t42\t").unwrap();
    assert_eq!(e.read, Some(42));
}

#[test]
fn non_utf8_header_is_encoding_error() {
    let r = extract_entry("f", &[0xff, 0xfe, 0x20]);
    assert_eq!(r, Err(FqError::EncodingError));
}

#[test]
fn utf8_header_bytes_are_decoded() {
    let header = "r\u{e9}sum\u{e9} runid=\u{3b1} ch=5";
    let e = extract_entry("f", header.as_bytes()).unwrap();
    assert_eq!(e.accession, Some(String::from("r\u{e9}sum\u{e9}")));
    assert_eq!(e.runid, Some(String::from("\u{3b1}")));
    assert_eq!(e.ch, Some(5));
}

#[test]
fn parse_u32_accepts_plain_and_plus() {
    assert_eq!(parse_u32("0"), Some(0));
    assert_eq!(parse_u32("7"), Some(7));
    assert_eq!(parse_u32("+7"), Some(7));
    assert_eq!(parse_u32("4294967295"), Some(u32::MAX));
}

#[test]
fn parse_u32_rejects_malformed_and_overflow() {
    assert_eq!(parse_u32(""), None);
    assert_eq!(parse_u32("+"), None);
    assert_eq!(parse_u32("1a"), None);
    assert_eq!(parse_u32("-1"), None);
    assert_eq!(parse_u32("4294967296"), None);
    assert_eq!(parse_u32("99999999999999999999"), None);
}

#[test]
fn trim_removes_surrounding_white_space() {
    assert_eq!(trim_str(" \t x y \n ").as_str(), "x y");
    assert_eq!(trim_str("xy").as_str(), "xy");
    assert_eq!(trim_str(" \t\r\n ").as_str(), "");
    assert_eq!(trim_str("").as_str(), "");
}

#[test]
fn default_entry_is_all_absent() {
    let e = FastqEntry::default();
    assert_eq!(e.accession, None);
    assert_eq!(e.file_of_origin, None);
    assert_eq!(e.runid, None);
    assert_eq!(e.read, None);
    assert_eq!(e.ch, None);
}

#[test]
fn display_label_shows_accession() {
    let mut e = FastqEntry::default();
    assert_eq!(e.display_label().as_str(), "fubar fastq");
    e.accession = Some(String::from("read9"));
    assert_eq!(e.display_label().as_str(), "(read9)");
}

#[test]
fn error_kind_names() {
    assert_eq!(FqError::NotFound.kind_name(), "not found");
    assert_eq!(FqError::EncodingError.kind_name(), "encoding error");
    assert_eq!(FqError::ParseError.kind_name(), "parse error");
    assert_eq!(FqError::IOError.kind_name(), "io error");
    assert_eq!(FqError::SchemaMismatch.kind_name(), "schema mismatch");
}
