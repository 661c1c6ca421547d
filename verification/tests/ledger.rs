use rtqc::FqError;
use rtqc::filehandlers::{
    dedup_pairs, ledger_line, load_fq_index_pairs, load_parquet_registrations, parse_pairs,
    register_fq_index_pair, register_parquet_merge,
};

fn pair(k: &str, v: &str) -> (String, String) {
    (String::from(k), String::from(v))
}

#[test]
fn ledger_line_is_key_comma_value_newline() {
    assert_eq!(ledger_line("src.fastq", "frag.parquet").as_str(), "src.fastq,frag.parquet\n");
    assert_eq!(ledger_line("", "").as_str(), ",\n");
}

#[test]
fn parse_pairs_reads_lines_in_order() {
    let ps = parse_pairs("s1,f1\ns2,f2\n").unwrap();
    assert_eq!(ps, vec![pair("s1", "f1"), pair("s2", "f2")]);
}

#[test]
fn parse_pairs_splits_on_first_comma_only() {
    let ps = parse_pairs("k,v1,v2\n").unwrap();
    assert_eq!(ps, vec![pair("k", "v1,v2")]);
}

#[test]
fn parse_pairs_of_empty_log_is_empty() {
    assert_eq!(parse_pairs("").unwrap(), vec![]);
}

#[test]
fn parse_pairs_without_trailing_newline() {
    let ps = parse_pairs("a,b").unwrap();
    assert_eq!(ps, vec![pair("a", "b")]);
}

#[test]
fn parse_pairs_strips_carriage_returns() {
    let ps = parse_pairs("a,b\r\nc,d\r\n").unwrap();
    assert_eq!(ps, vec![pair("a", "b"), pair("c", "d")]);
}

#[test]
fn line_without_comma_fails_the_whole_load() {
    assert_eq!(parse_pairs("a,b\nnocomma\n"), Err(FqError::ParseError));
}

#[test]
fn dedup_keeps_last_value_per_key() {
    let raw = vec![pair("k", "1"), pair("j", "2"), pair("k", "3")];
    let ps = dedup_pairs(&raw);
    assert_eq!(ps, vec![pair("k", "3"), pair("j", "2")]);
}

#[test]
fn log_integrity_after_serialized_appends() {
    // three appends, in the order the exclusive lock serialized them
    let mut content = String::new();
    content.push_str(ledger_line("a", "1").as_str());
    content.push_str(ledger_line("b", "2").as_str());
    content.push_str(ledger_line("a", "3").as_str());
    // exactly one parsed entry per append, in file order
    let ps = parse_pairs(content.as_str()).unwrap();
    assert_eq!(ps, vec![pair("a", "1"), pair("b", "2"), pair("a", "3")]);
    // the materialized mapping holds every key, last value winning
    let m = dedup_pairs(&ps);
    assert_eq!(m, vec![pair("a", "3"), pair("b", "2")]);
}

#[test]
fn register_then_load_round_trips_on_disk() {
    let dir = "/tmp";
    register_fq_index_pair(dir, "rtqc_test_src_x", "rtqc_test_frag_x").unwrap();
    let ps = load_fq_index_pairs(dir).unwrap();
    assert!(ps.contains(&pair("rtqc_test_src_x", "rtqc_test_frag_x")));
}

#[test]
fn reregistration_resolves_to_last_value() {
    let dir = "/tmp";
    register_fq_index_pair(dir, "rtqc_test_src_y", "rtqc_test_f1").unwrap();
    register_fq_index_pair(dir, "rtqc_test_src_y", "rtqc_test_f2").unwrap();
    let ps = load_fq_index_pairs(dir).unwrap();
    assert!(ps.contains(&pair("rtqc_test_src_y", "rtqc_test_f2")));
    assert!(!ps.iter().any(|p| p.0 == "rtqc_test_src_y" && p.1 == "rtqc_test_f1"));
}

#[test]
fn register_in_missing_directory_is_io_error() {
    let r = register_fq_index_pair("/tmp/rtqc_no_such_dir/deeper", "a", "b");
    assert_eq!(r, Err(FqError::IOError));
}

#[test]
fn merge_ledger_round_trips_on_disk() {
    let dir = "/tmp";
    register_parquet_merge(dir, "rtqc_test_merged_frag").unwrap();
    let ks = load_parquet_registrations(dir).unwrap();
    assert!(ks.iter().any(|k| k == "rtqc_test_merged_frag"));
}
