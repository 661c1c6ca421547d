use rtqc::arrow::get_arrow_path;
use rtqc::fragment::{
    FNV_OFFSET, IndexAction, fnv1a_str, fragment_file_name, get_fragment_path, hex64_str,
    index_fastq_action, join_dir,
};

#[test]
fn fnv1a_of_empty_is_the_offset_basis() {
    assert_eq!(fnv1a_str(""), FNV_OFFSET);
    assert_eq!(fnv1a_str(""), 0xcbf29ce484222325);
}

#[test]
fn fnv1a_matches_known_vectors() {
    assert_eq!(fnv1a_str("a"), 0xaf63dc4c8601ec8c);
    assert_eq!(fnv1a_str("foobar"), 0x85944171f73967e8);
}

#[test]
fn hex64_writes_sixteen_lower_case_digits() {
    assert_eq!(hex64_str(0).as_str(), "0000000000000000");
    assert_eq!(hex64_str(0xdeadbeef).as_str(), "00000000deadbeef");
    assert_eq!(hex64_str(u64::MAX).as_str(), "ffffffffffffffff");
}

#[test]
fn fragment_names_are_hash_plus_extension() {
    assert_eq!(fragment_file_name("a").as_str(), "af63dc4c8601ec8c.parquet");
}

#[test]
fn fragment_naming_is_deterministic() {
    let p1 = get_fragment_path("run1.fastq", "/work");
    let p2 = get_fragment_path("run1.fastq", "/work");
    assert_eq!(p1, p2);
    let p3 = get_fragment_path("run2.fastq", "/work");
    assert_ne!(p1, p3);
}

#[test]
fn join_dir_uses_one_separator() {
    assert_eq!(join_dir("/work", "x.txt").as_str(), "/work/x.txt");
}

#[test]
fn arrow_path_is_the_fixed_reference_file() {
    assert_eq!(get_arrow_path("/work").as_str(), "/work/SequenceSet.parquet");
}

#[test]
fn missing_source_is_not_found() {
    let a = index_fastq_action("gone.fastq", "/work", false, false);
    assert!(matches!(a, IndexAction::NotFound));
}

#[test]
fn existing_fragment_is_reused_not_rebuilt() {
    let first = index_fastq_action("r.fastq", "/work", true, false);
    let built = match first {
        IndexAction::Build(p) => p,
        _ => panic!("a fresh source must be built"),
    };
    let second = index_fastq_action("r.fastq", "/work", true, true);
    match second {
        IndexAction::AlreadyIndexed(p) => assert_eq!(p, built),
        _ => panic!("an indexed source must be reused"),
    }
}
