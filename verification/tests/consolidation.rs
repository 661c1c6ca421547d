use rtqc::arrow::{consolidation_plan, contains_str, novel_fragments};
use rtqc::columns::FragmentColumns;
use rtqc::fastq::{FastqEntry, parse_header};
use rtqc::fq_threaded::collect_successes;

fn pair(k: &str, v: &str) -> (String, String) {
    (String::from(k), String::from(v))
}

fn strings(xs: &[&str]) -> Vec<String> {
    xs.iter().map(|x| String::from(*x)).collect()
}

#[test]
fn novel_fragments_are_the_unmerged_values() {
    let pairs = vec![pair("s1", "f1"), pair("s2", "f2"), pair("s3", "f3")];
    let merged = strings(&["f2"]);
    assert_eq!(novel_fragments(&pairs, &merged), strings(&["f1", "f3"]));
}

#[test]
fn no_novel_fragments_plan_no_changes() {
    let pairs = vec![pair("s1", "f1"), pair("s2", "f2")];
    let merged = strings(&["f1", "f2"]);
    let plan = consolidation_plan(&pairs, &merged);
    assert_eq!(plan.seed, None);
    assert!(plan.stack.is_empty());
    assert!(!plan.changed());
}

#[test]
fn first_merge_seeds_the_reference_dataset() {
    let pairs = vec![pair("s1", "f1"), pair("s2", "f2"), pair("s3", "f3")];
    let merged: Vec<String> = Vec::new();
    let plan = consolidation_plan(&pairs, &merged);
    assert_eq!(plan.seed, Some(String::from("f1")));
    assert_eq!(plan.stack, strings(&["f2", "f3"]));
    assert!(plan.changed());
}

#[test]
fn later_merges_stack_onto_the_reference() {
    let pairs = vec![pair("s1", "f1"), pair("s2", "f2"), pair("s3", "f3")];
    let merged = strings(&["f1"]);
    let plan = consolidation_plan(&pairs, &merged);
    assert_eq!(plan.seed, None);
    assert_eq!(plan.stack, strings(&["f2", "f3"]));
    assert!(plan.changed());
}

#[test]
fn consolidating_twice_is_a_no_op() {
    let pairs = vec![pair("s1", "f1"), pair("s2", "f2")];
    let mut merged: Vec<String> = Vec::new();
    let plan = consolidation_plan(&pairs, &merged);
    assert!(plan.changed());
    if let Some(seed) = plan.seed {
        merged.push(seed);
    }
    merged.extend(plan.stack);
    let again = consolidation_plan(&pairs, &merged);
    assert_eq!(again.seed, None);
    assert!(again.stack.is_empty());
    assert!(!again.changed());
}

#[test]
fn merged_set_membership() {
    let merged = strings(&["f1", "f2"]);
    assert!(contains_str(&merged, "f1"));
    assert!(!contains_str(&merged, "f9"));
}

#[test]
fn batch_gathers_exactly_the_successes() {
    let results: Vec<Result<(String, String), String>> = vec![
        Ok(pair("s1", "f1")),
        Err(String::from("file [s2] not found")),
        Ok(pair("s3", "f3")),
    ];
    let got = collect_successes(&results);
    assert_eq!(got, vec![pair("s1", "f1"), pair("s3", "f3")]);
}

#[test]
fn all_failures_gather_nothing() {
    let results: Vec<Result<(String, String), String>> = vec![
        Err(String::from("e1")),
        Err(String::from("e2")),
    ];
    assert_eq!(collect_successes(&results), vec![]);
}

#[test]
fn columns_accumulate_records_row_by_row() {
    let mut cols = FragmentColumns::new();
    assert_eq!(cols.len(), 0);
    let e1 = parse_header("f1.fastq", "r1 runid=a read=1 ch=2").unwrap();
    let mut e2 = FastqEntry::default();
    e2.accession = Some(String::from("r2"));
    cols.push_record(e1);
    cols.push_record(e2);
    assert_eq!(cols.len(), 2);
    assert_eq!(cols.accessions(), &vec![Some(String::from("r1")), Some(String::from("r2"))]);
    assert_eq!(cols.files_of_origin()[0], Some(String::from("f1.fastq")));
    assert_eq!(cols.files_of_origin()[1], None);
    assert_eq!(cols.runids()[0], Some(String::from("a")));
    assert_eq!(cols.reads(), &vec![Some(1), None]);
    assert_eq!(cols.chs(), &vec![Some(2), None]);
    assert_eq!(cols.start_times(), &vec![None, None]);
    assert_eq!(cols.flow_cell_ids(), &vec![None, None]);
    assert_eq!(cols.protocol_group_ids(), &vec![None, None]);
    assert_eq!(cols.sample_ids(), &vec![None, None]);
    assert_eq!(cols.parent_read_ids(), &vec![None, None]);
    assert_eq!(cols.basecall_model_version_ids(), &vec![None, None]);
}
