use history_extract::extract::{
    file_spec_arg, finish_unit, output_file_name, output_path, plan_write, ExtractionOutcome,
    UnitFailure,
};
use history_extract::history::CommitRecord;

fn commit(id: &str, timestamp: &str) -> CommitRecord {
    CommitRecord { id: id.to_string(), timestamp: timestamp.to_string() }
}

#[test]
fn file_name_is_timestamp_then_id() {
    assert_eq!(output_file_name("1678886400", "abcd12345"), "1678886400_abcd12345.json");
}

#[test]
fn output_path_joins_directory() {
    let c = commit("a1", "100");
    assert_eq!(output_path("/tmp/out", &c), "/tmp/out/100_a1.json");
    assert_eq!(output_path("/tmp/out/", &c), "/tmp/out/100_a1.json");
    assert_eq!(output_path("", &c), "100_a1.json");
}

#[test]
fn different_commits_get_different_names() {
    let a = output_path("d", &commit("a1", "100"));
    let b = output_path("d", &commit("a2", "100"));
    let c = output_path("d", &commit("a1", "101"));
    assert_ne!(a, b);
    assert_ne!(a, c);
    assert_ne!(b, c);
    assert_eq!(a, output_path("d", &commit("a1", "100")));
}

#[test]
fn underscore_in_timestamp_can_collide() {
    assert_eq!(output_file_name("1_2", "3"), output_file_name("1", "2_3"));
}

#[test]
fn file_spec_names_root_file() {
    assert_eq!(file_spec_arg("feed.json"), "root-file:\"feed.json\"");
}

#[test]
fn failed_read_fails_unit() {
    let r = plan_write("out", &commit("a1", "100"), false, b"{}".to_vec());
    assert_eq!(r.err(), Some(UnitFailure::ReadFailed));
}

#[test]
fn content_that_is_not_text_fails_unit() {
    let r = plan_write("out", &commit("a1", "100"), true, vec![0xc3, 0x28]);
    assert_eq!(r.err(), Some(UnitFailure::NotText));
}

#[test]
fn text_content_is_planned_for_output_path() {
    let p = plan_write("out", &commit("a1", "100"), true, "{\"k\": \"é\"}".as_bytes().to_vec())
        .ok()
        .unwrap();
    assert_eq!(p.path, "out/100_a1.json");
    assert_eq!(p.content, "{\"k\": \"é\"}");
}

#[test]
fn rerun_writes_identical_bytes() {
    let bytes = "line one\nline two\n".as_bytes().to_vec();
    let c = commit("ff00", "1700000000");
    let first = plan_write("o", &c, true, bytes.clone()).ok().unwrap();
    let second = plan_write("o", &c, true, bytes.clone()).ok().unwrap();
    assert_eq!(first.path, second.path);
    assert_eq!(first.content.as_bytes(), bytes.as_slice());
    assert_eq!(second.content.as_bytes(), bytes.as_slice());
}

#[test]
fn finished_unit_reports_write() {
    let c = commit("a1", "100");
    let p = plan_write("out", &c, true, b"x".to_vec()).ok().unwrap();
    match finish_unit(p, true) {
        ExtractionOutcome::Success(path) => assert_eq!(path, "out/100_a1.json"),
        ExtractionOutcome::Failure(_) => panic!("expected success"),
    }
    let p = plan_write("out", &c, true, b"x".to_vec()).ok().unwrap();
    match finish_unit(p, false) {
        ExtractionOutcome::Success(_) => panic!("expected failure"),
        ExtractionOutcome::Failure(f) => assert_eq!(f, UnitFailure::WriteFailed),
    }
}
