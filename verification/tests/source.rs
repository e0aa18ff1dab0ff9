use pod_report::error::ReportError;
use pod_report::source::{judge_source, source_arguments};

#[test]
fn query_without_a_namespace() {
    assert_eq!(source_arguments(""), vec!["get", "pods", "-o=json"]);
}

#[test]
fn query_with_a_namespace() {
    assert_eq!(
        source_arguments("kube-system"),
        vec!["get", "pods", "-o=json", "--namespace=kube-system"]
    );
}

#[test]
fn failed_source_stops_the_run_with_its_code() {
    assert_eq!(judge_source(false, Some(3)), Err(ReportError::SourceFailed(3)));
    assert_eq!(judge_source(false, Some(0)), Err(ReportError::SourceFailed(0)));
}

#[test]
fn other_outcomes_let_the_run_go_on() {
    assert_eq!(judge_source(true, Some(0)), Ok(()));
    assert_eq!(judge_source(true, None), Ok(()));
    assert_eq!(judge_source(false, None), Ok(()));
}
