use pod_report::error::ReportError;
use pod_report::json::{parse_document, Json};
use pod_report::status::{
    extract_statuses, ready_counts, render_ready_fraction, resolve_status, total_restarts,
    ContainerStatusEntry,
};

fn entry(ready: bool, restart_count: i64, waiting: Option<&str>) -> ContainerStatusEntry {
    ContainerStatusEntry { ready, restart_count, waiting_reason: waiting.map(|w| w.to_string()) }
}

#[test]
fn running_pod_reports_running_whatever_its_containers_say() {
    let entries = vec![entry(false, 0, Some("CrashLoopBackOff")), entry(true, 0, None)];
    assert_eq!(resolve_status("Running", &entries), "Running");
    assert_eq!(resolve_status("Running", &vec![]), "Running");
}

#[test]
fn waiting_reasons_replace_the_phase() {
    let entries = vec![entry(false, 0, Some("ImagePullBackOff"))];
    assert_eq!(resolve_status("Pending", &entries), "ImagePullBackOff");
}

#[test]
fn waiting_reasons_are_merged_in_first_seen_order() {
    let entries = vec![
        entry(false, 0, Some("ImagePullBackOff")),
        entry(false, 0, None),
        entry(false, 0, Some("CrashLoopBackOff")),
        entry(false, 0, Some("ImagePullBackOff")),
    ];
    assert_eq!(resolve_status("Pending", &entries), "ImagePullBackOff, CrashLoopBackOff");
}

#[test]
fn phase_is_kept_where_no_container_waits() {
    let entries = vec![entry(false, 0, None), entry(true, 1, None)];
    assert_eq!(resolve_status("Failed", &entries), "Failed");
    assert_eq!(resolve_status("Pending", &vec![]), "Pending");
    assert_eq!(resolve_status("running", &entries), "running");
}

#[test]
fn ready_fraction_counts_ready_over_all() {
    let entries = vec![entry(true, 0, None), entry(false, 0, None), entry(true, 0, None)];
    assert_eq!(ready_counts(&entries), (2, 3));
    assert_eq!(render_ready_fraction(&entries), "2/3");
}

#[test]
fn ready_fraction_of_no_containers_is_zero_over_zero() {
    assert_eq!(ready_counts(&vec![]), (0, 0));
    assert_eq!(render_ready_fraction(&vec![]), "0/0");
}

#[test]
fn ready_fraction_renders_counts_of_several_digits() {
    let mut entries = Vec::new();
    for i in 0..120 {
        entries.push(entry(i < 11, 0, None));
    }
    assert_eq!(render_ready_fraction(&entries), "11/120");
}

#[test]
fn total_restarts_is_the_sum() {
    let entries = vec![entry(true, 3, None), entry(true, 0, None), entry(true, 2, None)];
    assert_eq!(total_restarts(&entries), Ok(5));
    assert_eq!(total_restarts(&vec![]), Ok(0));
}

#[test]
fn negative_restart_count_is_malformed() {
    let entries = vec![entry(true, 3, None), entry(true, -1, None)];
    assert_eq!(total_restarts(&entries), Err(ReportError::MalformedInput));
}

#[test]
fn restart_total_beyond_the_range_is_malformed() {
    let entries = vec![entry(true, i64::MAX, None), entry(true, 1, None)];
    assert_eq!(total_restarts(&entries), Err(ReportError::MalformedInput));
    let fits = vec![entry(true, i64::MAX - 1, None), entry(true, 1, None)];
    assert_eq!(total_restarts(&fits), Ok(i64::MAX));
}

#[test]
fn status_entry_is_read_from_its_element() {
    let raw = parse_document(
        r#"{"ready": true, "restartCount": 4, "state": {"waiting": {"reason": "CrashLoopBackOff"}}}"#,
    )
    .unwrap();
    assert_eq!(
        ContainerStatusEntry::from_json(&raw),
        Ok(entry(true, 4, Some("CrashLoopBackOff")))
    );
}

#[test]
fn readiness_counts_only_where_it_is_true() {
    let absent = parse_document(r#"{"restartCount": 0}"#).unwrap();
    assert_eq!(ContainerStatusEntry::from_json(&absent), Ok(entry(false, 0, None)));
    let text = parse_document(r#"{"ready": "true", "restartCount": 0, "state": {"running": {}}}"#)
        .unwrap();
    assert_eq!(ContainerStatusEntry::from_json(&text), Ok(entry(false, 0, None)));
}

#[test]
fn missing_restart_count_is_malformed() {
    let missing = parse_document(r#"{"ready": true}"#).unwrap();
    assert_eq!(ContainerStatusEntry::from_json(&missing), Err(ReportError::MalformedInput));
    let wrong = parse_document(r#"{"ready": true, "restartCount": "3"}"#).unwrap();
    assert_eq!(ContainerStatusEntry::from_json(&wrong), Err(ReportError::MalformedInput));
    let fraction = parse_document(r#"{"ready": true, "restartCount": 1.5}"#).unwrap();
    assert_eq!(ContainerStatusEntry::from_json(&fraction), Err(ReportError::MalformedInput));
    assert_eq!(ContainerStatusEntry::from_json(&Json::Null), Err(ReportError::MalformedInput));
}

#[test]
fn status_list_is_extracted_in_order() {
    let raw = parse_document(r#"[{"restartCount": 1}, {"ready": true, "restartCount": 2}]"#).unwrap();
    match raw {
        Json::Array(items) => {
            assert_eq!(
                extract_statuses(&items),
                Ok(vec![entry(false, 1, None), entry(true, 2, None)])
            );
        }
        _ => panic!("an array was parsed"),
    }
}

#[test]
fn one_unreadable_status_spoils_the_list() {
    let raw = vec![
        parse_document(r#"{"restartCount": 1}"#).unwrap(),
        parse_document(r#"{"ready": true}"#).unwrap(),
    ];
    assert_eq!(extract_statuses(&raw), Err(ReportError::MalformedInput));
}
