use pod_report::json::parse_document;
use pod_report::security::{ContainerSecurityContext, PodSecurityContext};

fn pod_context(text: &str) -> PodSecurityContext {
    let doc = parse_document(text).unwrap();
    assert!(PodSecurityContext::accepts(&doc));
    PodSecurityContext::new(&doc)
}

fn container_context(text: &str) -> ContainerSecurityContext {
    ContainerSecurityContext::new(&parse_document(text).unwrap())
}

#[test]
fn equal_ids_render_as_one_number() {
    let pod = pod_context(
        r#"{"runAsNonRoot": true, "runAsUser": 1000, "runAsGroup": 1000, "fsGroup": 1000}"#,
    );
    assert!(pod.sameuid());
    assert_eq!(pod.printuid(), "1000");
    assert_eq!(pod.getsecbits(), "R\u{2705}1000");
}

#[test]
fn differing_ids_render_with_slashes() {
    let pod = pod_context(r#"{"runAsUser": 0, "runAsGroup": 1000, "fsGroup": 1000}"#);
    assert!(!pod.sameuid());
    assert_eq!(pod.printuid(), "0/1000/1000");
    assert_eq!(pod.getsecbits(), "R\u{1f62d}0/1000/1000");
}

#[test]
fn absent_ids_read_as_zero() {
    let pod = pod_context("{}");
    assert_eq!(pod.printuid(), "0");
    assert_eq!(pod.getsecbits(), "R\u{1f62d}0");
}

#[test]
fn ids_of_the_wrong_type_read_as_zero() {
    let pod = pod_context(r#"{"runAsUser": "7", "runAsGroup": 1.5, "fsGroup": null}"#);
    assert_eq!(pod.printuid(), "0");
}

#[test]
fn negative_and_extreme_ids_render_in_decimal() {
    let pod = pod_context(
        r#"{"runAsUser": -9223372036854775808, "runAsGroup": 9223372036854775807, "fsGroup": -5}"#,
    );
    assert_eq!(pod.printuid(), "-9223372036854775808/9223372036854775807/-5");
}

#[test]
fn non_root_flag_of_the_wrong_type_reads_as_false() {
    let pod = pod_context(r#"{"runAsNonRoot": "yes"}"#);
    assert_eq!(pod.getsecbits(), "R\u{1f62d}0");
}

#[test]
fn seccomp_profile_shows_a_marker_and_a_space() {
    let pod = pod_context(r#"{"seccompProfile": {"type": "Localhost"}, "runAsUser": 5}"#);
    assert_eq!(pod.getsecbits(), "R\u{1f62d}\u{1f46e} 5/0/0");
}

#[test]
fn seccomp_profile_without_a_type_is_not_the_runtime_default() {
    let pod = pod_context(r#"{"seccompProfile": {}}"#);
    assert_eq!(pod.getsecbits(), "R\u{1f62d}\u{1f46e} 0");
}

#[test]
fn runtime_default_seccomp_shows_the_extra_glyph() {
    let pod = pod_context(
        r#"{"runAsNonRoot": true, "seccompProfile": {"type": "RuntimeDefault"}, "runAsUser": 1, "runAsGroup": 1, "fsGroup": 1}"#,
    );
    assert_eq!(pod.getsecbits(), "R\u{2705}\u{1f46e}\u{2699}\u{fe0f} 1");
}

#[test]
fn seccomp_profile_of_the_wrong_type_is_not_accepted() {
    let not_an_object = parse_document(r#"{"seccompProfile": "RuntimeDefault"}"#).unwrap();
    assert!(!PodSecurityContext::accepts(&not_an_object));
    let type_not_a_string = parse_document(r#"{"seccompProfile": {"type": 3}}"#).unwrap();
    assert!(!PodSecurityContext::accepts(&type_not_a_string));
}

#[test]
fn dropping_exactly_all_is_dropping_all() {
    let container = container_context(r#"{"capabilities": {"drop": ["ALL"]}}"#);
    assert!(container.dropping_all());
}

#[test]
fn an_added_capability_disqualifies() {
    let container =
        container_context(r#"{"capabilities": {"drop": ["ALL"], "add": ["NET_BIND_SERVICE"]}}"#);
    assert!(!container.dropping_all());
}

#[test]
fn a_partial_drop_disqualifies() {
    assert!(!container_context(r#"{"capabilities": {"drop": ["NET_RAW"]}}"#).dropping_all());
    assert!(!container_context(r#"{"capabilities": {"drop": ["ALL", "NET_RAW"]}}"#).dropping_all());
    assert!(!container_context(r#"{"capabilities": {"drop": []}}"#).dropping_all());
    assert!(!container_context(r#"{"capabilities": {}}"#).dropping_all());
    assert!(!container_context(r#"{}"#).dropping_all());
}

#[test]
fn capability_names_that_are_not_strings_are_passed_over() {
    let container = container_context(r#"{"capabilities": {"drop": [1, "ALL", null]}}"#);
    assert!(container.dropping_all());
}

#[test]
fn capabilities_that_are_not_an_object_configure_nothing() {
    assert!(!container_context(r#"{"capabilities": ["ALL"]}"#).dropping_all());
}

#[test]
fn container_encoding_shows_escalation_and_drop_all() {
    assert_eq!(container_context("{}").getsecbits(), "\u{241b} ");
    assert_eq!(
        container_context(r#"{"allowPrivilegeEscalation": true}"#).getsecbits(),
        "\u{241b} "
    );
    assert_eq!(
        container_context(r#"{"allowPrivilegeEscalation": "no"}"#).getsecbits(),
        "\u{241b} "
    );
    assert_eq!(
        container_context(r#"{"allowPrivilegeEscalation": false}"#).getsecbits(),
        "\u{1f510}"
    );
    assert_eq!(
        container_context(
            r#"{"allowPrivilegeEscalation": false, "capabilities": {"drop": ["ALL"]}}"#
        )
        .getsecbits(),
        "\u{1f510}\u{1faf3}"
    );
    assert_eq!(
        container_context(r#"{"capabilities": {"drop": ["ALL"]}}"#).getsecbits(),
        "\u{241b} \u{1faf3}"
    );
}

#[test]
fn pod_description_names_the_ids() {
    assert_eq!(pod_context(r#"{"runAsUser": 7}"#).describe(), "My user is 7/0/0.");
    assert_eq!(pod_context("{}").describe(), "My user is 0.");
}

#[test]
fn container_description_spells_out_the_fields() {
    let container = container_context(
        r#"{"allowPrivilegeEscalation": false, "capabilities": {"drop": ["ALL", "a\"b"], "add": []}}"#,
    );
    assert_eq!(
        container.describe(),
        "allowpriv false, readonlyfs false, is dropping true.\n    dropping: [\"ALL\", \"a\\\"b\"]/adding: []"
    );
    assert_eq!(
        container_context("{}").describe(),
        "allowpriv true, readonlyfs false, is dropping false.\n    dropping: []/adding: []"
    );
}
