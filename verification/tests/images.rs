use pod_report::error::ReportError;
use pod_report::images::{insert_sorted, normalize_image, render_image_list, RenameRule, RuleSet};

fn rule(pattern: &str, replacement: &str) -> RenameRule {
    RenameRule { pattern: pattern.to_string(), replacement: replacement.to_string() }
}

fn rules(list: Vec<RenameRule>) -> RuleSet {
    match RuleSet::compile(&list) {
        Ok(set) => set,
        Err(e) => panic!("the rules compile: {:?}", e),
    }
}

fn strings(items: &[&str]) -> Vec<String> {
    items.iter().map(|s| s.to_string()).collect()
}

#[test]
fn matching_rule_rewrites_the_image() {
    let set = rules(vec![rule(r"^\d+\.dkr\.ecr\.[a-z0-9-]+\.amazonaws\.com", "ecr")]);
    assert_eq!(
        normalize_image("123456789012.dkr.ecr.eu-west-1.amazonaws.com/team/app:v1", &set),
        "<ecr>/team/app:v1"
    );
}

#[test]
fn every_match_of_the_rule_is_replaced() {
    let set = rules(vec![rule("a", "x")]);
    assert_eq!(normalize_image("banana", &set), "b<x>n<x>n<x>");
}

#[test]
fn unmatched_image_is_kept_and_normalizing_again_changes_nothing() {
    let set = rules(vec![rule("^quay\\.io", "quay")]);
    let once = normalize_image("repo/a:v1", &set);
    assert_eq!(once, "repo/a:v1");
    assert_eq!(normalize_image(&once, &set), once);
}

#[test]
fn no_rules_keep_the_image() {
    let set = rules(vec![]);
    assert_eq!(set.len(), 0);
    assert_eq!(normalize_image("repo/a:v1", &set), "repo/a:v1");
}

#[test]
fn first_rule_that_changes_the_image_wins() {
    let set = rules(vec![rule("^docker\\.io", "hub"), rule("^repo", "first"), rule("^repo", "second")]);
    assert_eq!(set.len(), 3);
    assert_eq!(normalize_image("repo/a:v1", &set), "<first>/a:v1");
}

#[test]
fn rule_that_matches_without_changing_is_passed_over() {
    let set = rules(vec![rule("<same>", "same"), rule("same", "other")]);
    assert_eq!(normalize_image("<same>/a", &set), "<<other>>/a");
}

#[test]
fn replacement_may_refer_to_groups() {
    let set = rules(vec![rule(r"^(\w+)\.example\.com", "$1")]);
    assert_eq!(normalize_image("registry.example.com/a:v1", &set), "<registry>/a:v1");
}

#[test]
fn pattern_that_does_not_compile_is_an_invalid_rule() {
    let outcome = RuleSet::compile(&vec![rule("ok", "fine"), rule("(", "broken")]);
    assert!(matches!(outcome, Err(ReportError::InvalidRule)));
}

#[test]
fn images_are_listed_once_each_in_ascending_order() {
    let images = strings(&["repo/a:v1", "repo/a:v1", "repo/b:v1"]);
    assert_eq!(render_image_list(&images), "repo/a:v1\nrepo/b:v1");
}

#[test]
fn images_are_sorted_whatever_their_order() {
    let images = strings(&["repo/b:v1", "repo/a:v10", "repo/a:v1", "Repo/z", "repo/b:v1", "repo/a"]);
    assert_eq!(render_image_list(&images), "Repo/z\nrepo/a\nrepo/a:v1\nrepo/a:v10\nrepo/b:v1");
}

#[test]
fn images_sort_by_code_point() {
    let images = strings(&["\u{e9}", "z", "\u{1f600}", "\u{ffff}", "a"]);
    assert_eq!(render_image_list(&images), "a\nz\n\u{e9}\n\u{ffff}\n\u{1f600}");
}

#[test]
fn no_images_give_an_empty_field() {
    assert_eq!(render_image_list(&vec![]), "");
    assert_eq!(render_image_list(&strings(&["only"])), "only");
}

#[test]
fn insertion_keeps_the_list_ascending_and_distinct() {
    let mut list = strings(&["b", "d"]);
    insert_sorted(&mut list, "c".to_string());
    assert_eq!(list, strings(&["b", "c", "d"]));
    insert_sorted(&mut list, "a".to_string());
    assert_eq!(list, strings(&["a", "b", "c", "d"]));
    insert_sorted(&mut list, "e".to_string());
    assert_eq!(list, strings(&["a", "b", "c", "d", "e"]));
    insert_sorted(&mut list, "c".to_string());
    assert_eq!(list, strings(&["a", "b", "c", "d", "e"]));
    insert_sorted(&mut list, "bb".to_string());
    assert_eq!(list, strings(&["a", "b", "bb", "c", "d", "e"]));
}
