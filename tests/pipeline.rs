use json_minimal_tests::snippets::{compare_trees, get_code_snippets, snippets_from_report};
use json_minimal_tests::tree::{LinesRange, Space};

fn tree(text: &str) -> serde_json::Value {
    serde_json::from_str(text).unwrap()
}

const OLD_ONE_SPACE: &str = r#"{"name":"src/f.rs","kind":"unit","start_line":1,"end_line":12,
    "metrics":{"loc":10},
    "spaces":[{"start_line":5,"end_line":9,"name":"f","kind":"function","metrics":{"loc":4},"spaces":[]}]}"#;

const NEW_ONE_SPACE: &str = r#"{"name":"src/f.rs","kind":"unit","start_line":1,"end_line":12,
    "metrics":{"loc":10},
    "spaces":[{"start_line":5,"end_line":9,"name":"f","kind":"function","metrics":{"loc":6},"spaces":[]}]}"#;

#[test]
fn identical_trees_give_nothing() {
    let a = tree(OLD_ONE_SPACE);
    let b = tree(OLD_ONE_SPACE);
    assert!(compare_trees(&a, &b).is_none());
    assert!(get_code_snippets(OLD_ONE_SPACE.as_bytes(), OLD_ONE_SPACE.as_bytes()).is_none());
}

#[test]
fn one_changed_metric_gives_one_region() {
    let r = compare_trees(&tree(OLD_ONE_SPACE), &tree(NEW_ONE_SPACE)).unwrap();
    assert_eq!(r.source_filename, "src/f.rs");
    assert!(r.global_metrics.is_empty());
    assert_eq!(r.snippets_data.len(), 1);
    let (range, diffs) = &r.snippets_data[0];
    assert_eq!(*range, LinesRange { start_line: 4, end_line: 9 });
    assert_eq!(diffs.len(), 1);
    assert_eq!(diffs[0].path, ".spaces[0].metrics.loc");
    assert_eq!(diffs[0].old, "4");
    assert_eq!(diffs[0].new, "6");
}

#[test]
fn empty_spaces_give_one_global_diff() {
    let old = r#"{"name":"a.rs","start_line":1,"end_line":3,"spaces":[],"metrics":{"loc":3}}"#;
    let new = r#"{"name":"a.rs","start_line":1,"end_line":3,"spaces":[],"metrics":{"loc":4}}"#;
    let r = get_code_snippets(old.as_bytes(), new.as_bytes()).unwrap();
    assert_eq!(r.global_metrics.len(), 1);
    assert_eq!(r.global_metrics[0].path, ".metrics.loc");
    assert_eq!(r.global_metrics[0].old, "3");
    assert_eq!(r.global_metrics[0].new, "4");
    assert!(r.snippets_data.is_empty());
}

#[test]
fn noise_fields_are_dropped() {
    let old = r#"{"name":"a.rs","start_line":1,"end_line":30,"metrics":{"halstead":{"volume":1.5},"mi":{"mi_original":3.0}},
        "spaces":[{"start_line":2,"end_line":8,"name":"g","kind":"function","metrics":{"loc":1},"spaces":[]}]}"#;
    let new = r#"{"name":"a.rs","start_line":1,"end_line":30,"metrics":{"halstead":{"volume":2.5},"mi":{"mi_original":4.0}},
        "spaces":[{"start_line":3,"end_line":9,"name":"h","kind":"closure","metrics":{"loc":1},"spaces":[]}]}"#;
    let r = get_code_snippets(old.as_bytes(), new.as_bytes()).unwrap();
    assert!(r.global_metrics.is_empty());
    assert!(r.snippets_data.is_empty());
}

#[test]
fn same_range_diffs_share_one_group() {
    let old = r#"{"name":"a.rs","start_line":1,"end_line":30,
        "spaces":[{"start_line":2,"end_line":8,"name":"g","metrics":{"loc":1,"cyclomatic":2},"spaces":[]}]}"#;
    let new = r#"{"name":"a.rs","start_line":1,"end_line":30,
        "spaces":[{"start_line":2,"end_line":8,"name":"g","metrics":{"loc":5,"cyclomatic":7},"spaces":[]}]}"#;
    let r = get_code_snippets(old.as_bytes(), new.as_bytes()).unwrap();
    assert_eq!(r.snippets_data.len(), 1);
    let (range, diffs) = &r.snippets_data[0];
    assert_eq!(*range, LinesRange { start_line: 1, end_line: 8 });
    assert_eq!(diffs.len(), 2);
    let mut paths: Vec<&str> = diffs.iter().map(|d| d.path.as_str()).collect();
    paths.sort();
    assert_eq!(paths, vec![".spaces[0].metrics.cyclomatic", ".spaces[0].metrics.loc"]);
}

#[test]
fn nested_space_resolves_to_its_own_lines() {
    let old = r#"{"name":"a.rs","start_line":1,"end_line":40,
        "spaces":[{"start_line":2,"end_line":30,"spaces":[{"start_line":10,"end_line":20,"metrics":{"loc":1},"spaces":[]}]}]}"#;
    let new = r#"{"name":"a.rs","start_line":1,"end_line":40,
        "spaces":[{"start_line":2,"end_line":30,"spaces":[{"start_line":10,"end_line":20,"metrics":{"loc":2},"spaces":[]}]}]}"#;
    let r = get_code_snippets(old.as_bytes(), new.as_bytes()).unwrap();
    assert_eq!(r.snippets_data.len(), 1);
    assert_eq!(r.snippets_data[0].0, LinesRange { start_line: 9, end_line: 20 });
}

#[test]
fn spaces_only_in_new_tree_are_not_reported() {
    let old = r#"{"name":"a.rs","start_line":1,"end_line":40,"spaces":[]}"#;
    let new = r#"{"name":"a.rs","start_line":1,"end_line":40,
        "spaces":[{"start_line":2,"end_line":30,"metrics":{"loc":1},"spaces":[]}]}"#;
    let r = get_code_snippets(old.as_bytes(), new.as_bytes()).unwrap();
    assert!(r.global_metrics.is_empty());
    assert!(r.snippets_data.is_empty());
}

#[test]
fn malformed_json_gives_nothing() {
    assert!(get_code_snippets(b"{not json", NEW_ONE_SPACE.as_bytes()).is_none());
    assert!(get_code_snippets(OLD_ONE_SPACE.as_bytes(), b"[1, 2").is_none());
}

#[test]
fn tree_without_name_gives_nothing() {
    let old = r#"{"start_line":1,"end_line":3,"spaces":[],"metrics":{"loc":3}}"#;
    let new = r#"{"start_line":1,"end_line":3,"spaces":[],"metrics":{"loc":4}}"#;
    assert!(get_code_snippets(old.as_bytes(), new.as_bytes()).is_none());
}

#[test]
fn report_text_is_grouped_by_range() {
    let report = "json atoms at path \".spaces[0].metrics.loc\" are not equal:\n    lhs:\n        4\n    rhs:\n        6\n\n\
json atoms at path \".spaces[1].metrics.loc\" are not equal:\n    lhs:\n        1\n    rhs:\n        2\n\n\
json atoms at path \".metrics.nargs\" are not equal:\n    lhs:\n        0\n    rhs:\n        1\n\n\
json atom at path \".spaces[2]\" is missing from lhs\n\n\
json atoms at path \".spaces[9].metrics.loc\" are not equal:\n    lhs:\n        1\n    rhs:\n        2";
    let spaces = vec![
        Space { start_line: Some(3), end_line: Some(7), spaces: vec![] },
        Space { start_line: Some(3), end_line: Some(7), spaces: vec![] },
    ];
    let r = snippets_from_report(report, &spaces, String::from("x.rs"));
    assert_eq!(r.global_metrics.len(), 1);
    assert_eq!(r.global_metrics[0].path, ".metrics.nargs");
    assert_eq!(r.snippets_data.len(), 1);
    let (range, diffs) = &r.snippets_data[0];
    assert_eq!(*range, LinesRange { start_line: 2, end_line: 7 });
    assert_eq!(diffs.len(), 2);
    assert_eq!(diffs[0].path, ".spaces[0].metrics.loc");
    assert_eq!(diffs[1].path, ".spaces[1].metrics.loc");
    assert_eq!(diffs[1].old, "1");
    assert_eq!(diffs[1].new, "2");
}
