use json_minimal_tests::noise::is_noise_path;
use json_minimal_tests::report::parse_report;
use json_minimal_tests::space_path::space_path_of;
use json_minimal_tests::tree::{resolve_range, LinesRange, Space};

#[test]
fn noise_paths_are_recognised() {
    assert!(is_noise_path(".spaces[0].start_line"));
    assert!(is_noise_path(".spaces[0].end_line"));
    assert!(is_noise_path(".spaces[1].name"));
    assert!(is_noise_path(".kind"));
    assert!(is_noise_path(".metrics.halstead.volume"));
    assert!(is_noise_path(".metrics.halstead.estimated_program_length"));
    assert!(is_noise_path(".metrics.mi.mi_visual_studio"));
    assert!(is_noise_path(".metrics.nargs.average"));
    assert!(!is_noise_path(".spaces[0].metrics.loc.sloc"));
    assert!(!is_noise_path(".metrics.halstead.n1"));
    assert!(!is_noise_path(".metrics.cyclomatic.sum"));
}

#[test]
fn space_path_reads_indices() {
    assert_eq!(space_path_of(".spaces[0].spaces[2].metrics.loc"), vec![0, 2]);
    assert_eq!(space_path_of(".spaces[12].metrics.loc"), vec![12]);
    assert_eq!(space_path_of(".metrics.loc"), Vec::<usize>::new());
    assert_eq!(space_path_of("(root)"), Vec::<usize>::new());
    assert_eq!(space_path_of(".spaces[].spaces[x].spaces[3"), Vec::<usize>::new());
    assert_eq!(space_path_of("spaces[7]"), vec![7]);
}

#[test]
fn space_path_saturates_huge_indices() {
    assert_eq!(space_path_of(".spaces[99999999999999999999999]"), vec![usize::MAX]);
}

#[test]
fn resolution_shifts_start_line() {
    let spaces = vec![Space {
        start_line: Some(5),
        end_line: Some(9),
        spaces: vec![Space { start_line: Some(6), end_line: Some(7), spaces: vec![] }],
    }];
    assert_eq!(resolve_range(&spaces, &[0]), Some(LinesRange { start_line: 4, end_line: 9 }));
    assert_eq!(resolve_range(&spaces, &[0, 0]), Some(LinesRange { start_line: 5, end_line: 7 }));
    assert_eq!(resolve_range(&spaces, &[1]), None);
    assert_eq!(resolve_range(&spaces, &[0, 1]), None);
    assert_eq!(resolve_range(&spaces, &[]), None);
}

#[test]
fn resolution_needs_declared_bounds() {
    let spaces = vec![
        Space { start_line: None, end_line: Some(9), spaces: vec![] },
        Space { start_line: Some(0), end_line: Some(9), spaces: vec![] },
    ];
    assert_eq!(resolve_range(&spaces, &[0]), None);
    assert_eq!(resolve_range(&spaces, &[1]), None);
}

#[test]
fn report_blocks_become_records() {
    let report = "json atoms at path \".metrics.loc\" are not equal:\n    lhs:\n        3\n    rhs:\n        4\n\n\
json atom at path \".spaces[1]\" is missing from rhs\n\n\
json atoms at path \".name\" are not equal:\n    lhs:\n        \"a\"\n    rhs:\n        \"b\"";
    let r = parse_report(report);
    assert_eq!(r.len(), 2);
    assert_eq!(r[0].path, ".metrics.loc");
    assert_eq!(r[0].old, "3");
    assert_eq!(r[0].new, "4");
    assert_eq!(r[1].path, ".name");
    assert_eq!(r[1].old, "\"a\"");
    assert_eq!(r[1].new, "\"b\"");
}

#[test]
fn incomplete_report_block_is_dropped() {
    let report = "json atoms at path \".metrics.loc\" are not equal:\n    lhs:\n        3\n    rhs:";
    assert!(parse_report(report).is_empty());
    assert!(parse_report("").is_empty());
}
