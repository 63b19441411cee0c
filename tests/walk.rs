use json_minimal_tests::walk::{is_hidden, pool_size, should_pair, worker_count, WalkEntry};

fn entry(parts: &[&str], is_file: bool) -> WalkEntry {
    WalkEntry { components: parts.iter().map(|p| p.to_string()).collect(), is_file }
}

#[test]
fn dot_names_are_hidden() {
    assert!(is_hidden(".hidden"));
    assert!(is_hidden(".git"));
    assert!(!is_hidden("src"));
    assert!(!is_hidden(""));
}

#[test]
fn json_files_at_same_path_pair() {
    assert!(should_pair(&entry(&["src", "a.rs.json"], true), &entry(&["src", "a.rs.json"], true)));
    assert!(should_pair(&entry(&["x.json"], true), &entry(&["x.json"], true)));
}

#[test]
fn files_below_hidden_directories_never_pair() {
    assert!(!should_pair(
        &entry(&[".hidden", "a.json"], true),
        &entry(&[".hidden", "a.json"], true)
    ));
    assert!(!should_pair(&entry(&["src", ".a.json"], true), &entry(&["src", ".a.json"], true)));
}

#[test]
fn mismatched_or_non_json_entries_do_not_pair() {
    assert!(!should_pair(&entry(&["a.json"], true), &entry(&["b.json"], true)));
    assert!(!should_pair(&entry(&["d", "a.json"], true), &entry(&["e", "a.json"], true)));
    assert!(!should_pair(&entry(&["a.txt"], true), &entry(&["a.txt"], true)));
    assert!(!should_pair(&entry(&["README"], true), &entry(&["README"], true)));
    assert!(!should_pair(&entry(&["a.json"], false), &entry(&["a.json"], true)));
    assert!(!should_pair(&entry(&[], true), &entry(&[], true)));
}

#[test]
fn workers_are_one_fewer_than_cpus() {
    assert_eq!(worker_count(0), 1);
    assert_eq!(worker_count(1), 1);
    assert_eq!(worker_count(2), 1);
    assert_eq!(worker_count(8), 7);
    assert!(pool_size() >= 1);
}
