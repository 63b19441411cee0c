use json_minimal_tests::render::get_output_filename;
use json_minimal_tests::report::SnippetDiff;
use json_minimal_tests::snippets::CodeSnippets;
use json_minimal_tests::tree::LinesRange;

fn diff(path: &str, old: &str, new: &str) -> SnippetDiff {
    SnippetDiff { path: path.to_string(), old: old.to_string(), new: new.to_string() }
}

#[test]
fn output_filename_flattens_path() {
    assert_eq!(get_output_filename("src/a/b.rs"), "src_a_b.rs.html");
    assert_eq!(get_output_filename("./src/main.rs"), "src_main.rs.html");
    assert_eq!(get_output_filename("/home/me/../x.rs"), "home_me_x.rs.html");
    assert_eq!(get_output_filename("a//b/./c.c"), "a_b_c.c.html");
    assert_eq!(get_output_filename("a/:/b.c"), "a_b.c.html");
    assert_eq!(get_output_filename(""), ".html");
}

#[test]
fn page_with_global_diffs_only_shows_whole_source() {
    let s = CodeSnippets {
        source_filename: "a.rs".to_string(),
        global_metrics: vec![diff(".metrics.loc", "3", "4")],
        snippets_data: vec![],
    };
    let page = json_minimal_tests::render::write("a.rs.html", "fn a() {}\n", &s);
    let expected = "<!DOCTYPE html>\n<html>\n<head>\n    <title>a.rs.html</title>\n</head>\n<body>\n\
<h1>Global Metrics</h1>\n\
<b>path:</b> .metrics.loc <br>\n<b>old:</b> 3 <br>\n<b>new:</b> 4 <br><br>\n\
<h2>Code</h2>\n<pre><i>fn a() {}\n</i></pre>\n\n\
</body>\n</html>\n";
    assert_eq!(page, expected);
}

#[test]
fn page_with_regions_shows_their_lines() {
    let source = "l1\nl2\r\nl3\nl4\nl5\n";
    let s = CodeSnippets {
        source_filename: "a.rs".to_string(),
        global_metrics: vec![],
        snippets_data: vec![
            (LinesRange { start_line: 1, end_line: 3 }, vec![diff(".spaces[0].metrics.loc", "1", "2")]),
            (LinesRange { start_line: 3, end_line: 9 }, vec![]),
        ],
    };
    let page = json_minimal_tests::render::write("t", source, &s);
    let expected = "<!DOCTYPE html>\n<html>\n<head>\n    <title>t</title>\n</head>\n<body>\n\
<h1>Spaces Data</h1>\n\
<h2>Minimal test - lines (2, 3)</h2>\n\
<b>path:</b> .spaces[0].metrics.loc<br>\n<b>old:</b> 1<br>\n<b>new:</b> 2<br><br>\n\
<h3>Code</h3>\n<pre><i>l2\nl3</i></pre>\n\n\
<h2>Minimal test - lines (4, 9)</h2>\n\
<h3>Code</h3>\n<pre><i>l4\nl5</i></pre>\n\n\
</body>\n</html>\n";
    assert_eq!(page, expected);
}

#[test]
fn page_without_diffs_is_bare() {
    let s = CodeSnippets { source_filename: String::new(), global_metrics: vec![], snippets_data: vec![] };
    assert_eq!(
        json_minimal_tests::render::write("x", "src", &s),
        "<!DOCTYPE html>\n<html>\n<head>\n    <title>x</title>\n</head>\n<body>\n</body>\n</html>\n"
    );
}

#[test]
fn reversed_range_shows_no_lines() {
    let s = CodeSnippets {
        source_filename: String::new(),
        global_metrics: vec![diff(".metrics.loc", "1", "2")],
        snippets_data: vec![(LinesRange { start_line: 5, end_line: 2 }, vec![])],
    };
    let page = json_minimal_tests::render::write("x", "a\nb\nc\nd\ne\nf\n", &s);
    assert!(page.contains("<h2>Minimal test - lines (6, 2)</h2>\n<h3>Code</h3>\n<pre><i></i></pre>\n\n"));
    assert!(!page.contains("<h2>Code</h2>"));
}
