use json_minimal_tests::snippets::CodeSnippets;
use json_minimal_tests::report::SnippetDiff;
use json_minimal_tests::source::{
    bom_length, decode_source, encode_to_utf8, looks_like_text, remove_blank_lines, render_report,
    source_with_eol, DecodeError,
};

#[test]
fn blank_lines_at_end_are_cut_to_one() {
    let mut a = b"x\n\n\n".to_vec();
    remove_blank_lines(&mut a);
    assert_eq!(a, b"x\n".to_vec());
    let mut b = b"x".to_vec();
    remove_blank_lines(&mut b);
    assert_eq!(b, b"x\n".to_vec());
    let mut c: Vec<u8> = Vec::new();
    remove_blank_lines(&mut c);
    assert_eq!(c, b"\n".to_vec());
    let mut d = b"x\n".to_vec();
    remove_blank_lines(&mut d);
    assert_eq!(d, b"x\n".to_vec());
}

#[test]
fn byte_order_marks_are_measured() {
    assert_eq!(bom_length(&[0xFE, 0xFF, b'a']), 2);
    assert_eq!(bom_length(&[0xFF, 0xFE, b'a']), 2);
    assert_eq!(bom_length(&[0xEF, 0xBB, 0xBF, b'a']), 3);
    assert_eq!(bom_length(b"abc"), 0);
    assert_eq!(bom_length(&[0xEF]), 0);
}

#[test]
fn head_with_invalid_bytes_is_not_text() {
    assert!(looks_like_text(b"fn main() {}"));
    assert!(!looks_like_text(&[b'a', 0xFF, b'b', b'c']));
    // a multi-byte character cut at the end of the head
    assert!(looks_like_text(&[b'a', b'b', 0xE3, 0x81]));
}

#[test]
fn tiny_files_are_skipped() {
    assert_eq!(source_with_eol(3, b"ab\n"), None);
    assert_eq!(source_with_eol(0, b""), None);
}

#[test]
fn source_loses_bom_and_extra_blank_lines() {
    let content = [&[0xEF, 0xBB, 0xBF][..], b"fn a() {}\n\n\n"].concat();
    assert_eq!(source_with_eol(content.len(), &content), Some(b"fn a() {}\n".to_vec()));
    assert_eq!(source_with_eol(4, b"abcd"), Some(b"abcd\n".to_vec()));
}

#[test]
fn binary_head_is_skipped() {
    let content = [0x00u8, 0xFF, 0xFE, 0x80, 0x81, b'a', b'b', b'c'];
    assert_eq!(source_with_eol(content.len(), &content), None);
}

#[test]
fn short_read_is_skipped() {
    assert_eq!(source_with_eol(100, b"abcd"), None);
}

#[test]
fn utf8_source_is_decoded_as_is() {
    assert_eq!(decode_source("héllo".as_bytes()), Some("héllo".to_string()));
}

#[test]
fn shift_jis_source_is_decoded() {
    // "あ" in Shift_JIS
    let text = decode_source(&[0x82, 0xA0]).unwrap();
    assert!(text.starts_with('あ'));
    assert_eq!(text.len(), 4096);
    assert!(text[3..].chars().all(|c| c == '\0'));
}

#[test]
fn shift_jis_overflow_is_an_error() {
    let big = vec![0x82u8, 0xA0].repeat(3000);
    assert_eq!(encode_to_utf8(&big), Err(DecodeError::Incomplete));
    assert_eq!(decode_source(&big), None);
}

#[test]
fn report_escapes_the_source() {
    let s = CodeSnippets {
        source_filename: "./src/a.rs".to_string(),
        global_metrics: vec![SnippetDiff {
            path: ".metrics.loc".to_string(),
            old: "1".to_string(),
            new: "2".to_string(),
        }],
        snippets_data: vec![],
    };
    let (name, page) = render_report(&s, b"if a < b && c > d {}\n").unwrap();
    assert_eq!(name, "src_a.rs.html");
    assert!(page.contains("<pre><i>if a &lt; b &amp;&amp; c &gt; d {}\n</i></pre>"));
    assert!(page.contains("<title>src_a.rs.html</title>"));
}
