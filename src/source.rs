//! Preparing the new source file's text for a report: line endings, byte
//! order marks, and decoding (UTF-8, with Shift_JIS as the fallback).
use vstd::prelude::*;
use vstd::utf8::{decode_utf8, valid_utf8};

use crate::render::{get_output_filename, html_page, output_filename};
use crate::snippets::CodeSnippets;

verus! {

/// Number of `'\n'` bytes that end `s`.
pub open spec fn trailing_newlines(s: Seq<u8>) -> nat
    decreases s.len(),
{
    if s.len() > 0 && s.last() == 10u8 {
        1 + trailing_newlines(s.drop_last())
    } else {
        0
    }
}

/// `s` ending in exactly one `'\n'`: a run of blank lines at the end is cut
/// to one line ending, and a missing final line ending is added.
pub open spec fn single_final_eol(s: Seq<u8>) -> Seq<u8> {
    let t = trailing_newlines(s);
    if t > 0 {
        s.take(s.len() - t + 1)
    } else {
        s.push(10u8)
    }
}

/// Leaves `data` ending in exactly one `'\n'`.
pub fn remove_blank_lines(data: &mut Vec<u8>)
    ensures
        final(data)@ == single_final_eol(old(data)@),
{
    let ghost s = data@;
    let mut n: usize = data.len();
    assert(s.take(n as int) =~= s);
    while n > 0 && data[n - 1] == 10u8
        invariant
            n <= data.len(),
            data@ == s,
            trailing_newlines(s) == (data.len() - n) + trailing_newlines(s.take(n as int)),
        decreases n,
    {
        proof {
            assert(s.take(n as int).drop_last() =~= s.take(n - 1));
        }
        n = n - 1;
    }
    proof {
        assert(trailing_newlines(s.take(n as int)) == 0);
    }
    if n < data.len() {
        data.truncate(n + 1);
        proof {
            assert(data@ =~= s.take(s.len() - trailing_newlines(s) + 1));
        }
    } else {
        data.push(10u8);
    }
}

/// Length of the byte order mark that `start` opens with, if any: UTF-16
/// (either order) or UTF-8.
pub open spec fn bom_len(start: Seq<u8>) -> nat {
    if start.len() >= 2 && ((start[0] == 0xFEu8 && start[1] == 0xFFu8) || (start[0] == 0xFFu8
        && start[1] == 0xFEu8)) {
        2
    } else if start.len() >= 3 && start[0] == 0xEFu8 && start[1] == 0xBBu8 && start[2] == 0xBFu8 {
        3
    } else {
        0
    }
}

/// Length of the byte order mark that `start` opens with.
pub fn bom_length(start: &[u8]) -> (r: usize)
    ensures
        r == bom_len(start@),
{
    if start.len() >= 2 && ((start[0] == 0xFE && start[1] == 0xFF) || (start[0] == 0xFF && start[1]
        == 0xFE)) {
        2
    } else if start.len() >= 3 && start[0] == 0xEF && start[1] == 0xBB && start[2] == 0xBF {
        3
    } else {
        0
    }
}

/// What `String::from_utf8_lossy` makes of `b`.
pub uninterp spec fn lossy_text(b: Seq<u8>) -> Seq<char>;

/// Relies on `String::from_utf8_lossy`: decodes `b`, each invalid sequence
/// becoming U+FFFD; valid UTF-8 is decoded as it is.
#[verifier::external_body]
fn lossy(b: &[u8]) -> (r: String)
    ensures
        r@ == lossy_text(b@),
        valid_utf8(b@) ==> r@ == decode_utf8(b@),
{
    String::from_utf8_lossy(b).into_owned()
}

/// The head of a file reads as text when decoding it holds no U+FFFD but
/// perhaps in its last character, which a cut may have split.
pub open spec fn head_is_text(head: Seq<u8>) -> bool {
    let t = lossy_text(head);
    let kept = if t.len() > 0 { t.drop_last() } else { t };
    !kept.contains('\u{FFFD}')
}

/// Whether the head `head` of a file reads as text.
pub fn looks_like_text(head: &[u8]) -> (r: bool)
    ensures
        r == head_is_text(head@),
{
    let l = lossy(head);
    let t = crate::text::chars_of(l.as_str());
    assert(t@ == lossy_text(head@));
    let end: usize = if t.len() > 0 {
        t.len() - 1
    } else {
        0
    };
    let mut i: usize = 0;
    while i < end
        invariant
            end <= t.len(),
            t@ == lossy_text(head@),
            end == (if t@.len() > 0 { t@.len() - 1 } else { 0 }),
            forall|j: int| 0 <= j < i ==> t@[j] != '\u{FFFD}',
            i <= end,
        decreases end - i,
    {
        if t[i] == '\u{FFFD}' {
            proof {
                let kept = if t@.len() > 0 { t@.drop_last() } else { t@ };
                assert(kept[i as int] == '\u{FFFD}');
                assert(kept.contains('\u{FFFD}'));
            }
            return false;
        }
        i = i + 1;
    }
    proof {
        let kept = if t@.len() > 0 { t@.drop_last() } else { t@ };
        assert forall|j: int| 0 <= j < kept.len() implies kept[j] != '\u{FFFD}' by {
            assert(kept[j] == t@[j]);
        }
    }
    true
}

/// Bytes read from the head of a file to judge whether it is text.
pub const HEAD_LEN: usize = 64;

/// Bytes of a file of `file_size` bytes that form its head.
pub open spec fn head_len(file_size: nat) -> nat {
    if file_size < 64 { file_size } else { 64 }
}

/// The source text to show, given the size that the file system reports
/// and the bytes read: `None` for a file of three bytes or fewer, one
/// shorter than its head, or one whose head does not read as text;
/// otherwise the bytes after any byte order mark, ending in one `'\n'`.
pub open spec fn text_with_eol(file_size: nat, content: Seq<u8>) -> Option<Seq<u8>> {
    let start = content.take(head_len(file_size) as int);
    let b = bom_len(start);
    if file_size <= 3 || content.len() < head_len(file_size) {
        None
    } else if !head_is_text(start.subrange(b as int, start.len() as int)) {
        None
    } else {
        Some(single_final_eol(content.subrange(b as int, content.len() as int)))
    }
}

/// The source text to show from a file of `file_size` bytes (as its
/// metadata tells) whose contents are `content`.
pub fn source_with_eol(file_size: usize, content: &[u8]) -> (r: Option<Vec<u8>>)
    ensures
        r matches Some(v) ==> text_with_eol(file_size as nat, content@) == Some(v@),
        r is None ==> text_with_eol(file_size as nat, content@) is None,
{
    if file_size <= 3 {
        return None;
    }
    let n: usize = if file_size < HEAD_LEN {
        file_size
    } else {
        HEAD_LEN
    };
    if content.len() < n {
        return None;
    }
    let mut start: Vec<u8> = Vec::new();
    let mut i: usize = 0;
    while i < n
        invariant
            i <= n <= content.len(),
            start@ == content@.take(i as int),
        decreases n - i,
    {
        start.push(content[i]);
        proof {
            assert(start@ =~= content@.take(i + 1));
        }
        i = i + 1;
    }
    let b = bom_length(start.as_slice());
    let mut head: Vec<u8> = Vec::new();
    let mut j: usize = b;
    while j < n
        invariant
            b <= j <= n,
            n == start@.len(),
            head@ == start@.subrange(b as int, j as int),
        decreases n - j,
    {
        head.push(start[j]);
        proof {
            assert(head@ =~= start@.subrange(b as int, j + 1));
        }
        j = j + 1;
    }
    if !looks_like_text(head.as_slice()) {
        return None;
    }
    let mut data: Vec<u8> = Vec::new();
    let mut k: usize = b;
    while k < content.len()
        invariant
            b <= k <= content.len(),
            data@ == content@.subrange(b as int, k as int),
        decreases content.len() - k,
    {
        data.push(content[k]);
        proof {
            assert(data@ =~= content@.subrange(b as int, k + 1));
        }
        k = k + 1;
    }
    remove_blank_lines(&mut data);
    Some(data)
}

/// Relies on `std::str::from_utf8`: succeeds exactly on valid UTF-8, with
/// the text it encodes.
#[verifier::external_body]
fn utf8_text(b: &[u8]) -> (r: Option<String>)
    ensures
        r is Some <==> valid_utf8(b@),
        r matches Some(s) ==> s@ == decode_utf8(b@),
{
    match std::str::from_utf8(b) {
        Ok(s) => Some(s.to_owned()),
        Err(_) => None,
    }
}

/// What a Shift_JIS decoder writes into a buffer of `capacity` NUL
/// characters when it decodes all of `src`; `None` when it cannot.
pub uninterp spec fn shift_jis_output(src: Seq<u8>, capacity: nat) -> Option<Seq<char>>;

/// Relies on `encoding_rs`: the Shift_JIS decoder's `decode_to_str`, given
/// all of `src` as the last input and a buffer of `capacity` NUL characters;
/// the whole buffer when the input was used up.
#[verifier::external_body]
fn shift_jis_decode(src: &[u8], capacity: usize) -> (r: Option<String>)
    ensures
        r matches Some(s) ==> shift_jis_output(src@, capacity as nat) == Some(s@),
        r is None ==> shift_jis_output(src@, capacity as nat) is None,
{
    let mut decoder = encoding_rs::SHIFT_JIS.new_decoder();
    let mut bytes = vec![0u8; capacity];
    let buffer = match std::str::from_utf8_mut(&mut bytes) {
        Ok(buffer) => buffer,
        Err(_) => return None,
    };
    let (result, _, _, _) = decoder.decode_to_str(src, buffer, true);
    match result {
        encoding_rs::CoderResult::InputEmpty => Some(buffer.to_owned()),
        encoding_rs::CoderResult::OutputFull => None,
    }
}

/// Size of the buffer that Shift_JIS text is decoded into.
pub const DECODE_CAPACITY: usize = 4096;

/// Why a source file could not be decoded.
#[derive(Debug, PartialEq, Eq, Structural)]
pub enum DecodeError {
    /// The decoder did not use up its input.
    Incomplete,
}

/// Decodes `buf` as Shift_JIS.
pub fn encode_to_utf8(buf: &[u8]) -> (r: Result<String, DecodeError>)
    ensures
        r matches Ok(s) ==> shift_jis_output(buf@, DECODE_CAPACITY as nat) == Some(s@),
        r is Err ==> shift_jis_output(buf@, DECODE_CAPACITY as nat) is None,
{
    match shift_jis_decode(buf, DECODE_CAPACITY) {
        Some(s) => Ok(s),
        None => Err(DecodeError::Incomplete),
    }
}

/// The text of a source file: its UTF-8 decoding when it is valid UTF-8,
/// else its Shift_JIS decoding, if that succeeds.
pub open spec fn source_text(b: Seq<u8>) -> Option<Seq<char>> {
    if valid_utf8(b) {
        Some(decode_utf8(b))
    } else {
        shift_jis_output(b, DECODE_CAPACITY as nat)
    }
}

/// The text of the source file whose bytes are `bytes`.
pub fn decode_source(bytes: &[u8]) -> (r: Option<String>)
    ensures
        r matches Some(s) ==> source_text(bytes@) == Some(s@),
        r is None ==> source_text(bytes@) is None,
{
    match utf8_text(bytes) {
        Some(s) => Some(s),
        None => match encode_to_utf8(bytes) {
            Ok(s) => Some(s),
            Err(_) => None,
        },
    }
}

/// How HTML text writes `c`.
pub open spec fn escape_char(c: char) -> Seq<char> {
    if c == '&' {
        "&amp;"@
    } else if c == '<' {
        "&lt;"@
    } else if c == '>' {
        "&gt;"@
    } else {
        seq![c]
    }
}

/// `s` with every `&`, `<` and `>` replaced by its entity.
pub open spec fn html_escaped(s: Seq<char>) -> Seq<char>
    decreases s.len(),
{
    if s.len() == 0 {
        seq![]
    } else {
        html_escaped(s.drop_last()) + escape_char(s.last())
    }
}

/// Relies on `html_escape::encode_text`: every `&`, `<` and `>` replaced by
/// `&amp;`, `&lt;` and `&gt;`, nothing else changed.
#[verifier::external_body]
fn escape_html(s: &str) -> (r: String)
    ensures
        r@ == html_escaped(s@),
{
    html_escape::encode_text(s).into_owned()
}

/// The page for `snippets` over the source file whose bytes are `source`,
/// with the name of the page: `None` when the source cannot be decoded.
pub fn render_report(snippets: &CodeSnippets, source: &[u8]) -> (r: Option<(String, String)>)
    ensures
        source_text(source@) is None ==> r is None,
        source_text(source@) matches Some(t) ==> r matches Some(p) && p.0@ == output_filename(
            snippets.source_filename@,
        ) && p.1@ == html_page(p.0@, html_escaped(t), snippets@),
{
    let text = match decode_source(source) {
        Some(text) => text,
        None => return None,
    };
    let escaped = escape_html(text.as_str());
    let name = get_output_filename(snippets.source_filename.as_str());
    let page = crate::render::write(name.as_str(), escaped.as_str(), snippets);
    Some((name, page))
}

} // verus!
