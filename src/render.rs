//! Rendering the grouped differences of one file pair as an HTML page, and
//! naming the page after the source file.
use vstd::prelude::*;

use crate::report::DiffRecord;
use crate::snippets::{groups_view, records_view, CodeSnippets, SnippetsView};
use crate::text::{chars_of, line_spans, lines, span_texts, string_of};
use crate::tree::LinesRange;

verus! {

/// The decimal digit of `d`.
pub open spec fn digit_char(d: nat) -> char {
    ('0' as u32 + d) as char
}

/// The decimal numeral of `n`, without leading zeros.
pub open spec fn decimal_text(n: nat) -> Seq<char>
    decreases n,
{
    if n < 10 {
        seq![digit_char(n)]
    } else {
        decimal_text(n / 10).push(digit_char(n % 10))
    }
}

/// Appends the decimal numeral of `n` to `out`.
pub fn push_decimal(out: &mut Vec<char>, n: u128)
    ensures
        final(out)@ == old(out)@ + decimal_text(n as nat),
    decreases n,
{
    if n >= 10 {
        push_decimal(out, n / 10);
    }
    let d: u32 = (n % 10) as u32;
    out.push(char_from_digit(d));
    proof {
        assert(final(out)@ =~= old(out)@ + decimal_text(n as nat));
    }
}

fn char_from_digit(d: u32) -> (c: char)
    requires
        d < 10,
    ensures
        c == digit_char(d as nat),
{
    if d == 0 {
        '0'
    } else if d == 1 {
        '1'
    } else if d == 2 {
        '2'
    } else if d == 3 {
        '3'
    } else if d == 4 {
        '4'
    } else if d == 5 {
        '5'
    } else if d == 6 {
        '6'
    } else if d == 7 {
        '7'
    } else if d == 8 {
        '8'
    } else {
        '9'
    }
}

/// Appends the characters of `s` to `out`.
pub fn push_text(out: &mut Vec<char>, s: &str)
    ensures
        final(out)@ == old(out)@ + s@,
{
    let cs = chars_of(s);
    push_chars(out, cs.as_slice(), 0, cs.len());
}

/// Appends `s[a..b]` to `out`.
pub fn push_chars(out: &mut Vec<char>, s: &[char], a: usize, b: usize)
    requires
        a <= b <= s.len(),
    ensures
        final(out)@ == old(out)@ + s@.subrange(a as int, b as int),
{
    let mut i: usize = a;
    while i < b
        invariant
            a <= i <= b <= s.len(),
            out@ == old(out)@ + s@.subrange(a as int, i as int),
        decreases b - i,
    {
        out.push(s[i]);
        proof {
            assert(out@ =~= old(out)@ + s@.subrange(a as int, i + 1));
        }
        i = i + 1;
    }
}

/// How a file-level difference is listed.
pub open spec fn global_entry(d: DiffRecord) -> Seq<char> {
    "<b>path:</b> "@ + d.path + " <br>\n<b>old:</b> "@ + d.old + " <br>\n<b>new:</b> "@ + d.new
        + " <br><br>\n"@
}

/// How a difference inside a space is listed.
pub open spec fn space_entry(d: DiffRecord) -> Seq<char> {
    "<b>path:</b> "@ + d.path + "<br>\n<b>old:</b> "@ + d.old + "<br>\n<b>new:</b> "@ + d.new
        + "<br><br>\n"@
}

/// The file-level differences `ds`, listed one after the other.
pub open spec fn global_entries(ds: Seq<DiffRecord>) -> Seq<char>
    decreases ds.len(),
{
    if ds.len() == 0 {
        seq![]
    } else {
        global_entries(ds.drop_last()) + global_entry(ds.last())
    }
}

/// The differences `ds` of one space, listed one after the other.
pub open spec fn space_entries(ds: Seq<DiffRecord>) -> Seq<char>
    decreases ds.len(),
{
    if ds.len() == 0 {
        seq![]
    } else {
        space_entries(ds.drop_last()) + space_entry(ds.last())
    }
}

/// `ls` joined with `'\n'` between consecutive lines.
pub open spec fn join_lines(ls: Seq<Seq<char>>) -> Seq<char>
    decreases ls.len(),
{
    if ls.len() == 0 {
        seq![]
    } else if ls.len() == 1 {
        ls[0]
    } else {
        join_lines(ls.drop_last()) + seq!['\n'] + ls.last()
    }
}

/// The lines of the range `r` among `ls`; as many as there are, none where
/// the range ends before it starts.
pub open spec fn range_lines(ls: Seq<Seq<char>>, r: LinesRange) -> Seq<Seq<char>> {
    let from = if r.start_line <= ls.len() { r.start_line as int } else { ls.len() as int };
    let count = if r.end_line >= r.start_line { r.end_line - r.start_line } else { 0int };
    let to = if from + count <= ls.len() { from + count } else { ls.len() as int };
    ls.subrange(from, to)
}

/// The section of one group: its lines numbered from 1, its differences and
/// the source lines of the range.
pub open spec fn group_section(g: (LinesRange, Seq<DiffRecord>), ls: Seq<Seq<char>>) -> Seq<char> {
    "<h2>Minimal test - lines ("@ + decimal_text(g.0.start_line as nat + 1) + ", "@ + decimal_text(
        g.0.end_line as nat,
    ) + ")</h2>\n"@ + space_entries(g.1) + "<h3>Code</h3>\n"@ + "<pre><i>"@ + join_lines(
        range_lines(ls, g.0),
    ) + "</i></pre>\n\n"@
}

/// The sections of the groups `gs`, in order, over the source lines `ls`.
pub open spec fn group_sections(gs: Seq<(LinesRange, Seq<DiffRecord>)>, ls: Seq<Seq<char>>) -> Seq<char>
    decreases gs.len(),
{
    if gs.len() == 0 {
        seq![]
    } else {
        group_sections(gs.drop_last(), ls) + group_section(gs.last(), ls)
    }
}

/// The HTML page for `v`, titled `title`, over the (escaped) source text `source`.
pub open spec fn html_page(title: Seq<char>, source: Seq<char>, v: SnippetsView) -> Seq<char> {
    "<!DOCTYPE html>\n<html>\n<head>\n    <title>"@ + title + "</title>\n</head>\n<body>\n"@ + (if v.global_metrics.len()
        > 0 {
        "<h1>Global Metrics</h1>\n"@ + global_entries(v.global_metrics)
    } else {
        seq![]
    }) + (if v.global_metrics.len() > 0 && v.snippets_data.len() == 0 {
        "<h2>Code</h2>\n"@ + "<pre><i>"@ + source + "</i></pre>\n\n"@
    } else {
        seq![]
    }) + (if v.snippets_data.len() > 0 {
        "<h1>Spaces Data</h1>\n"@ + group_sections(v.snippets_data, lines(source))
    } else {
        seq![]
    }) + "</body>\n</html>\n"@
}

fn push_global_entries(out: &mut Vec<char>, ds: &Vec<crate::report::SnippetDiff>)
    ensures
        final(out)@ == old(out)@ + global_entries(records_view(ds@)),
{
    let ghost rv = records_view(ds@);
    let mut i: usize = 0;
    while i < ds.len()
        invariant
            i <= ds.len(),
            rv == records_view(ds@),
            out@ == old(out)@ + global_entries(rv.take(i as int)),
        decreases ds.len() - i,
    {
        let d = &ds[i];
        let ghost before = out@;
        push_text(out, "<b>path:</b> ");
        push_text(out, d.path.as_str());
        push_text(out, " <br>\n<b>old:</b> ");
        push_text(out, d.old.as_str());
        push_text(out, " <br>\n<b>new:</b> ");
        push_text(out, d.new.as_str());
        push_text(out, " <br><br>\n");
        proof {
            assert(rv.take(i + 1).drop_last() =~= rv.take(i as int));
            assert(rv[i as int] == d@);
            assert(out@ =~= before + global_entry(d@));
        }
        i = i + 1;
    }
    proof {
        assert(rv.take(i as int) =~= rv);
    }
}

fn push_space_entries(out: &mut Vec<char>, ds: &Vec<crate::report::SnippetDiff>)
    ensures
        final(out)@ == old(out)@ + space_entries(records_view(ds@)),
{
    let ghost rv = records_view(ds@);
    let mut i: usize = 0;
    while i < ds.len()
        invariant
            i <= ds.len(),
            rv == records_view(ds@),
            out@ == old(out)@ + space_entries(rv.take(i as int)),
        decreases ds.len() - i,
    {
        let d = &ds[i];
        let ghost before = out@;
        push_text(out, "<b>path:</b> ");
        push_text(out, d.path.as_str());
        push_text(out, "<br>\n<b>old:</b> ");
        push_text(out, d.old.as_str());
        push_text(out, "<br>\n<b>new:</b> ");
        push_text(out, d.new.as_str());
        push_text(out, "<br><br>\n");
        proof {
            assert(rv.take(i + 1).drop_last() =~= rv.take(i as int));
            assert(rv[i as int] == d@);
            assert(out@ =~= before + space_entry(d@));
        }
        i = i + 1;
    }
    proof {
        assert(rv.take(i as int) =~= rv);
    }
}

/// Appends the lines `spans[from..to]` of `src`, joined with `'\n'`.
fn push_joined(out: &mut Vec<char>, src: &[char], spans: &Vec<(usize, usize)>, from: usize, to: usize)
    requires
        from <= to <= spans@.len(),
        forall|k: int| 0 <= k < spans@.len() ==> #[trigger] spans@[k].0 <= spans@[k].1 <= src@.len(),
    ensures
        final(out)@ == old(out)@ + join_lines(span_texts(src@, spans@).subrange(from as int, to as int)),
{
    let ghost ls = span_texts(src@, spans@);
    let mut i: usize = from;
    while i < to
        invariant
            from <= i <= to <= spans@.len(),
            ls == span_texts(src@, spans@),
            forall|k: int| 0 <= k < spans@.len() ==> #[trigger] spans@[k].0 <= spans@[k].1 <= src@.len(),
            out@ == old(out)@ + join_lines(ls.subrange(from as int, i as int)),
        decreases to - i,
    {
        let ghost before = out@;
        if i > from {
            out.push('\n');
        }
        let (a, b) = spans[i];
        push_chars(out, src, a, b);
        proof {
            let part = ls.subrange(from as int, i + 1);
            assert(part.drop_last() =~= ls.subrange(from as int, i as int));
            assert(part.last() == src@.subrange(a as int, b as int));
            if i > from {
                assert(out@ =~= before + seq!['\n'] + part.last());
            } else {
                assert(part =~= seq![part.last()]);
                assert(out@ =~= before + part.last());
            }
        }
        i = i + 1;
    }
}

/// Appends the source lines of `range`, joined with `'\n'`.
fn push_range_lines(out: &mut Vec<char>, range: LinesRange, src: &[char], spans: &Vec<(usize, usize)>)
    requires
        forall|k: int| 0 <= k < spans@.len() ==> #[trigger] spans@[k].0 <= spans@[k].1 <= src@.len(),
    ensures
        final(out)@ == old(out)@ + join_lines(range_lines(span_texts(src@, spans@), range)),
{
    let n = spans.len();
    let from: usize = if range.start_line <= n {
        range.start_line
    } else {
        n
    };
    let count: usize = if range.end_line >= range.start_line {
        range.end_line - range.start_line
    } else {
        0
    };
    let to: usize = if count <= n - from {
        from + count
    } else {
        n
    };
    push_joined(out, src, spans, from, to);
    assert(range_lines(span_texts(src@, spans@), range) =~= span_texts(src@, spans@).subrange(
        from as int,
        to as int,
    ));
}

fn push_group_section(
    out: &mut Vec<char>,
    g: &(LinesRange, Vec<crate::report::SnippetDiff>),
    src: &[char],
    spans: &Vec<(usize, usize)>,
)
    requires
        forall|k: int| 0 <= k < spans@.len() ==> #[trigger] spans@[k].0 <= spans@[k].1 <= src@.len(),
    ensures
        final(out)@ == old(out)@ + group_section((g.0, records_view(g.1@)), span_texts(src@, spans@)),
{
    let range = g.0;
    push_text(out, "<h2>Minimal test - lines (");
    push_decimal(out, range.start_line as u128 + 1);
    push_text(out, ", ");
    push_decimal(out, range.end_line as u128);
    push_text(out, ")</h2>\n");
    push_space_entries(out, &g.1);
    push_text(out, "<h3>Code</h3>\n");
    push_text(out, "<pre><i>");
    push_range_lines(out, range, src, spans);
    push_text(out, "</i></pre>\n\n");
    assert(out@ =~= old(out)@ + group_section((g.0, records_view(g.1@)), span_texts(src@, spans@)));
}

/// Renders the page for `snippets`, titled `output_filename`, over the
/// source text `source_file` (already escaped for HTML): a file-level
/// section when there are file-level differences (with the whole source
/// when no space changed), then one section per line range with its
/// differences and its source lines.
pub fn write(output_filename: &str, source_file: &str, snippets: &CodeSnippets) -> (r: String)
    ensures
        r@ == html_page(output_filename@, source_file@, snippets@),
{
    let ghost v = snippets@;
    let mut out: Vec<char> = Vec::new();
    push_text(&mut out, "<!DOCTYPE html>\n<html>\n<head>\n    <title>");
    push_text(&mut out, output_filename);
    push_text(&mut out, "</title>\n</head>\n<body>\n");
    let ghost head = out@;
    if snippets.global_metrics.len() > 0 {
        push_text(&mut out, "<h1>Global Metrics</h1>\n");
        push_global_entries(&mut out, &snippets.global_metrics);
    }
    let ghost with_global = out@;
    if snippets.global_metrics.len() > 0 && snippets.snippets_data.len() == 0 {
        push_text(&mut out, "<h2>Code</h2>\n");
        push_text(&mut out, "<pre><i>");
        push_text(&mut out, source_file);
        push_text(&mut out, "</i></pre>\n\n");
    }
    let ghost with_code = out@;
    if snippets.snippets_data.len() > 0 {
        push_text(&mut out, "<h1>Spaces Data</h1>\n");
        let ghost start = out@;
        let src = chars_of(source_file);
        let src_slice = src.as_slice();
        let spans = line_spans(src_slice);
        assert(src_slice@ == src@);
        assert forall|k: int| 0 <= k < spans@.len() implies #[trigger] spans@[k].0 <= spans@[k].1 <= src@.len() by {
            assert(spans@[k].0 <= spans@[k].1 <= src_slice@.len());
        }
        let ghost ls = lines(source_file@);
        let ghost gv = groups_view(snippets.snippets_data@);
        let mut i: usize = 0;
        while i < snippets.snippets_data.len()
            invariant
                i <= snippets.snippets_data.len(),
                gv == groups_view(snippets.snippets_data@),
                span_texts(src@, spans@) == ls,
                src@ == source_file@,
                src_slice@ == src@,
                forall|k: int| 0 <= k < spans@.len() ==> #[trigger] spans@[k].0 <= spans@[k].1 <= src@.len(),
                out@ == start + group_sections(gv.take(i as int), ls),
            decreases snippets.snippets_data.len() - i,
        {
            let ghost before = out@;
            push_group_section(&mut out, &snippets.snippets_data[i], src_slice, &spans);
            proof {
                assert(gv.take(i + 1).drop_last() =~= gv.take(i as int));
                assert(gv.take(i + 1).last() == gv[i as int]);
                assert(out@ =~= before + group_section(gv[i as int], ls));
            }
            i = i + 1;
        }
        proof {
            assert(gv.take(i as int) =~= gv);
        }
    }
    let ghost with_groups = out@;
    push_text(&mut out, "</body>\n</html>\n");
    proof {
        assert(with_global =~= head + (if v.global_metrics.len() > 0 {
            "<h1>Global Metrics</h1>\n"@ + global_entries(v.global_metrics)
        } else {
            seq![]
        }));
        assert(with_code =~= with_global + (if v.global_metrics.len() > 0 && v.snippets_data.len() == 0 {
            "<h2>Code</h2>\n"@ + "<pre><i>"@ + source_file@ + "</i></pre>\n\n"@
        } else {
            seq![]
        }));
        assert(with_groups =~= with_code + (if v.snippets_data.len() > 0 {
            "<h1>Spaces Data</h1>\n"@ + group_sections(v.snippets_data, lines(source_file@))
        } else {
            seq![]
        }));
        assert(out@ =~= html_page(output_filename@, source_file@, v));
    }
    string_of(out.as_slice())
}

/// Length of the first component of a path: the characters before the first `'/'`.
pub open spec fn part_len(s: Seq<char>) -> nat
    decreases s.len(),
{
    if s.len() == 0 || s[0] == '/' {
        0
    } else {
        1 + part_len(s.drop_first())
    }
}

/// The pieces of `s` between `'/'` separators, empty ones included.
pub open spec fn path_parts(s: Seq<char>) -> Seq<Seq<char>>
    decreases s.len(),
{
    let n = part_len(s);
    if n < s.len() {
        seq![s.take(n as int)] + path_parts(s.subrange(n + 1 as int, s.len() as int))
    } else {
        seq![s]
    }
}

/// A piece that names no directory or file: empty, the current or parent
/// directory, or a lone separator character.
pub open spec fn unnamed_part(p: Seq<char>) -> bool {
    ||| p.len() == 0
    ||| p == seq!['.']
    ||| p == seq!['.', '.']
    ||| p == seq![':']
    ||| p == seq!['\\']
}

/// The pieces of `ps` that name a directory or file, in order.
pub open spec fn named_parts(ps: Seq<Seq<char>>) -> Seq<Seq<char>>
    decreases ps.len(),
{
    if ps.len() == 0 {
        seq![]
    } else if unnamed_part(ps.last()) {
        named_parts(ps.drop_last())
    } else {
        named_parts(ps.drop_last()).push(ps.last())
    }
}

/// `ps` joined with `'_'` between consecutive pieces.
pub open spec fn join_parts(ps: Seq<Seq<char>>) -> Seq<char>
    decreases ps.len(),
{
    if ps.len() == 0 {
        seq![]
    } else if ps.len() == 1 {
        ps[0]
    } else {
        join_parts(ps.drop_last()) + seq!['_'] + ps.last()
    }
}

/// The name of the page for the source file at `path`: its named
/// components joined with `'_'`, then `.html`.
pub open spec fn output_filename(path: Seq<char>) -> Seq<char> {
    join_parts(named_parts(path_parts(path))) + ".html"@
}

proof fn lemma_part_len(s: Seq<char>, n: nat)
    requires
        n <= s.len(),
        forall|j: int| 0 <= j < n ==> s[j] != '/',
        n == s.len() || s[n as int] == '/',
    ensures
        part_len(s) == n,
    decreases n,
{
    if n > 0 {
        lemma_part_len(s.drop_first(), (n - 1) as nat);
    }
}

fn is_unnamed(s: &[char], a: usize, b: usize) -> (r: bool)
    requires
        a <= b <= s.len(),
    ensures
        r == unnamed_part(s@.subrange(a as int, b as int)),
{
    let n = b - a;
    let ghost p = s@.subrange(a as int, b as int);
    if n == 0 {
        return true;
    }
    if n == 1 {
        let c = s[a];
        proof {
            assert(p =~= seq![c]);
            if c != '.' {
                assert(p[0] != seq!['.'][0]);
            }
            if c != ':' {
                assert(p[0] != seq![':'][0]);
            }
            if c != '\\' {
                assert(p[0] != seq!['\\'][0]);
            }
            assert(p.len() != seq!['.', '.'].len());
        }
        return c == '.' || c == ':' || c == '\\';
    }
    if n == 2 {
        let c0 = s[a];
        let c1 = s[a + 1];
        proof {
            assert(p =~= seq![c0, c1]);
            if c0 != '.' {
                assert(p[0] != seq!['.', '.'][0]);
            }
            if c1 != '.' {
                assert(p[1] != seq!['.', '.'][1]);
            }
            assert(p.len() != seq!['.'].len());
        }
        return c0 == '.' && c1 == '.';
    }
    assert(p.len() > 2);
    assert(p != seq!['.', '.']) by {
        assert(seq!['.', '.'].len() == 2);
    }
    false
}

/// The name of the page for the source file at `source_path`.
pub fn get_output_filename(source_path: &str) -> (r: String)
    ensures
        r@ == output_filename(source_path@),
{
    let s = chars_of(source_path);
    let ghost sv = s@;
    let ghost mut done: Seq<Seq<char>> = seq![];
    let mut out: Vec<char> = Vec::new();
    let mut any = false;
    let mut pos: usize = 0;
    let mut more = true;
    assert(sv.subrange(0, sv.len() as int) =~= sv);
    while more
        invariant
            sv == s@,
            pos <= s.len(),
            more ==> path_parts(sv) == done + path_parts(sv.subrange(pos as int, sv.len() as int)),
            !more ==> path_parts(sv) == done,
            out@ == join_parts(named_parts(done)),
            any == (named_parts(done).len() > 0),
        decreases s.len() - pos + (if more { 1int } else { 0int }),
    {
        let mut e: usize = pos;
        while e < s.len() && s[e] != '/'
            invariant
                pos <= e <= s.len(),
                forall|j: int| pos <= j < e ==> s@[j] != '/',
            decreases s.len() - e,
        {
            e = e + 1;
        }
        let ghost rest = sv.subrange(pos as int, sv.len() as int);
        let ghost part = sv.subrange(pos as int, e as int);
        proof {
            lemma_part_len(rest, (e - pos) as nat);
            assert(rest.take((e - pos) as int) =~= part);
            if e < s.len() {
                assert(rest.subrange((e - pos) + 1, rest.len() as int) =~= sv.subrange(e + 1, sv.len() as int));
                assert(path_parts(rest) == seq![part] + path_parts(sv.subrange(e + 1, sv.len() as int)));
            } else {
                assert(rest =~= part);
                assert(path_parts(rest) == seq![part]);
            }
        }
        let ghost old_done = done;
        proof {
            done = done.push(part);
            assert(done.drop_last() =~= old_done);
        }
        if !is_unnamed(s.as_slice(), pos, e) {
            if any {
                out.push('_');
            }
            push_chars(&mut out, s.as_slice(), pos, e);
            proof {
                assert(named_parts(done) == named_parts(old_done).push(part));
                if any {
                    assert(out@ =~= join_parts(named_parts(old_done)) + seq!['_'] + part);
                    assert(named_parts(done).drop_last() =~= named_parts(old_done));
                    assert(join_parts(named_parts(done)) == join_parts(named_parts(old_done)) + seq!['_'] + part);
                } else {
                    assert(named_parts(old_done).len() == 0);
                    assert(named_parts(done) =~= seq![part]);
                    assert(out@ =~= part);
                }
            }
            any = true;
        } else {
            proof {
                assert(named_parts(done) == named_parts(old_done));
            }
        }
        if e < s.len() {
            proof {
                assert(path_parts(sv) =~= done + path_parts(sv.subrange(e + 1, sv.len() as int)));
            }
            pos = e + 1;
        } else {
            proof {
                assert(path_parts(sv) =~= done);
            }
            more = false;
        }
    }
    push_text(&mut out, ".html");
    string_of(out.as_slice())
}

} // verus!
