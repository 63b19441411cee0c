//! Reading the textual report of a structural JSON comparison into typed
//! difference records `(field path, old value, new value)`.
//!
//! The report lists one block per differing atom:
//! a header line `json atoms at path "<path>" are not equal:`, a `lhs:` line,
//! the old value, an `rhs:` line and the new value; blocks are separated by
//! blank lines, and lines telling of a value present on one side only are
//! skipped.
use vstd::prelude::*;

use crate::text::{
    chars_of, contains, contains_chars, line_spans, lines, skip_space, span_texts, string_of,
    trim_start,
};

verus! {

/// One relevant difference between two metric trees.
#[derive(Debug)]
pub struct SnippetDiff {
    pub path: String,
    pub old: String,
    pub new: String,
}

/// What a [`SnippetDiff`] holds.
pub struct DiffRecord {
    pub path: Seq<char>,
    pub old: Seq<char>,
    pub new: Seq<char>,
}

impl View for SnippetDiff {
    type V = DiffRecord;

    open spec fn view(&self) -> DiffRecord {
        DiffRecord { path: self.path@, old: self.old@, new: self.new@ }
    }
}

/// A report line that is not part of a block: empty, or telling of a value
/// that one side lacks (such spaces may be new in the newer report).
pub open spec fn skipped_line(l: Seq<char>) -> bool {
    l.len() == 0 || contains(l, "is missing from"@)
}

/// The lines of `ls` that are not skipped, in order.
pub open spec fn kept(ls: Seq<Seq<char>>) -> Seq<Seq<char>>
    decreases ls.len(),
{
    if ls.len() == 0 {
        seq![]
    } else if skipped_line(ls.last()) {
        kept(ls.drop_last())
    } else {
        kept(ls.drop_last()).push(ls.last())
    }
}

/// Position of the first `c` in `s` at or after `i`, or the length of `s`.
pub open spec fn find_from(s: Seq<char>, c: char, i: int) -> int
    decreases s.len() - i,
{
    if i < 0 || i >= s.len() {
        s.len() as int
    } else if s[i] == c {
        i
    } else {
        find_from(s, c, i + 1)
    }
}

/// The field path that a header line quotes: what stands between its first
/// and its second double quote (or after the first, if there is no second).
pub open spec fn quoted_path(h: Seq<char>) -> Option<Seq<char>> {
    let q1 = find_from(h, '"', 0);
    if q1 >= h.len() {
        None
    } else {
        Some(h.subrange(q1 + 1, find_from(h, '"', q1 + 1)))
    }
}

/// The record of one block of five kept lines.
pub open spec fn block_record(b: Seq<Seq<char>>) -> Option<DiffRecord> {
    match quoted_path(b[0]) {
        Some(p) => Some(DiffRecord { path: p, old: trim_start(b[2]), new: trim_start(b[4]) }),
        None => None,
    }
}

/// The records of consecutive blocks of five lines of `ls` (a header, a
/// label, the old value, a label, the new value); an incomplete last block is
/// dropped, as is a block whose header quotes no path.
pub open spec fn block_records(ls: Seq<Seq<char>>) -> Seq<DiffRecord>
    decreases ls.len(),
{
    if ls.len() < 5 {
        seq![]
    } else {
        let rest = block_records(ls.subrange(5, ls.len() as int));
        match block_record(ls.take(5)) {
            Some(r) => seq![r] + rest,
            None => rest,
        }
    }
}

/// The difference records of a comparison report.
pub open spec fn report_records(text: Seq<char>) -> Seq<DiffRecord> {
    block_records(kept(lines(text)))
}

/// `s[a..b]` as a vector of its own.
pub fn copy_range(s: &[char], a: usize, b: usize) -> (r: Vec<char>)
    requires
        a <= b <= s.len(),
    ensures
        r@ == s@.subrange(a as int, b as int),
{
    let mut r: Vec<char> = Vec::new();
    let mut i: usize = a;
    while i < b
        invariant
            a <= i <= b <= s.len(),
            r@ == s@.subrange(a as int, i as int),
        decreases b - i,
    {
        r.push(s[i]);
        proof {
            assert(r@ =~= s@.subrange(a as int, i + 1));
        }
        i = i + 1;
    }
    r
}

/// Position of the first `c` in `s` at or after `i`, or the length of `s`.
pub fn find_char(s: &[char], c: char, i: usize) -> (r: usize)
    ensures
        r == find_from(s@, c, i as int),
        i <= s.len() ==> i <= r <= s.len(),
{
    let mut j: usize = i;
    if j > s.len() {
        return s.len();
    }
    while j < s.len() && s[j] != c
        invariant
            i <= j <= s.len(),
            find_from(s@, c, i as int) == find_from(s@, c, j as int),
        decreases s.len() - j,
    {
        j = j + 1;
    }
    j
}

/// The lines of `text` that are not skipped.
fn kept_lines(text: &[char]) -> (r: Vec<Vec<char>>)
    ensures
        r@.map_values(|l: Vec<char>| l@) == kept(lines(text@)),
{
    let spans = line_spans(text);
    let missing = chars_of("is missing from");
    let ghost all = lines(text@);
    let mut r: Vec<Vec<char>> = Vec::new();
    let mut k: usize = 0;
    while k < spans.len()
        invariant
            k <= spans.len(),
            span_texts(text@, spans@) == all,
            missing@ == "is missing from"@,
            forall|j: int| 0 <= j < spans@.len() ==> #[trigger] spans@[j].0 <= spans@[j].1 <= text@.len(),
            r@.map_values(|l: Vec<char>| l@) == kept(all.take(k as int)),
        decreases spans.len() - k,
    {
        let (a, b) = spans[k];
        let line = copy_range(text, a, b);
        let ghost before = r@;
        proof {
            assert(all[k as int] == line@);
            assert(all.take(k + 1).drop_last() =~= all.take(k as int));
            assert(all.take(k + 1).last() == line@);
        }
        if !(line.len() == 0 || contains_chars(line.as_slice(), missing.as_slice())) {
            r.push(line);
            proof {
                assert(r@.map_values(|l: Vec<char>| l@) =~= before.map_values(|l: Vec<char>| l@).push(
                    all[k as int],
                ));
            }
        }
        k = k + 1;
    }
    proof {
        assert(all.take(k as int) =~= all);
    }
    r
}

/// The record of the block of five lines starting at `kept[at]`.
fn read_block(ls: &Vec<Vec<char>>, at: usize) -> (r: Option<SnippetDiff>)
    requires
        at + 5 <= ls.len(),
    ensures
        r matches Some(d) ==> block_record(
            ls@.map_values(|l: Vec<char>| l@).subrange(at as int, at + 5),
        ) == Some(d@),
        r is None ==> block_record(ls@.map_values(|l: Vec<char>| l@).subrange(at as int, at + 5))
            is None,
{
    let ghost b = ls@.map_values(|l: Vec<char>| l@).subrange(at as int, at + 5);
    let h = &ls[at];
    assert(b[0] == h@);
    let q1 = find_char(h.as_slice(), '"', 0);
    if q1 >= h.len() {
        return None;
    }
    let q2 = find_char(h.as_slice(), '"', q1 + 1);
    let path = string_of(copy_range(h.as_slice(), q1 + 1, q2).as_slice());
    let o = &ls[at + 2];
    let n = &ls[at + 4];
    assert(b[2] == o@);
    assert(b[4] == n@);
    let os = skip_space(o.as_slice(), 0, o.len());
    let ns = skip_space(n.as_slice(), 0, n.len());
    proof {
        assert(o@.subrange(0, o@.len() as int) =~= o@);
        assert(n@.subrange(0, n@.len() as int) =~= n@);
    }
    let old = string_of(copy_range(o.as_slice(), os, o.len()).as_slice());
    let new = string_of(copy_range(n.as_slice(), ns, n.len()).as_slice());
    Some(SnippetDiff { path, old, new })
}

/// The difference records of the comparison report `text`, in order.
pub fn parse_report(text: &str) -> (r: Vec<SnippetDiff>)
    ensures
        r@.map_values(|d: SnippetDiff| d@) == report_records(text@),
{
    let cs = chars_of(text);
    let ls = kept_lines(cs.as_slice());
    let ghost all = ls@.map_values(|l: Vec<char>| l@);
    let mut r: Vec<SnippetDiff> = Vec::new();
    let mut at: usize = 0;
    proof {
        assert(all.subrange(0, all.len() as int) =~= all);
        assert(r@.map_values(|d: SnippetDiff| d@) + block_records(all) =~= block_records(all));
    }
    while ls.len() - at >= 5
        invariant
            at <= ls@.len(),
            all == ls@.map_values(|l: Vec<char>| l@),
            r@.map_values(|d: SnippetDiff| d@) + block_records(all.subrange(at as int, all.len() as int))
                == block_records(all),
        decreases ls.len() - at,
    {
        let ghost rest = all.subrange(at as int, all.len() as int);
        let ghost before = r@;
        proof {
            assert(rest.take(5) =~= all.subrange(at as int, at + 5));
            assert(rest.subrange(5, rest.len() as int) =~= all.subrange(at + 5, all.len() as int));
        }
        match read_block(&ls, at) {
            Some(d) => {
                r.push(d);
                proof {
                    assert(r@.map_values(|d: SnippetDiff| d@) =~= before.map_values(
                        |d: SnippetDiff| d@,
                    ).push(d@));
                    assert(r@.map_values(|d: SnippetDiff| d@) + block_records(
                        all.subrange(at + 5, all.len() as int),
                    ) =~= before.map_values(|d: SnippetDiff| d@) + block_records(rest));
                }
            },
            None => {},
        }
        at = at + 5;
    }
    proof {
        assert(block_records(all.subrange(at as int, all.len() as int)) =~= Seq::<DiffRecord>::empty());
        assert(r@.map_values(|d: SnippetDiff| d@) + Seq::<DiffRecord>::empty() =~= r@.map_values(
            |d: SnippetDiff| d@,
        ));
    }
    r
}

} // verus!
