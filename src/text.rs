//! Character-level helpers shared by the parsers and the renderer.
use vstd::prelude::*;

verus! {

/// The characters of `s`, collected once so that later scans index in constant time.
pub fn chars_of(s: &str) -> (r: Vec<char>)
    ensures
        r@ == s@,
{
    let mut r: Vec<char> = Vec::new();
    for c in it: s.chars()
        invariant
            it.seq() == s@,
            r@ == it.seq().take(it.index() as int),
    {
        r.push(c);
    }
    r
}

/// Relies on `FromIterator<char> for String`: the string holds exactly the
/// characters handed to it, in order.
#[verifier::external_body]
pub(crate) fn string_of(cs: &[char]) -> (r: String)
    ensures
        r@ == cs@,
{
    cs.iter().collect::<String>()
}

/// `pat` occurs in `s` starting at position `i`.
pub open spec fn occurs_at(s: Seq<char>, pat: Seq<char>, i: int) -> bool {
    0 <= i && i + pat.len() <= s.len() && s.subrange(i, i + pat.len()) == pat
}

/// `pat` occurs somewhere in `s`.
pub open spec fn contains(s: Seq<char>, pat: Seq<char>) -> bool {
    exists|i: int| occurs_at(s, pat, i)
}

/// Whether `pat` occurs in `s` at position `i`.
pub fn matches_at(s: &[char], pat: &[char], i: usize) -> (r: bool)
    ensures
        r == occurs_at(s@, pat@, i as int),
{
    if i > s.len() || pat.len() > s.len() - i {
        return false;
    }
    let mut k: usize = 0;
    while k < pat.len()
        invariant
            i + pat.len() <= s.len(),
            k <= pat.len(),
            forall|j: int| 0 <= j < k ==> s@[i + j] == pat@[j],
        decreases pat.len() - k,
    {
        if s[i + k] != pat[k] {
            assert(s@.subrange(i as int, i + pat.len())[k as int] != pat@[k as int]);
            return false;
        }
        k = k + 1;
    }
    assert(s@.subrange(i as int, i + pat.len()) =~= pat@);
    true
}

/// Whether `pat` occurs anywhere in `s`.
pub fn contains_chars(s: &[char], pat: &[char]) -> (r: bool)
    ensures
        r == contains(s@, pat@),
{
    let mut i: usize = 0;
    while i < s.len()
        invariant
            i <= s.len(),
            forall|j: int| 0 <= j < i ==> !occurs_at(s@, pat@, j),
        decreases s.len() - i,
    {
        if matches_at(s, pat, i) {
            return true;
        }
        i = i + 1;
    }
    if matches_at(s, pat, i) {
        return true;
    }
    assert forall|j: int| !occurs_at(s@, pat@, j) by {
        if 0 <= j && j + pat@.len() <= s@.len() {
            assert(j <= i);
        }
    }
    false
}

/// Whether `c` has Unicode's `White_Space` property, as `char::is_whitespace` tells it.
pub open spec fn is_space(c: char) -> bool {
    ||| '\t' <= c <= '\r'
    ||| c == ' '
    ||| c == '\u{85}'
    ||| c == '\u{a0}'
    ||| c == '\u{1680}'
    ||| '\u{2000}' <= c <= '\u{200a}'
    ||| c == '\u{2028}'
    ||| c == '\u{2029}'
    ||| c == '\u{202f}'
    ||| c == '\u{205f}'
    ||| c == '\u{3000}'
}

/// Whether `c` is white space.
pub fn is_space_char(c: char) -> (r: bool)
    ensures
        r == is_space(c),
{
    ('\t' <= c && c <= '\r') || c == ' ' || c == '\u{85}' || c == '\u{a0}' || c == '\u{1680}'
        || ('\u{2000}' <= c && c <= '\u{200a}') || c == '\u{2028}' || c == '\u{2029}'
        || c == '\u{202f}' || c == '\u{205f}' || c == '\u{3000}'
}

/// Number of leading white-space characters of `s`.
pub open spec fn leading_space(s: Seq<char>) -> nat
    decreases s.len(),
{
    if s.len() > 0 && is_space(s[0]) {
        1 + leading_space(s.drop_first())
    } else {
        0
    }
}

/// `s` without its leading white space, as `str::trim_start` gives it.
pub open spec fn trim_start(s: Seq<char>) -> Seq<char> {
    s.subrange(leading_space(s) as int, s.len() as int)
}

/// Position of the first character of `s[from..to]` that is not white space, or `to`.
pub fn skip_space(s: &[char], from: usize, to: usize) -> (r: usize)
    requires
        from <= to <= s.len(),
    ensures
        from <= r <= to,
        r - from == leading_space(s@.subrange(from as int, to as int)),
{
    let mut i: usize = from;
    while i < to && is_space_char(s[i])
        invariant
            from <= i <= to <= s.len(),
            forall|j: int| from <= j < i ==> is_space(s@[j]),
        decreases to - i,
    {
        i = i + 1;
    }
    proof {
        lemma_leading_space(s@.subrange(from as int, to as int), (i - from) as nat);
    }
    i
}

proof fn lemma_leading_space(s: Seq<char>, n: nat)
    requires
        n <= s.len(),
        forall|j: int| 0 <= j < n ==> is_space(s[j]),
        n == s.len() || !is_space(s[n as int]),
    ensures
        leading_space(s) == n,
    decreases n,
{
    if n > 0 {
        lemma_leading_space(s.drop_first(), (n - 1) as nat);
    }
}

/// Length of the first line of `s`: the characters before the first `'\n'`.
pub open spec fn line_len(s: Seq<char>) -> nat
    decreases s.len(),
{
    if s.len() == 0 || s[0] == '\n' {
        0
    } else {
        1 + line_len(s.drop_first())
    }
}

/// A line without the `'\r'` of a `"\r\n"` ending.
pub open spec fn drop_cr(l: Seq<char>) -> Seq<char> {
    if l.len() > 0 && l.last() == '\r' {
        l.drop_last()
    } else {
        l
    }
}

/// The lines of `s` as `str::lines` gives them: split at `'\n'` or `"\r\n"`,
/// the final line ending optional, a bare `'\r'` at the very end kept.
pub open spec fn lines(s: Seq<char>) -> Seq<Seq<char>>
    decreases s.len(),
{
    if s.len() == 0 {
        seq![]
    } else {
        let n = line_len(s);
        if n < s.len() {
            seq![drop_cr(s.take(n as int))] + lines(s.subrange((n + 1) as int, s.len() as int))
        } else {
            seq![s]
        }
    }
}

/// The pieces of `s` that `spans` delimit, in order.
pub open spec fn span_texts(s: Seq<char>, spans: Seq<(usize, usize)>) -> Seq<Seq<char>> {
    spans.map_values(|p: (usize, usize)| s.subrange(p.0 as int, p.1 as int))
}

proof fn lemma_line_len(s: Seq<char>, n: nat)
    requires
        n <= s.len(),
        forall|j: int| 0 <= j < n ==> s[j] != '\n',
        n == s.len() || s[n as int] == '\n',
    ensures
        line_len(s) == n,
    decreases n,
{
    if n > 0 {
        lemma_line_len(s.drop_first(), (n - 1) as nat);
    }
}

/// Start and end of each line of `s`, as `lines` gives them.
pub fn line_spans(s: &[char]) -> (r: Vec<(usize, usize)>)
    ensures
        span_texts(s@, r@) == lines(s@),
        forall|k: int| 0 <= k < r@.len() ==> #[trigger] r@[k].0 <= r@[k].1 <= s@.len(),
{
    let mut r: Vec<(usize, usize)> = Vec::new();
    let mut pos: usize = 0;
    proof {
        assert(s@.subrange(0, s@.len() as int) =~= s@);
        assert(span_texts(s@, r@) + lines(s@) =~= lines(s@));
    }
    while pos < s.len()
        invariant
            pos <= s.len(),
            forall|k: int| 0 <= k < r@.len() ==> #[trigger] r@[k].0 <= r@[k].1 <= s@.len(),
            span_texts(s@, r@) + lines(s@.subrange(pos as int, s@.len() as int)) == lines(s@),
        decreases s.len() - pos,
    {
        let mut e: usize = pos;
        while e < s.len() && s[e] != '\n'
            invariant
                pos <= e <= s.len(),
                forall|j: int| pos <= j < e ==> s@[j] != '\n',
            decreases s.len() - e,
        {
            e = e + 1;
        }
        let end: usize = if e < s.len() && e > pos && s[e - 1] == '\r' {
            e - 1
        } else {
            e
        };
        let ghost sub = s@.subrange(pos as int, s@.len() as int);
        let ghost old_r = r@;
        proof {
            lemma_line_len(sub, (e - pos) as nat);
        }
        r.push((pos, end));
        assert forall|k: int| 0 <= k < r@.len() implies #[trigger] r@[k].0 <= r@[k].1 <= s@.len() by {
            if k < old_r.len() {
                assert(r@[k] == old_r[k]);
            }
        }
        let next: usize = if e < s.len() {
            e + 1
        } else {
            s.len()
        };
        proof {
            let n = line_len(sub);
            assert(span_texts(s@, r@) =~= span_texts(s@, old_r).push(s@.subrange(pos as int, end as int)));
            if e < s.len() {
                assert(drop_cr(sub.take(n as int)) =~= s@.subrange(pos as int, end as int));
                assert(sub.subrange((n + 1) as int, sub.len() as int) =~= s@.subrange(next as int, s@.len() as int));
                assert(lines(sub) == seq![s@.subrange(pos as int, end as int)] + lines(s@.subrange(next as int, s@.len() as int)));
            } else {
                assert(sub =~= s@.subrange(pos as int, end as int));
                assert(lines(s@.subrange(next as int, s@.len() as int)) =~= Seq::<Seq<char>>::empty());
            }
            assert(span_texts(s@, r@) + lines(s@.subrange(next as int, s@.len() as int)) =~= span_texts(s@, old_r) + lines(sub));
        }
        pos = next;
    }
    proof {
        assert(lines(s@.subrange(pos as int, s@.len() as int)) =~= Seq::<Seq<char>>::empty());
        assert(span_texts(s@, r@) + Seq::<Seq<char>>::empty() =~= span_texts(s@, r@));
    }
    r
}

} // verus!
