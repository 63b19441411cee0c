//! Reading which nested space a field path points into: the `spaces[<n>]`
//! tokens of a path such as `.spaces[0].spaces[2].metrics.loc`.
use vstd::prelude::*;

use crate::text::{chars_of, matches_at, occurs_at};

verus! {

/// An ASCII decimal digit.
pub open spec fn is_digit(c: char) -> bool {
    '0' <= c <= '9'
}

/// Number of leading ASCII digits of `s`.
pub open spec fn digit_run(s: Seq<char>) -> nat
    decreases s.len(),
{
    if s.len() > 0 && is_digit(s[0]) {
        1 + digit_run(s.drop_first())
    } else {
        0
    }
}

/// The number that the decimal digits `d` write.
pub open spec fn decimal_value(d: Seq<char>) -> nat
    decreases d.len(),
{
    if d.len() == 0 {
        0
    } else {
        decimal_value(d.drop_last()) * 10 + (d.last() as u32 - '0' as u32) as nat
    }
}

/// The text that opens a token.
pub open spec fn space_open() -> Seq<char> {
    seq!['s', 'p', 'a', 'c', 'e', 's', '[']
}

/// Digits that follow the opening of a token at `i`.
pub open spec fn run_after_open(s: Seq<char>, i: int) -> nat {
    digit_run(s.subrange(i + 7, s.len() as int))
}

/// A token `spaces[<digits>]` starts at position `i` of `s`.
pub open spec fn token_at(s: Seq<char>, i: int) -> bool {
    &&& occurs_at(s, space_open(), i)
    &&& run_after_open(s, i) > 0
    &&& i + 7 + run_after_open(s, i) < s.len()
    &&& s[i + 7 + run_after_open(s, i)] == ']'
}

/// The index that the token at `i` holds.
pub open spec fn token_index(s: Seq<char>, i: int) -> nat {
    decimal_value(s.subrange(i + 7, i + 7 + run_after_open(s, i)))
}

/// The indices of the tokens of `s` from position `i` on, each token found
/// leftmost first and the search going on after its closing bracket.
pub open spec fn tokens_from(s: Seq<char>, i: int) -> Seq<nat>
    decreases s.len() - i,
{
    if i < 0 || i >= s.len() {
        seq![]
    } else if token_at(s, i) {
        seq![token_index(s, i)] + tokens_from(s, i + 8 + run_after_open(s, i))
    } else {
        tokens_from(s, i + 1)
    }
}

/// The structural path of a field path: the index of each `spaces[<n>]`
/// token, in order. Empty when the field path names no nested space.
pub open spec fn space_path(s: Seq<char>) -> Seq<nat> {
    tokens_from(s, 0)
}

/// An index as a machine word; one past every machine word becomes the largest.
pub open spec fn clamp(n: nat) -> usize {
    if n <= usize::MAX {
        n as usize
    } else {
        usize::MAX
    }
}

/// Each index of `t` as a machine word.
pub open spec fn clamped(t: Seq<nat>) -> Seq<usize> {
    t.map_values(|n: nat| clamp(n))
}

proof fn lemma_digit_run(s: Seq<char>, n: nat)
    requires
        n <= s.len(),
        forall|j: int| 0 <= j < n ==> is_digit(s[j]),
        n == s.len() || !is_digit(s[n as int]),
    ensures
        digit_run(s) == n,
    decreases n,
{
    if n > 0 {
        lemma_digit_run(s.drop_first(), (n - 1) as nat);
    }
}

proof fn lemma_clamp_step(v: nat, d: nat, acc: usize)
    requires
        acc == clamp(v),
        d <= 9,
    ensures
        clamp(v * 10 + d) == (if acc > (usize::MAX - d) / 10 {
            usize::MAX
        } else {
            (acc * 10 + d) as usize
        }),
{
    let m = usize::MAX as int;
    if v > m {
        assert(v * 10 + d > m) by (nonlinear_arith)
            requires
                v > m,
                m >= 0,
        ;
    } else if acc > (m - d) / 10 {
        assert(v * 10 + d > m) by (nonlinear_arith)
            requires
                v == acc,
                v > (m - d) / 10,
                0 <= d <= 9,
                m >= 9,
        ;
    } else {
        assert(v * 10 + d <= m) by (nonlinear_arith)
            requires
                v <= (m - d) / 10,
                0 <= d <= 9,
                m >= 9,
        ;
    }
}

/// The structural path of the field path `s`, each index as a machine word.
pub fn space_path_in(s: &[char]) -> (r: Vec<usize>)
    ensures
        r@ == clamped(space_path(s@)),
{
    let open = chars_of("spaces[");
    proof {
        reveal_strlit("spaces[");
        assert(open@ =~= space_open());
    }
    let mut r: Vec<usize> = Vec::new();
    let mut i: usize = 0;
    while i < s.len()
        invariant
            open@ == space_open(),
            i <= s.len(),
            r@ + clamped(tokens_from(s@, i as int)) == clamped(space_path(s@)),
        decreases s.len() - i,
    {
        let ghost old_r = r@;
        let ghost gi = i as int;
        if matches_at(s, open.as_slice(), i) {
            let first: usize = i + 7;
            let mut j: usize = first;
            let mut acc: usize = 0;
            while j < s.len() && '0' <= s[j] && s[j] <= '9'
                invariant
                    first <= j <= s.len(),
                    forall|k: int| first <= k < j ==> is_digit(s@[k]),
                    acc == clamp(decimal_value(s@.subrange(first as int, j as int))),
                decreases s.len() - j,
            {
                let d: usize = (s[j] as u32 - '0' as u32) as usize;
                proof {
                    let prev = s@.subrange(first as int, j as int);
                    let next = s@.subrange(first as int, j + 1);
                    assert(next.drop_last() =~= prev);
                    assert(next.last() == s@[j as int]);
                    lemma_clamp_step(decimal_value(prev), d as nat, acc);
                }
                if acc > (usize::MAX - d) / 10 {
                    acc = usize::MAX;
                } else {
                    acc = acc * 10 + d;
                }
                j = j + 1;
            }
            proof {
                let tail = s@.subrange(first as int, s@.len() as int);
                lemma_digit_run(tail, (j - first) as nat);
                assert(run_after_open(s@, gi) == j - first);
            }
            if j > first && j < s.len() && s[j] == ']' {
                r.push(acc);
                proof {
                    assert(token_at(s@, gi));
                    assert(clamped(tokens_from(s@, gi)) =~= seq![acc] + clamped(tokens_from(s@, j + 1)));
                    assert(r@ + clamped(tokens_from(s@, j + 1)) =~= old_r + clamped(tokens_from(s@, gi)));
                }
                i = j + 1;
            } else {
                proof {
                    assert(!token_at(s@, gi));
                }
                i = i + 1;
            }
        } else {
            i = i + 1;
        }
    }
    proof {
        assert(clamped(tokens_from(s@, i as int)) =~= Seq::<usize>::empty());
        assert(r@ + Seq::<usize>::empty() =~= r@);
    }
    r
}

/// The structural path of the field path `path`, each index as a machine word.
pub fn space_path_of(path: &str) -> (r: Vec<usize>)
    ensures
        r@ == clamped(space_path(path@)),
{
    let p = chars_of(path);
    space_path_in(p.as_slice())
}

} // verus!
