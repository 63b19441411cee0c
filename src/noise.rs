//! Which differences are noise: fields that change as a by-product of edits
//! elsewhere (region bounds, identity, derived aggregate metrics).
use vstd::prelude::*;

use crate::text::{chars_of, contains, contains_chars};

verus! {

/// A difference at `path` is noise when the path mentions a region bound, the
/// identity of a space, or a derived metric.
pub open spec fn is_noise(path: Seq<char>) -> bool {
    ||| contains(path, "start_line"@)
    ||| contains(path, "end_line"@)
    ||| contains(path, "name"@)
    ||| contains(path, "kind"@)
    ||| contains(path, "halstead.length"@)
    ||| contains(path, "halstead.volume"@)
    ||| contains(path, "halstead.vocabulary"@)
    ||| contains(path, "halstead.purity_ratio"@)
    ||| contains(path, "halstead.level"@)
    ||| contains(path, "halstead.estimated_program_length"@)
    ||| contains(path, "halstead.time"@)
    ||| contains(path, "halstead.bugs"@)
    ||| contains(path, "halstead.difficulty"@)
    ||| contains(path, "halstead.effort"@)
    ||| contains(path, "metrics.mi"@)
    ||| contains(path, "average"@)
}

fn mentions(path: &[char], word: &str) -> (r: bool)
    ensures
        r == contains(path@, word@),
{
    let w = chars_of(word);
    contains_chars(path, w.as_slice())
}

/// Whether a difference at `path` is noise.
pub fn noise_in(path: &[char]) -> (r: bool)
    ensures
        r == is_noise(path@),
{
    mentions(path, "start_line") || mentions(path, "end_line") || mentions(path, "name")
        || mentions(path, "kind") || mentions(path, "halstead.length")
        || mentions(path, "halstead.volume") || mentions(path, "halstead.vocabulary")
        || mentions(path, "halstead.purity_ratio") || mentions(path, "halstead.level")
        || mentions(path, "halstead.estimated_program_length") || mentions(path, "halstead.time")
        || mentions(path, "halstead.bugs") || mentions(path, "halstead.difficulty")
        || mentions(path, "halstead.effort") || mentions(path, "metrics.mi")
        || mentions(path, "average")
}

/// Whether a difference at the field path `path` is noise.
pub fn is_noise_path(path: &str) -> (r: bool)
    ensures
        r == is_noise(path@),
{
    let p = chars_of(path);
    noise_in(p.as_slice())
}

} // verus!
