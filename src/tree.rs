//! The metric tree of a report, reduced to what line resolution reads: each
//! space's declared line bounds and its nested spaces.
use vstd::prelude::*;

verus! {

/// serde_json's JSON value, carried through without looking inside.
#[verifier::external_type_specification]
#[verifier::external_body]
pub struct ExValue(serde_json::Value);

/// Relies on `serde_json::Value::pointer`: looks a value up by a JSON pointer; never panics.
pub assume_specification<'a>[ serde_json::Value::pointer ](
    v: &'a serde_json::Value,
    pointer: &str,
) -> Option<&'a serde_json::Value>;

/// Relies on `serde_json::Value::as_u64`: the value as an unsigned integer, if it is one.
pub assume_specification[ serde_json::Value::as_u64 ](v: &serde_json::Value) -> Option<u64>;

/// Relies on `serde_json::Value::as_array`: the elements, if the value is an array.
pub assume_specification[ serde_json::Value::as_array ](v: &serde_json::Value) -> Option<
    &Vec<serde_json::Value>,
>;

/// Relies on `serde_json::Value::as_str`: the text, if the value is a string.
pub assume_specification[ serde_json::Value::as_str ](v: &serde_json::Value) -> Option<&str>;

/// Relies on `serde_json::from_slice`: parses a JSON document; `None` on malformed input.
#[verifier::external_body]
pub(crate) fn parse_json(bytes: &[u8]) -> (r: Option<serde_json::Value>) {
    serde_json::from_slice(bytes).ok()
}

/// One space of a metric tree: its declared lines (1-based, inclusive start,
/// the end also counting as a line count) and the spaces nested in it.
#[derive(Debug)]
pub struct Space {
    pub start_line: Option<usize>,
    pub end_line: Option<usize>,
    pub spaces: Vec<Space>,
}

/// A range of source lines: `start_line` is 0-based, `end_line` is the
/// 1-based number of the last line, so the range holds lines
/// `start_line .. end_line` counted from 0.
#[derive(Clone, Copy, Debug, PartialEq, Eq, Hash, Structural)]
pub struct LinesRange {
    pub start_line: usize,
    pub end_line: usize,
}

/// The space that `path` addresses, descending from the spaces `spaces` of the root.
pub open spec fn node_at(spaces: Seq<Space>, path: Seq<usize>) -> Option<Space>
    decreases path.len(),
{
    if path.len() == 0 || path[0] >= spaces.len() {
        None
    } else if path.len() == 1 {
        Some(spaces[path[0] as int])
    } else {
        node_at(spaces[path[0] as int].spaces@, path.drop_first())
    }
}

/// The line range of a space: its start made 0-based, its end kept.
pub open spec fn range_of(node: Space) -> Option<LinesRange> {
    match (node.start_line, node.end_line) {
        (Some(s), Some(e)) => if s >= 1 {
            Some(LinesRange { start_line: (s - 1) as usize, end_line: e })
        } else {
            None
        },
        _ => None,
    }
}

/// The line range of the space that `path` addresses, if it exists and
/// declares its bounds.
pub open spec fn resolve(spaces: Seq<Space>, path: Seq<usize>) -> Option<LinesRange> {
    match node_at(spaces, path) {
        Some(n) => range_of(n),
        None => None,
    }
}

/// The line range of a space.
pub fn space_range(node: &Space) -> (r: Option<LinesRange>)
    ensures
        r == range_of(*node),
{
    match (node.start_line, node.end_line) {
        (Some(s), Some(e)) => if s >= 1 {
            Some(LinesRange { start_line: s - 1, end_line: e })
        } else {
            None
        },
        _ => None,
    }
}

/// The line range of the space that `path` addresses below the root's
/// spaces `spaces`; `None` where an index is out of range or the space
/// declares no usable bounds.
pub fn resolve_range(spaces: &Vec<Space>, path: &[usize]) -> (r: Option<LinesRange>)
    ensures
        r == resolve(spaces@, path@),
{
    if path.len() == 0 {
        return None;
    }
    let mut cur: &Vec<Space> = spaces;
    let mut k: usize = 0;
    assert(path@.subrange(0, path@.len() as int) =~= path@);
    while k < path.len()
        invariant
            k < path.len(),
            node_at(spaces@, path@) == node_at(cur@, path@.subrange(k as int, path@.len() as int)),
        decreases path.len() - k,
    {
        let idx = path[k];
        let ghost rest = path@.subrange(k as int, path@.len() as int);
        if idx >= cur.len() {
            return None;
        }
        if k + 1 == path.len() {
            return space_range(&cur[idx]);
        }
        proof {
            assert(rest.drop_first() =~= path@.subrange(k + 1, path@.len() as int));
        }
        cur = &cur[idx].spaces;
        k = k + 1;
    }
    None
}

/// A resolved range is the addressed space's declared bounds, the start made
/// 0-based: `start_line + 1` and `end_line` are what the tree declares.
pub proof fn resolved_range_matches_tree(spaces: Seq<Space>, path: Seq<usize>)
    ensures
        resolve(spaces, path) matches Some(l) ==> node_at(spaces, path) matches Some(n) && n.start_line
            == Some((l.start_line + 1) as usize) && n.end_line == Some(l.end_line),
{
}

/// Deepest nesting of spaces that is read from a document.
pub const MAX_DEPTH: usize = 128;

fn line_field(v: &serde_json::Value, pointer: &str) -> (r: Option<usize>) {
    match v.pointer(pointer) {
        Some(x) => match x.as_u64() {
            Some(n) => if n <= usize::MAX as u64 {
                Some(n as usize)
            } else {
                None
            },
            None => None,
        },
        None => None,
    }
}

/// The space that the JSON value `v` describes, reading `start_line`,
/// `end_line` and the array `spaces`; `None` where nesting goes deeper than
/// `depth` levels.
pub fn space_of(v: &serde_json::Value, depth: usize) -> (r: Option<Space>)
    decreases depth,
{
    if depth == 0 {
        return None;
    }
    let start_line = line_field(v, "/start_line");
    let end_line = line_field(v, "/end_line");
    let mut spaces: Vec<Space> = Vec::new();
    if let Some(a) = v.pointer("/spaces") {
        if let Some(items) = a.as_array() {
            let mut i: usize = 0;
            while i < items.len()
                invariant
                    depth > 0,
                decreases items.len() - i,
            {
                match space_of(&items[i], depth - 1) {
                    Some(s) => spaces.push(s),
                    None => return None,
                }
                i = i + 1;
            }
        }
    }
    Some(Space { start_line, end_line, spaces })
}

} // verus!
