//! Deciding which entries of two mirrored directory trees form a file pair
//! to compare, and how many workers compare them.
use vstd::prelude::*;

use crate::text::chars_of;

verus! {

/// An entry met while walking a directory tree: the components of its path
/// below the tree's root (its own name last), and whether it is a regular file.
#[derive(Debug)]
pub struct WalkEntry {
    pub components: Vec<String>,
    pub is_file: bool,
}

/// What a [`WalkEntry`] holds.
pub struct WalkEntryView {
    pub components: Seq<Seq<char>>,
    pub is_file: bool,
}

impl View for WalkEntry {
    type V = WalkEntryView;

    open spec fn view(&self) -> WalkEntryView {
        WalkEntryView {
            components: self.components@.map_values(|c: String| c@),
            is_file: self.is_file,
        }
    }
}

/// A name that starts with `.` is hidden.
pub open spec fn is_hidden_name(name: Seq<char>) -> bool {
    name.len() > 0 && name[0] == '.'
}

/// Whether the entry named `name` is hidden, and so left out of a walk
/// together with everything below it.
pub fn is_hidden(name: &str) -> (r: bool)
    ensures
        r == is_hidden_name(name@),
{
    let cs = chars_of(name);
    cs.len() > 0 && cs[0] == '.'
}

/// A file name whose extension is `json`: something before a final `.json`.
pub open spec fn has_json_extension(name: Seq<char>) -> bool {
    name.len() > 5 && name.subrange(name.len() - 5, name.len() as int) == ".json"@
}

fn json_extension(name: &String) -> (r: bool)
    ensures
        r == has_json_extension(name@),
{
    let cs = chars_of(name.as_str());
    let ext = chars_of(".json");
    if cs.len() <= 5 {
        return false;
    }
    proof {
        reveal_strlit(".json");
    }
    let r = crate::text::matches_at(cs.as_slice(), ext.as_slice(), cs.len() - 5);
    r
}

/// Two entries of the old and new trees form a pair to compare: both are
/// regular files at the same path below their roots, that path passes
/// through no hidden entry, and the file's extension is `json`.
pub open spec fn is_pair(a: WalkEntryView, b: WalkEntryView) -> bool {
    &&& a.is_file && b.is_file
    &&& a.components.len() > 0
    &&& a.components == b.components
    &&& forall|i: int| 0 <= i < a.components.len() ==> !is_hidden_name(#[trigger] a.components[i])
    &&& has_json_extension(a.components.last())
}

/// Whether the entries `a` (old tree) and `b` (new tree) form a pair to compare.
pub fn should_pair(a: &WalkEntry, b: &WalkEntry) -> (r: bool)
    ensures
        r == is_pair(a@, b@),
{
    if !(a.is_file && b.is_file) || a.components.len() == 0 || a.components.len()
        != b.components.len() {
        return false;
    }
    let n = a.components.len();
    let mut i: usize = 0;
    while i < n
        invariant
            n == a.components@.len(),
            n == b.components@.len(),
            i <= n,
            forall|j: int| 0 <= j < i ==> a@.components[j] == b@.components[j],
            forall|j: int| 0 <= j < i ==> !is_hidden_name(#[trigger] a@.components[j]),
        decreases n - i,
    {
        if a.components[i] != b.components[i] {
            assert(a@.components[i as int] != b@.components[i as int]);
            return false;
        }
        if is_hidden(a.components[i].as_str()) {
            assert(is_hidden_name(a@.components[i as int]));
            return false;
        }
        i = i + 1;
    }
    assert(a@.components =~= b@.components);
    json_extension(&a.components[n - 1])
}

/// A file below a hidden directory, or a hidden file, is never compared, in
/// either tree.
pub proof fn hidden_entries_never_paired(a: WalkEntryView, b: WalkEntryView, i: int)
    requires
        0 <= i < a.components.len() && is_hidden_name(a.components[i]) || 0 <= i
            < b.components.len() && is_hidden_name(b.components[i]),
    ensures
        !is_pair(a, b),
{
}

/// Relies on `num_cpus::get`: the number of logical CPUs this process may use.
#[verifier::external_body]
fn logical_cpus() -> (r: usize) {
    num_cpus::get()
}

/// Number of workers for `cpus` logical CPUs: one fewer, and at least one.
pub fn worker_count(cpus: usize) -> (r: usize)
    ensures
        r == (if cpus < 2 { 1 } else { cpus - 1 }),
        r >= 1,
{
    if cpus < 2 {
        1
    } else {
        cpus - 1
    }
}

/// Number of workers for the CPUs of this machine; at least one.
pub fn pool_size() -> (r: usize)
    ensures
        r >= 1,
{
    worker_count(logical_cpus())
}

} // verus!
