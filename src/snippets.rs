//! Grouping the relevant differences of two metric trees by the line range
//! of the space they occur in, apart from the file-level ones.
use vstd::prelude::*;

use crate::noise::{is_noise, noise_in};
use crate::report::{parse_report, report_records, DiffRecord, SnippetDiff};
use crate::space_path::{clamped, space_path, space_path_in};
use crate::text::chars_of;
use crate::tree::{parse_json, resolve, resolve_range, space_of, LinesRange, Space, MAX_DEPTH};

verus! {

/// The differences found for one file pair: file-level ones, and the others
/// grouped by line range in order of first appearance, one group per range.
#[derive(Debug)]
pub struct CodeSnippets {
    pub source_filename: String,
    pub global_metrics: Vec<SnippetDiff>,
    pub snippets_data: Vec<(LinesRange, Vec<SnippetDiff>)>,
}

/// What [`CodeSnippets`] holds.
pub struct SnippetsView {
    pub source_filename: Seq<char>,
    pub global_metrics: Seq<DiffRecord>,
    pub snippets_data: Seq<(LinesRange, Seq<DiffRecord>)>,
}

/// What each difference of `v` holds.
pub open spec fn records_view(v: Seq<SnippetDiff>) -> Seq<DiffRecord> {
    v.map_values(|d: SnippetDiff| d@)
}

/// What each group of `g` holds.
pub open spec fn groups_view(g: Seq<(LinesRange, Vec<SnippetDiff>)>) -> Seq<
    (LinesRange, Seq<DiffRecord>),
> {
    g.map_values(|p: (LinesRange, Vec<SnippetDiff>)| (p.0, records_view(p.1@)))
}

impl View for CodeSnippets {
    type V = SnippetsView;

    open spec fn view(&self) -> SnippetsView {
        SnippetsView {
            source_filename: self.source_filename@,
            global_metrics: records_view(self.global_metrics@),
            snippets_data: groups_view(self.snippets_data@),
        }
    }
}

/// The line range of the space a difference occurs in; `None` for a
/// file-level difference and for one whose space the tree lacks.
pub open spec fn region_of(d: DiffRecord, spaces: Seq<Space>) -> Option<LinesRange> {
    let p = clamped(space_path(d.path));
    if p.len() == 0 {
        None
    } else {
        resolve(spaces, p)
    }
}

/// A relevant difference that names no nested space.
pub open spec fn is_global(d: DiffRecord) -> bool {
    !is_noise(d.path) && space_path(d.path).len() == 0
}

/// The file-level differences among `rs`, in order.
pub open spec fn global_of(rs: Seq<DiffRecord>) -> Seq<DiffRecord>
    decreases rs.len(),
{
    if rs.len() == 0 {
        seq![]
    } else if is_global(rs.last()) {
        global_of(rs.drop_last()).push(rs.last())
    } else {
        global_of(rs.drop_last())
    }
}

/// `d` added to the group of `k`, or in a new group of its own at the end.
pub open spec fn add_to_group(gs: Seq<(LinesRange, Seq<DiffRecord>)>, k: LinesRange, d: DiffRecord) -> Seq<
    (LinesRange, Seq<DiffRecord>),
>
    decreases gs.len(),
{
    if gs.len() == 0 {
        seq![(k, seq![d])]
    } else if gs[0].0 == k {
        gs.update(0, (k, gs[0].1.push(d)))
    } else {
        seq![gs[0]] + add_to_group(gs.drop_first(), k, d)
    }
}

/// The relevant region-scoped differences among `rs`, grouped by line range.
pub open spec fn groups_of(rs: Seq<DiffRecord>, spaces: Seq<Space>) -> Seq<
    (LinesRange, Seq<DiffRecord>),
>
    decreases rs.len(),
{
    if rs.len() == 0 {
        seq![]
    } else {
        let gs = groups_of(rs.drop_last(), spaces);
        let d = rs.last();
        if !is_noise(d.path) && region_of(d, spaces) is Some {
            add_to_group(gs, region_of(d, spaces)->0, d)
        } else {
            gs
        }
    }
}

/// What comparing yields for the comparison report `text` against the new
/// tree whose root holds the spaces `spaces`.
pub open spec fn snippets_of(text: Seq<char>, spaces: Seq<Space>, name: Seq<char>) -> SnippetsView {
    SnippetsView {
        source_filename: name,
        global_metrics: global_of(report_records(text)),
        snippets_data: groups_of(report_records(text), spaces),
    }
}

proof fn lemma_add_found(gs: Seq<(LinesRange, Seq<DiffRecord>)>, k: LinesRange, d: DiffRecord, i: int)
    requires
        0 <= i < gs.len(),
        gs[i].0 == k,
        forall|j: int| 0 <= j < i ==> gs[j].0 != k,
    ensures
        add_to_group(gs, k, d) == gs.update(i, (k, gs[i].1.push(d))),
    decreases i,
{
    if i > 0 {
        lemma_add_found(gs.drop_first(), k, d, i - 1);
        assert(add_to_group(gs, k, d) =~= gs.update(i, (k, gs[i].1.push(d))));
    }
}

proof fn lemma_add_absent(gs: Seq<(LinesRange, Seq<DiffRecord>)>, k: LinesRange, d: DiffRecord)
    requires
        forall|j: int| 0 <= j < gs.len() ==> gs[j].0 != k,
    ensures
        add_to_group(gs, k, d) == gs.push((k, seq![d])),
    decreases gs.len(),
{
    if gs.len() > 0 {
        lemma_add_absent(gs.drop_first(), k, d);
        assert(add_to_group(gs, k, d) =~= gs.push((k, seq![d])));
    }
}

/// Adds `d` to the group of `k`, or opens a group for `k` at the end.
fn add_diff(groups: &mut Vec<(LinesRange, Vec<SnippetDiff>)>, k: LinesRange, d: SnippetDiff)
    ensures
        groups_view(final(groups)@) == add_to_group(groups_view(old(groups)@), k, d@),
{
    let ghost gs = groups_view(groups@);
    let mut i: usize = 0;
    while i < groups.len()
        invariant
            i <= groups.len(),
            gs == groups_view(groups@),
            groups@ == old(groups)@,
            forall|j: int| 0 <= j < i ==> gs[j].0 != k,
        decreases groups.len() - i,
    {
        if groups[i].0 == k {
            let ghost dv = d@;
            assert(gs[i as int] == (groups@[i as int].0, records_view(groups@[i as int].1@)));
            let mut entry = groups.remove(i);
            entry.1.push(d);
            groups.insert(i, entry);
            proof {
                lemma_add_found(gs, k, dv, i as int);
                assert(records_view(entry.1@) =~= gs[i as int].1.push(dv));
                assert(groups_view(groups@) =~= gs.update(i as int, (k, gs[i as int].1.push(dv))));
            }
            return;
        }
        i = i + 1;
    }
    let ghost dv = d@;
    let mut fresh: Vec<SnippetDiff> = Vec::new();
    fresh.push(d);
    groups.push((k, fresh));
    proof {
        lemma_add_absent(gs, k, dv);
        assert(records_view(fresh@) =~= seq![dv]);
        assert(groups_view(groups@) =~= gs.push((k, seq![dv])));
    }
}

/// Groups the differences that the comparison report `report` lists against
/// the new tree, whose root holds the spaces `spaces`: noise is dropped,
/// file-level differences are kept apart, and each other difference joins
/// the group of the line range of its space (dropped where the new tree has
/// no such space).
pub fn snippets_from_report(report: &str, spaces: &Vec<Space>, source_filename: String) -> (r:
    CodeSnippets)
    ensures
        r@ == snippets_of(report@, spaces@, source_filename@),
{
    let records = parse_report(report);
    let ghost rs = records_view(records@);
    let mut global_metrics: Vec<SnippetDiff> = Vec::new();
    let mut snippets_data: Vec<(LinesRange, Vec<SnippetDiff>)> = Vec::new();
    for d in it: records.into_iter()
        invariant
            rs == records_view(it.seq()),
            records_view(global_metrics@) == global_of(rs.take(it.index() as int)),
            groups_view(snippets_data@) == groups_of(rs.take(it.index() as int), spaces@),
    {
        let ghost n = it.index() as int;
        let ghost dv = d@;
        proof {
            assert(rs.take(n + 1).drop_last() =~= rs.take(n));
            assert(rs.take(n + 1).last() == dv);
        }
        let path = chars_of(d.path.as_str());
        if !noise_in(path.as_slice()) {
            let p = space_path_in(path.as_slice());
            if p.len() == 0 {
                let ghost before = global_metrics@;
                global_metrics.push(d);
                proof {
                    assert(records_view(global_metrics@) =~= records_view(before).push(dv));
                }
            } else {
                match resolve_range(spaces, p.as_slice()) {
                    Some(k) => {
                        add_diff(&mut snippets_data, k, d);
                    },
                    None => {},
                }
            }
        }
    }
    proof {
        assert(rs.take(rs.len() as int) =~= rs);
    }
    CodeSnippets { source_filename, global_metrics, snippets_data }
}

/// The group of `k` in `gs`, empty if there is none.
pub open spec fn group_for(gs: Seq<(LinesRange, Seq<DiffRecord>)>, k: LinesRange) -> Seq<DiffRecord>
    decreases gs.len(),
{
    if gs.len() == 0 {
        seq![]
    } else if gs[0].0 == k {
        gs[0].1
    } else {
        group_for(gs.drop_first(), k)
    }
}

/// The relevant differences among `rs` whose space has the line range `k`, in order.
pub open spec fn in_region(rs: Seq<DiffRecord>, spaces: Seq<Space>, k: LinesRange) -> Seq<DiffRecord>
    decreases rs.len(),
{
    if rs.len() == 0 {
        seq![]
    } else if !is_noise(rs.last().path) && region_of(rs.last(), spaces) == Some(k) {
        in_region(rs.drop_last(), spaces, k).push(rs.last())
    } else {
        in_region(rs.drop_last(), spaces, k)
    }
}

/// No two groups share a line range.
pub open spec fn keys_unique(gs: Seq<(LinesRange, Seq<DiffRecord>)>) -> bool {
    forall|i: int, j: int| 0 <= i < j < gs.len() ==> gs[i].0 != gs[j].0
}

/// Every difference that `gs` holds is relevant.
pub open spec fn all_relevant(gs: Seq<(LinesRange, Seq<DiffRecord>)>) -> bool {
    forall|g: int, j: int| 0 <= g < gs.len() && 0 <= j < gs[g].1.len() ==> !is_noise(#[trigger] gs[g].1[j].path)
}

proof fn lemma_group_for_add(gs: Seq<(LinesRange, Seq<DiffRecord>)>, k: LinesRange, d: DiffRecord, q: LinesRange)
    ensures
        group_for(add_to_group(gs, k, d), q) == if q == k {
            group_for(gs, q).push(d)
        } else {
            group_for(gs, q)
        },
    decreases gs.len(),
{
    if gs.len() == 0 {
        assert(add_to_group(gs, k, d).drop_first() =~= Seq::<(LinesRange, Seq<DiffRecord>)>::empty());
        assert(Seq::<DiffRecord>::empty().push(d) =~= seq![d]);
        assert(group_for(Seq::<(LinesRange, Seq<DiffRecord>)>::empty(), q) == Seq::<DiffRecord>::empty());
    } else if gs[0].0 == k {
        assert(add_to_group(gs, k, d).drop_first() =~= gs.drop_first());
    } else {
        lemma_group_for_add(gs.drop_first(), k, d, q);
        assert(add_to_group(gs, k, d).drop_first() =~= add_to_group(gs.drop_first(), k, d));
    }
}

proof fn lemma_add_keeps(gs: Seq<(LinesRange, Seq<DiffRecord>)>, k: LinesRange, d: DiffRecord)
    requires
        keys_unique(gs),
        all_relevant(gs),
        !is_noise(d.path),
    ensures
        keys_unique(add_to_group(gs, k, d)),
        all_relevant(add_to_group(gs, k, d)),
        forall|i: int| 0 <= i < add_to_group(gs, k, d).len() ==> #[trigger] add_to_group(gs, k, d)[i].0 == k
            || exists|j: int| 0 <= j < gs.len() && gs[j].0 == add_to_group(gs, k, d)[i].0,
    decreases gs.len(),
{
    let a = add_to_group(gs, k, d);
    if gs.len() == 0 {
    } else if gs[0].0 == k {
        assert forall|g: int, j: int| 0 <= g < a.len() && 0 <= j < a[g].1.len() implies !is_noise(#[trigger] a[g].1[j].path) by {
            if g == 0 && j < gs[0].1.len() {
                assert(a[0].1[j] == gs[0].1[j]);
            }
        }
        assert forall|i: int| 0 <= i < a.len() implies #[trigger] a[i].0 == k
            || exists|j: int| 0 <= j < gs.len() && gs[j].0 == a[i].0 by {
            assert(gs[i].0 == a[i].0);
        }
    } else {
        let t = gs.drop_first();
        lemma_add_keeps(t, k, d);
        let at = add_to_group(t, k, d);
        assert(a =~= seq![gs[0]] + at);
        assert forall|i: int, j: int| 0 <= i < j < a.len() implies a[i].0 != a[j].0 by {
            if i == 0 {
                assert(a[j] == at[j - 1]);
                if at[j - 1].0 != k {
                    let w = choose|w: int| 0 <= w < t.len() && t[w].0 == at[j - 1].0;
                    assert(t[w] == gs[w + 1]);
                }
            } else {
                assert(a[i] == at[i - 1]);
                assert(a[j] == at[j - 1]);
            }
        }
        assert forall|g: int, j: int| 0 <= g < a.len() && 0 <= j < a[g].1.len() implies !is_noise(#[trigger] a[g].1[j].path) by {
            if g == 0 {
                assert(a[0] == gs[0]);
            } else {
                assert(a[g] == at[g - 1]);
                assert(at[g - 1].1[j] == a[g].1[j]);
            }
        }
        assert forall|i: int| 0 <= i < a.len() implies #[trigger] a[i].0 == k
            || exists|j: int| 0 <= j < gs.len() && gs[j].0 == a[i].0 by {
            if i == 0 {
                assert(gs[0].0 == a[0].0);
            } else {
                assert(a[i] == at[i - 1]);
                if at[i - 1].0 != k {
                    let w = choose|w: int| 0 <= w < t.len() && t[w].0 == at[i - 1].0;
                    assert(t[w] == gs[w + 1]);
                }
            }
        }
    }
}

/// Grouping is by line range alone: the group of a range holds every
/// relevant difference whose space has that range, in order, whatever their
/// paths and values; no range has two groups.
pub proof fn grouped_by_range(rs: Seq<DiffRecord>, spaces: Seq<Space>, k: LinesRange)
    ensures
        group_for(groups_of(rs, spaces), k) == in_region(rs, spaces, k),
        keys_unique(groups_of(rs, spaces)),
    decreases rs.len(),
{
    if rs.len() > 0 {
        grouped_by_range(rs.drop_last(), spaces, k);
        relevant_only(rs.drop_last(), spaces);
        let d = rs.last();
        if !is_noise(d.path) && region_of(d, spaces) is Some {
            lemma_group_for_add(groups_of(rs.drop_last(), spaces), region_of(d, spaces)->0, d, k);
            lemma_add_keeps(groups_of(rs.drop_last(), spaces), region_of(d, spaces)->0, d);
        }
    }
}

/// Noise never reaches the result: every file-level and every grouped
/// difference has a relevant field path.
pub proof fn relevant_only(rs: Seq<DiffRecord>, spaces: Seq<Space>)
    ensures
        forall|i: int| 0 <= i < global_of(rs).len() ==> !is_noise(#[trigger] global_of(rs)[i].path),
        all_relevant(groups_of(rs, spaces)),
        keys_unique(groups_of(rs, spaces)),
    decreases rs.len(),
{
    if rs.len() > 0 {
        relevant_only(rs.drop_last(), spaces);
        let d = rs.last();
        let g0 = global_of(rs.drop_last());
        assert forall|i: int| 0 <= i < global_of(rs).len() implies !is_noise(#[trigger] global_of(rs)[i].path) by {
            if i < g0.len() {
                assert(global_of(rs)[i] == g0[i]);
            }
        }
        if !is_noise(d.path) && region_of(d, spaces) is Some {
            lemma_add_keeps(groups_of(rs.drop_last(), spaces), region_of(d, spaces)->0, d);
        }
    }
}

/// Every difference in `v` is relevant, file-level or grouped.
pub open spec fn relevant_result(v: SnippetsView) -> bool {
    &&& forall|i: int| 0 <= i < v.global_metrics.len() ==> !is_noise(#[trigger] v.global_metrics[i].path)
    &&& all_relevant(v.snippets_data)
}

/// Relies on `assert_json_diff::assert_json_matches_no_panic` in strict
/// mode: `Err` with a textual report of the differing atoms, `Ok` when the
/// two values are equal.
#[verifier::external_body]
fn json_mismatch(old: &serde_json::Value, new: &serde_json::Value) -> (r: Option<String>)
    ensures
        *old == *new ==> r is None,
{
    let config = assert_json_diff::Config::new(assert_json_diff::CompareMode::Strict);
    assert_json_diff::assert_json_matches_no_panic(old, new, config).err()
}

/// Compares an old and a new metric tree. `None` when they do not differ, or
/// when the new tree has no `name` or nests spaces deeper than `MAX_DEPTH`;
/// otherwise the grouped differences of the comparison report against the
/// new tree.
pub fn compare_trees(old: &serde_json::Value, new: &serde_json::Value) -> (r: Option<CodeSnippets>)
    ensures
        *old == *new ==> r is None,
        r matches Some(s) ==> exists|text: Seq<char>, spaces: Seq<Space>|
            s@ == #[trigger] snippets_of(text, spaces, s.source_filename@),
        r matches Some(s) ==> relevant_result(s@),
{
    let report = match json_mismatch(old, new) {
        Some(report) => report,
        None => return None,
    };
    let root = match space_of(new, MAX_DEPTH) {
        Some(root) => root,
        None => return None,
    };
    let name = match new.pointer("/name") {
        Some(v) => match v.as_str() {
            Some(n) => n.to_owned(),
            None => return None,
        },
        None => return None,
    };
    let r = snippets_from_report(report.as_str(), &root.spaces, name);
    let out = Some(r);
    proof {
        let text = report@;
        let spaces = root.spaces@;
        assert(out->0@ == snippets_of(text, spaces, out->0.source_filename@));
        relevant_only(report_records(text), spaces);
    }
    out
}

/// Compares the metric trees that two JSON documents hold. `None` when
/// either is malformed, and as [`compare_trees`] says.
pub fn get_code_snippets(old_json: &[u8], new_json: &[u8]) -> (r: Option<CodeSnippets>)
    ensures
        r matches Some(s) ==> exists|text: Seq<char>, spaces: Seq<Space>|
            s@ == #[trigger] snippets_of(text, spaces, s.source_filename@),
        r matches Some(s) ==> relevant_result(s@),
{
    let old = match parse_json(old_json) {
        Some(v) => v,
        None => return None,
    };
    let new = match parse_json(new_json) {
        Some(v) => v,
        None => return None,
    };
    compare_trees(&old, &new)
}

} // verus!
