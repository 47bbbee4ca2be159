//! Per-dependency analysis and whole-group analysis over a registry snapshot.
//!
//! Every manifest line is analyzed independently: its requirement text is
//! parsed, the registry snapshot is asked for the latest version of the name,
//! and the line becomes either an analyzed dependency or an error entry that
//! keeps the offending text. The group's entries come back in ascending name
//! order, so one input always produces one output.

use vstd::prelude::*;

use crate::bytes::{bytes_eq, bytes_le, bytes_le_exec, clone_bytes};
use crate::requirement::{
    parse_req_spec, req_allows, InvalidRequirement, ReqView, VersionReq,
};
use crate::version::Version;

verus! {

/// One manifest line: a dependency name and its declared requirement text.
#[derive(Clone, Debug, PartialEq, Eq)]
pub struct ManifestEntry {
    pub name: Vec<u8>,
    pub requirement: Vec<u8>,
}

#[verifier::ext_equal]
pub ghost struct ManifestEntryView {
    pub name: Seq<u8>,
    pub requirement: Seq<u8>,
}

impl View for ManifestEntry {
    type V = ManifestEntryView;

    open spec fn view(&self) -> ManifestEntryView {
        ManifestEntryView { name: self.name@, requirement: self.requirement@ }
    }
}

/// What a registry snapshot knows of one crate: its latest published version.
#[derive(Clone, Debug, PartialEq, Eq)]
pub struct RegistryEntry {
    pub name: Vec<u8>,
    pub latest: Version,
}

#[verifier::ext_equal]
pub ghost struct RegistryEntryView {
    pub name: Seq<u8>,
    pub latest: Version,
}

impl View for RegistryEntry {
    type V = RegistryEntryView;

    open spec fn view(&self) -> RegistryEntryView {
        RegistryEntryView { name: self.name@, latest: self.latest }
    }
}

/// A completed registry snapshot: the caller gathers every answer to "latest
/// version of X" before analysis begins. A name the snapshot does not hold
/// has no known latest version, which is never treated as an error.
#[derive(Clone, Debug, PartialEq, Eq)]
pub struct Registry {
    pub entries: Vec<RegistryEntry>,
}

impl View for Registry {
    type V = Seq<RegistryEntryView>;

    open spec fn view(&self) -> Seq<RegistryEntryView> {
        self.entries@.map_values(|e: RegistryEntry| e@)
    }
}

/// The latest version the snapshot knows for `name`: the first entry with
/// that name, or `None` when the registry has no record.
pub open spec fn lookup_spec(reg: Seq<RegistryEntryView>, name: Seq<u8>) -> Option<Version>
    decreases reg.len(),
{
    if reg.len() == 0 {
        None
    } else if reg[0].name == name {
        Some(reg[0].latest)
    } else {
        lookup_spec(reg.drop_first(), name)
    }
}

impl Registry {
    /// Look a name up in the snapshot.
    pub fn lookup(&self, name: &Vec<u8>) -> (r: Option<Version>)
        ensures
            r == lookup_spec(self@, name@),
    {
        let mut i: usize = 0;
        proof {
            assert(self@.skip(0) =~= self@);
        }
        while i < self.entries.len()
            invariant
                0 <= i <= self@.len(),
                self@.len() == self.entries@.len(),
                lookup_spec(self@, name@) == lookup_spec(self@.skip(i as int), name@),
            decreases self@.len() - i,
        {
            if bytes_eq(&self.entries[i].name, name) {
                proof {
                    assert(self@.skip(i as int)[0] == self@[i as int]);
                    assert(self@[i as int].name == name@);
                }
                return Some(self.entries[i].latest);
            }
            proof {
                assert(self@.skip(i as int)[0] == self@[i as int]);
                assert(self@.skip(i as int).drop_first() =~= self@.skip(i + 1));
            }
            i = i + 1;
        }
        proof {
            assert(self@.skip(i as int).len() == 0);
        }
        None
    }
}

/// The analysis of one dependency: the declared requirement and the latest
/// version the registry knows, if any.
#[derive(Clone, Debug, PartialEq, Eq)]
pub struct AnalyzedDependency {
    pub required: VersionReq,
    pub latest: Option<Version>,
}

#[verifier::ext_equal]
pub ghost struct AnalyzedDependencyView {
    pub required: ReqView,
    pub latest: Option<Version>,
}

impl View for AnalyzedDependency {
    type V = AnalyzedDependencyView;

    open spec fn view(&self) -> AnalyzedDependencyView {
        AnalyzedDependencyView { required: self.required@, latest: self.latest }
    }
}

/// A dependency is outdated exactly when a latest version is known and the
/// declared requirement rejects it.
pub open spec fn is_outdated_spec(d: AnalyzedDependencyView) -> bool {
    match d.latest {
        Some(l) => !req_allows(d.required.comparators, l),
        None => false,
    }
}

impl AnalyzedDependency {
    /// Whether the manifest would have to be bumped to reach the latest
    /// version: true exactly when a latest version is known and the declared
    /// requirement rejects it.
    pub fn is_outdated(&self) -> (r: bool)
        ensures
            r == is_outdated_spec(self@),
    {
        match &self.latest {
            Some(l) => !self.required.satisfies(l),
            None => false,
        }
    }
}

/// Absence of registry data never signals staleness: a dependency whose
/// latest version is unknown is never outdated.
pub proof fn lemma_unknown_never_outdated(d: AnalyzedDependencyView)
    requires
        d.latest is None,
    ensures
        !is_outdated_spec(d),
{
}

/// With a known latest version the flag is exact: outdated holds if and only
/// if the declared requirement rejects that version, with no leniency.
pub proof fn lemma_outdated_exact(d: AnalyzedDependencyView, l: Version)
    requires
        d.latest == Some(l),
    ensures
        is_outdated_spec(d) == !req_allows(d.required.comparators, l),
{
}

/// Combine one dependency's parsed requirement with the registry's answer.
pub fn analyze(required: VersionReq, latest: Option<Version>) -> (d: AnalyzedDependency)
    ensures
        d@.required == required@,
        d@.latest == latest,
{
    AnalyzedDependency { required, latest }
}

/// One row of an analyzed group: the dependency name, and either its
/// analysis or the reason it could not be analyzed.
#[derive(Debug, PartialEq, Eq)]
pub struct GroupEntry {
    pub name: Vec<u8>,
    pub analysis: Result<AnalyzedDependency, InvalidRequirement>,
}

#[verifier::ext_equal]
pub ghost struct GroupEntryView {
    pub name: Seq<u8>,
    pub analysis: Result<AnalyzedDependencyView, Seq<u8>>,
}

impl View for GroupEntry {
    type V = GroupEntryView;

    open spec fn view(&self) -> GroupEntryView {
        GroupEntryView {
            name: self.name@,
            analysis: match self.analysis {
                Ok(d) => Ok(d@),
                Err(e) => Err(e@),
            },
        }
    }
}

/// The views of a sequence of rows.
pub open spec fn entries_view(s: Seq<GroupEntry>) -> Seq<GroupEntryView> {
    s.map_values(|x: GroupEntry| x@)
}

/// The views of a sequence of manifest lines.
pub open spec fn manifest_view(s: Seq<ManifestEntry>) -> Seq<ManifestEntryView> {
    s.map_values(|e: ManifestEntry| e@)
}

/// The row the analyzer produces for one manifest line: the analysis when the
/// requirement parses, the error entry with the offending text when not.
pub open spec fn analyze_one_spec(e: ManifestEntryView, reg: Seq<RegistryEntryView>)
    -> GroupEntryView {
    match parse_req_spec(e.requirement) {
        Some(cs) => GroupEntryView {
            name: e.name,
            analysis: Ok(
                AnalyzedDependencyView {
                    required: ReqView { raw: e.requirement, comparators: cs },
                    latest: lookup_spec(reg, e.name),
                },
            ),
        },
        None => GroupEntryView { name: e.name, analysis: Err(e.requirement) },
    }
}

/// A row inserted at its place in name order.
pub open spec fn insert_sorted_spec(s: Seq<GroupEntryView>, e: GroupEntryView)
    -> Seq<GroupEntryView>
    decreases s.len(),
{
    if s.len() == 0 {
        seq![e]
    } else if bytes_le(e.name, s[0].name) {
        seq![e] + s
    } else {
        seq![s[0]] + insert_sorted_spec(s.drop_first(), e)
    }
}

/// The rows brought into ascending name order, one insertion at a time.
pub open spec fn sort_entries_spec(s: Seq<GroupEntryView>) -> Seq<GroupEntryView>
    decreases s.len(),
{
    if s.len() == 0 {
        Seq::empty()
    } else {
        insert_sorted_spec(sort_entries_spec(s.drop_last()), s.last())
    }
}

/// The whole group analysis: analyze each manifest line independently, then
/// order the rows by name.
pub open spec fn analyze_group_spec(g: Seq<ManifestEntryView>, reg: Seq<RegistryEntryView>)
    -> Seq<GroupEntryView> {
    sort_entries_spec(g.map_values(|e: ManifestEntryView| analyze_one_spec(e, reg)))
}

/// An analyzed dependency group: rows in ascending name order.
#[derive(Debug, PartialEq, Eq)]
pub struct DependencyGroup {
    pub entries: Vec<GroupEntry>,
}

impl View for DependencyGroup {
    type V = Seq<GroupEntryView>;

    open spec fn view(&self) -> Seq<GroupEntryView> {
        entries_view(self.entries@)
    }
}

proof fn lemma_insert_at(s: Seq<GroupEntryView>, e: GroupEntryView, j: int)
    requires
        0 <= j <= s.len(),
        forall|k: int| 0 <= k < j ==> !bytes_le(e.name, s[k].name),
        j < s.len() ==> bytes_le(e.name, s[j].name),
    ensures
        insert_sorted_spec(s, e) == s.insert(j, e),
    decreases j,
{
    if j == 0 {
        if s.len() == 0 {
            assert(insert_sorted_spec(s, e) =~= s.insert(0, e));
        } else {
            assert(insert_sorted_spec(s, e) =~= s.insert(0, e));
        }
    } else {
        assert(!bytes_le(e.name, s[0].name));
        let t = s.drop_first();
        assert forall|k: int| 0 <= k < j - 1 implies !bytes_le(e.name, t[k].name) by {
            assert(t[k] == s[k + 1]);
        }
        if j - 1 < t.len() {
            assert(t[j - 1] == s[j]);
        }
        lemma_insert_at(t, e, j - 1);
        assert(seq![s[0]] + t.insert(j - 1, e) =~= s.insert(j, e));
    }
}

/// Insert a row at its place in name order.
fn insert_entry(entries: &mut Vec<GroupEntry>, e: GroupEntry)
    ensures
        entries_view(final(entries)@) == insert_sorted_spec(entries_view(old(entries)@), e@),
{
    let mut j: usize = 0;
    while j < entries.len() && !bytes_le_exec(&e.name, &entries[j].name)
        invariant
            0 <= j <= entries@.len(),
            entries@ == old(entries)@,
            forall|k: int| 0 <= k < j ==> !bytes_le(e@.name, #[trigger] entries@[k]@.name),
        decreases entries@.len() - j,
    {
        j = j + 1;
    }
    proof {
        let s = entries_view(entries@);
        assert forall|k: int| 0 <= k < j implies !bytes_le(e@.name, s[k].name) by {
            assert(s[k] == entries@[k]@);
        }
        if j < entries@.len() {
            assert(s[j as int] == entries@[j as int]@);
        }
        lemma_insert_at(s, e@, j as int);
    }
    let ghost prev = entries@;
    entries.insert(j, e);
    proof {
        assert(entries_view(entries@) =~= entries_view(prev).insert(j as int, e@));
    }
}

/// Analyze one manifest line against the registry snapshot.
pub fn analyze_entry(e: &ManifestEntry, registry: &Registry) -> (g: GroupEntry)
    ensures
        g@ == analyze_one_spec(e@, registry@),
{
    let name = clone_bytes(&e.name);
    let raw = clone_bytes(&e.requirement);
    match VersionReq::parse(raw) {
        Ok(req) => {
            let latest = registry.lookup(&e.name);
            let g = GroupEntry {
                name,
                analysis: Ok(AnalyzedDependency { required: req, latest }),
            };
            proof {
                assert(g@ =~= analyze_one_spec(e@, registry@));
            }
            g
        },
        Err(err) => {
            let g = GroupEntry { name, analysis: Err(err) };
            proof {
                assert(g@ =~= analyze_one_spec(e@, registry@));
            }
            g
        },
    }
}

/// Analyze every line of one manifest group against the registry snapshot.
///
/// Each line is analyzed independently: a requirement that does not parse
/// yields that line's error entry and never disturbs its neighbours. The rows
/// come back in ascending name order, so the same manifest group and the same
/// snapshot always yield the same rows.
pub fn analyze_group(group: &Vec<ManifestEntry>, registry: &Registry) -> (out: DependencyGroup)
    ensures
        out@ == analyze_group_spec(manifest_view(group@), registry@),
{
    let mut entries: Vec<GroupEntry> = Vec::new();
    let ghost mv = manifest_view(group@);
    let ghost f = |e: ManifestEntryView| analyze_one_spec(e, registry@);
    proof {
        assert(mv.take(0).map_values(f) =~= Seq::<GroupEntryView>::empty());
        assert(entries_view(entries@) =~= sort_entries_spec(mv.take(0).map_values(f)));
    }
    let mut i: usize = 0;
    while i < group.len()
        invariant
            0 <= i <= group@.len(),
            mv == manifest_view(group@),
            f == (|e: ManifestEntryView| analyze_one_spec(e, registry@)),
            entries_view(entries@) == sort_entries_spec(mv.take(i as int).map_values(f)),
        decreases group@.len() - i,
    {
        let ge = analyze_entry(&group[i], registry);
        insert_entry(&mut entries, ge);
        proof {
            let cur = mv.take(i + 1).map_values(f);
            assert(cur.drop_last() =~= mv.take(i as int).map_values(f));
            assert(mv.take(i + 1).last() == mv[i as int]);
            assert(cur.last() == f(mv[i as int]));
            assert(mv[i as int] == group@[i as int]@);
            assert(ge@ == f(mv[i as int]));
        }
        i = i + 1;
    }
    proof {
        assert(mv.take(group@.len() as int) =~= mv);
    }
    DependencyGroup { entries }
}

/// How many rows of the sequence satisfy `p`.
pub open spec fn count_matching(s: Seq<GroupEntryView>, p: spec_fn(GroupEntryView) -> bool)
    -> int
    decreases s.len(),
{
    if s.len() == 0 {
        0
    } else {
        count_matching(s.drop_last(), p) + (if p(s.last()) {
            1int
        } else {
            0int
        })
    }
}

/// Whether a row is an analyzed dependency flagged outdated.
pub open spec fn entry_outdated(e: GroupEntryView) -> bool {
    match e.analysis {
        Ok(d) => is_outdated_spec(d),
        Err(_) => false,
    }
}

/// Whether a row was analyzed successfully.
pub open spec fn entry_analyzed(e: GroupEntryView) -> bool {
    e.analysis is Ok
}

/// Whether a row records a requirement that did not parse.
pub open spec fn entry_invalid(e: GroupEntryView) -> bool {
    e.analysis is Err
}

pub proof fn lemma_count_matching_bound(s: Seq<GroupEntryView>, p: spec_fn(GroupEntryView) -> bool)
    ensures
        0 <= count_matching(s, p) <= s.len(),
    decreases s.len(),
{
    if s.len() > 0 {
        lemma_count_matching_bound(s.drop_last(), p);
    }
}

impl DependencyGroup {
    /// How many rows the group has, error entries included.
    pub fn len(&self) -> (n: usize)
        ensures
            n == self@.len(),
    {
        self.entries.len()
    }

    /// Whether the group has no rows at all.
    pub fn is_empty(&self) -> (r: bool)
        ensures
            r == (self@.len() == 0),
    {
        self.entries.len() == 0
    }

    /// How many rows were analyzed successfully.
    pub fn count_analyzed(&self) -> (c: usize)
        ensures
            c == count_matching(self@, |e: GroupEntryView| entry_analyzed(e)),
    {
        let ghost p = |e: GroupEntryView| entry_analyzed(e);
        let mut c: usize = 0;
        let mut i: usize = 0;
        proof {
            assert(self@.take(0) =~= Seq::<GroupEntryView>::empty());
            lemma_count_matching_bound(self@.take(0), p);
        }
        while i < self.entries.len()
            invariant
                0 <= i <= self@.len(),
                self@.len() == self.entries@.len(),
                p == (|e: GroupEntryView| entry_analyzed(e)),
                c == count_matching(self@.take(i as int), p),
                c <= i,
            decreases self@.len() - i,
        {
            proof {
                assert(self@.take(i + 1).drop_last() =~= self@.take(i as int));
                assert(self@.take(i + 1).last() == self@[i as int]);
                assert(self@[i as int] == self.entries@[i as int]@);
            }
            match &self.entries[i].analysis {
                Ok(_) => {
                    c = c + 1;
                },
                Err(_) => {},
            }
            i = i + 1;
        }
        proof {
            assert(self@.take(self@.len() as int) =~= self@);
        }
        c
    }

    /// How many rows are flagged outdated.
    pub fn count_outdated(&self) -> (c: usize)
        ensures
            c == count_matching(self@, |e: GroupEntryView| entry_outdated(e)),
    {
        let ghost p = |e: GroupEntryView| entry_outdated(e);
        let mut c: usize = 0;
        let mut i: usize = 0;
        proof {
            assert(self@.take(0) =~= Seq::<GroupEntryView>::empty());
        }
        while i < self.entries.len()
            invariant
                0 <= i <= self@.len(),
                self@.len() == self.entries@.len(),
                p == (|e: GroupEntryView| entry_outdated(e)),
                c == count_matching(self@.take(i as int), p),
                c <= i,
            decreases self@.len() - i,
        {
            proof {
                assert(self@.take(i + 1).drop_last() =~= self@.take(i as int));
                assert(self@.take(i + 1).last() == self@[i as int]);
                assert(self@[i as int] == self.entries@[i as int]@);
            }
            let outdated = match &self.entries[i].analysis {
                Ok(d) => d.is_outdated(),
                Err(_) => false,
            };
            if outdated {
                c = c + 1;
            }
            i = i + 1;
        }
        proof {
            assert(self@.take(self@.len() as int) =~= self@);
        }
        c
    }

    /// How many rows record a requirement that did not parse.
    pub fn count_invalid(&self) -> (c: usize)
        ensures
            c == count_matching(self@, |e: GroupEntryView| entry_invalid(e)),
    {
        let ghost p = |e: GroupEntryView| entry_invalid(e);
        let mut c: usize = 0;
        let mut i: usize = 0;
        proof {
            assert(self@.take(0) =~= Seq::<GroupEntryView>::empty());
        }
        while i < self.entries.len()
            invariant
                0 <= i <= self@.len(),
                self@.len() == self.entries@.len(),
                p == (|e: GroupEntryView| entry_invalid(e)),
                c == count_matching(self@.take(i as int), p),
                c <= i,
            decreases self@.len() - i,
        {
            proof {
                assert(self@.take(i + 1).drop_last() =~= self@.take(i as int));
                assert(self@.take(i + 1).last() == self@[i as int]);
                assert(self@[i as int] == self.entries@[i as int]@);
            }
            match &self.entries[i].analysis {
                Ok(_) => {},
                Err(_) => {
                    c = c + 1;
                },
            }
            i = i + 1;
        }
        proof {
            assert(self@.take(self@.len() as int) =~= self@);
        }
        c
    }
}

} // verus!
