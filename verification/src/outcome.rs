//! The aggregate analysis outcome for one project, and its assembly.

use vstd::prelude::*;

use crate::analysis::{
    analyze_group, analyze_group_spec, count_matching, entry_outdated, manifest_view,
    DependencyGroup, GroupEntryView, ManifestEntry, Registry,
};

verus! {

/// The aggregate result for one project: its name and the three analyzed
/// groups. Constructed once per analysis and read-only thereafter; every
/// presentation layer consumes this and nothing else.
#[derive(Debug, PartialEq, Eq)]
pub struct AnalysisOutcome {
    pub name: Vec<u8>,
    pub main: DependencyGroup,
    pub dev: DependencyGroup,
    pub build: DependencyGroup,
}

#[verifier::ext_equal]
pub ghost struct AnalysisOutcomeView {
    pub name: Seq<u8>,
    pub main: Seq<GroupEntryView>,
    pub dev: Seq<GroupEntryView>,
    pub build: Seq<GroupEntryView>,
}

impl View for AnalysisOutcome {
    type V = AnalysisOutcomeView;

    open spec fn view(&self) -> AnalysisOutcomeView {
        AnalysisOutcomeView {
            name: self.name@,
            main: self.main@,
            dev: self.dev@,
            build: self.build@,
        }
    }
}

/// Package the three analyzed groups with the project's name. Pure
/// packaging: the outcome holds exactly what was passed and nothing else.
pub fn assemble(
    name: Vec<u8>,
    main: DependencyGroup,
    dev: DependencyGroup,
    build: DependencyGroup,
) -> (o: AnalysisOutcome)
    ensures
        o@.name == name@,
        o@.main == main@,
        o@.dev == dev@,
        o@.build == build@,
{
    AnalysisOutcome { name, main, dev, build }
}

/// Analyze a whole manifest: each of its three groups against one registry
/// snapshot, assembled into the outcome. A pure function of its inputs.
pub fn analyze_manifest(
    name: Vec<u8>,
    main: &Vec<ManifestEntry>,
    dev: &Vec<ManifestEntry>,
    build: &Vec<ManifestEntry>,
    registry: &Registry,
) -> (o: AnalysisOutcome)
    ensures
        o@.name == name@,
        o@.main == analyze_group_spec(manifest_view(main@), registry@),
        o@.dev == analyze_group_spec(manifest_view(dev@), registry@),
        o@.build == analyze_group_spec(manifest_view(build@), registry@),
{
    let analyzed_main = analyze_group(main, registry);
    let analyzed_dev = analyze_group(dev, registry);
    let analyzed_build = analyze_group(build, registry);
    assemble(name, analyzed_main, analyzed_dev, analyzed_build)
}

impl AnalysisOutcome {
    /// The overall badge status: up to date only when no group has an
    /// outdated row.
    pub fn all_up_to_date(&self) -> (r: bool)
        ensures
            r == (count_matching(self@.main, |e: GroupEntryView| entry_outdated(e)) == 0
                && count_matching(self@.dev, |e: GroupEntryView| entry_outdated(e)) == 0
                && count_matching(self@.build, |e: GroupEntryView| entry_outdated(e)) == 0),
    {
        let m = self.main.count_outdated();
        let d = self.dev.count_outdated();
        let b = self.build.count_outdated();
        m == 0 && d == 0 && b == 0
    }
}

} // verus!
