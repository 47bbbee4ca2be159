//! The analysis pipeline: per-dependency flags, group analysis, registry
//! lookups, counts, and outcome assembly.

use depstatus::analysis::{
    analyze, AnalyzedDependency, GroupEntry, ManifestEntry, Registry, RegistryEntry,
};
use depstatus::outcome::{analyze_manifest, assemble};
use depstatus::requirement::VersionReq;
use depstatus::version::Version;

fn req(raw: &str) -> VersionReq {
    VersionReq::parse(raw.as_bytes().to_vec()).expect("requirement should parse")
}

fn entry(name: &str, requirement: &str) -> ManifestEntry {
    ManifestEntry {
        name: name.as_bytes().to_vec(),
        requirement: requirement.as_bytes().to_vec(),
    }
}

fn registry(entries: &[(&str, (u64, u64, u64))]) -> Registry {
    Registry {
        entries: entries
            .iter()
            .map(|(n, (a, b, c))| RegistryEntry {
                name: n.as_bytes().to_vec(),
                latest: Version::new(*a, *b, *c),
            })
            .collect(),
    }
}

#[test]
fn unknown_latest_is_never_outdated() {
    let d = analyze(req("^1.2.0"), None);
    assert!(!d.is_outdated());
}

#[test]
fn satisfied_requirement_is_up_to_date() {
    let d = analyze(req("^1.2.0"), Some(Version::new(1, 5, 0)));
    assert!(!d.is_outdated());
}

#[test]
fn rejected_latest_is_outdated() {
    let d = analyze(req("^1.2.0"), Some(Version::new(2, 0, 0)));
    assert!(d.is_outdated());
}

#[test]
fn analyze_keeps_its_inputs() {
    let d = analyze(req("~2.1"), Some(Version::new(2, 1, 4)));
    assert_eq!(d.required, req("~2.1"));
    assert_eq!(d.latest, Some(Version::new(2, 1, 4)));
}

#[test]
fn lookup_finds_known_names_only() {
    let reg = registry(&[("serde", (1, 0, 200)), ("rand", (0, 8, 5))]);
    assert_eq!(
        reg.lookup(&b"serde".to_vec()),
        Some(Version::new(1, 0, 200))
    );
    assert_eq!(reg.lookup(&b"rand".to_vec()), Some(Version::new(0, 8, 5)));
    assert_eq!(reg.lookup(&b"unknown".to_vec()), None);
}

#[test]
fn lookup_takes_the_first_of_duplicate_names() {
    let reg = registry(&[("serde", (1, 0, 0)), ("serde", (2, 0, 0))]);
    assert_eq!(reg.lookup(&b"serde".to_vec()), Some(Version::new(1, 0, 0)));
}

#[test]
fn group_rows_come_back_sorted_by_name() {
    let group = vec![entry("zlib", "1.0"), entry("alpha", "1.0"), entry("mid", "1.0")];
    let reg = registry(&[]);
    let out = depstatus::analysis::analyze_group(&group, &reg);
    let names: Vec<Vec<u8>> = out.entries.iter().map(|e| e.name.clone()).collect();
    assert_eq!(
        names,
        vec![b"alpha".to_vec(), b"mid".to_vec(), b"zlib".to_vec()]
    );
}

#[test]
fn one_malformed_requirement_spoils_only_its_own_row() {
    let group = vec![
        entry("good", "^1.0"),
        entry("bad", "not-a-requirement"),
        entry("fine", ">=2, <4"),
    ];
    let reg = registry(&[("good", (1, 2, 0)), ("fine", (3, 0, 0))]);
    let out = depstatus::analysis::analyze_group(&group, &reg);
    assert_eq!(out.len(), 3);
    assert_eq!(out.count_analyzed(), 2);
    assert_eq!(out.count_invalid(), 1);
    let bad: &GroupEntry = out
        .entries
        .iter()
        .find(|e| e.name == b"bad".to_vec())
        .unwrap();
    match &bad.analysis {
        Err(inv) => assert_eq!(inv.raw, b"not-a-requirement".to_vec()),
        Ok(_) => panic!("the malformed requirement must yield an error row"),
    }
    for name in ["good", "fine"] {
        let row = out
            .entries
            .iter()
            .find(|e| e.name == name.as_bytes().to_vec())
            .unwrap();
        assert!(row.analysis.is_ok());
    }
}

#[test]
fn missing_registry_record_degrades_to_unknown() {
    let group = vec![entry("ghost", "^9.9")];
    let reg = registry(&[]);
    let out = depstatus::analysis::analyze_group(&group, &reg);
    match &out.entries[0].analysis {
        Ok(AnalyzedDependency { latest, .. }) => assert_eq!(*latest, None),
        Err(_) => panic!("the requirement parses"),
    }
    assert_eq!(out.count_outdated(), 0);
}

#[test]
fn counts_split_the_group_exactly() {
    let group = vec![
        entry("current", "^1.0"),
        entry("stale", "^1.0"),
        entry("broken", "x"),
    ];
    let reg = registry(&[("current", (1, 4, 0)), ("stale", (2, 0, 0))]);
    let out = depstatus::analysis::analyze_group(&group, &reg);
    assert_eq!(out.len(), 3);
    assert!(!out.is_empty());
    assert_eq!(out.count_analyzed(), 2);
    assert_eq!(out.count_outdated(), 1);
    assert_eq!(out.count_invalid(), 1);
}

#[test]
fn a_name_may_appear_in_several_groups_with_different_requirements() {
    let main = vec![entry("shared", "^1.0")];
    let dev = vec![entry("shared", "^2.0")];
    let build: Vec<ManifestEntry> = Vec::new();
    let reg = registry(&[("shared", (2, 1, 0))]);
    let o = analyze_manifest(b"proj".to_vec(), &main, &dev, &build, &reg);
    assert_eq!(o.main.count_outdated(), 1);
    assert_eq!(o.dev.count_outdated(), 0);
}

#[test]
fn assemble_packages_exactly_what_it_was_given() {
    let reg = registry(&[]);
    let main = depstatus::analysis::analyze_group(&vec![entry("a", "1.0")], &reg);
    let dev = depstatus::analysis::analyze_group(&Vec::new(), &reg);
    let build = depstatus::analysis::analyze_group(&Vec::new(), &reg);
    let o = assemble(b"proj".to_vec(), main, dev, build);
    assert_eq!(o.name, b"proj".to_vec());
    assert_eq!(o.main.len(), 1);
    assert!(o.dev.is_empty());
    assert!(o.build.is_empty());
}

#[test]
fn analysis_of_identical_inputs_is_identical() {
    let main = vec![entry("b", "^2.0"), entry("a", "1.0"), entry("c", "bad req")];
    let dev = vec![entry("a", "~0.3")];
    let build: Vec<ManifestEntry> = Vec::new();
    let reg = registry(&[("a", (1, 0, 0)), ("b", (3, 0, 0)), ("c", (1, 1, 1))]);
    let once = analyze_manifest(b"proj".to_vec(), &main, &dev, &build, &reg);
    let twice = analyze_manifest(b"proj".to_vec(), &main, &dev, &build, &reg);
    assert_eq!(once, twice);
}

#[test]
fn whole_manifest_scenario() {
    let main = vec![entry("a", "1.0"), entry("b", "^2.0")];
    let dev: Vec<ManifestEntry> = Vec::new();
    let build: Vec<ManifestEntry> = Vec::new();
    let reg = registry(&[("a", (1, 0, 0)), ("b", (3, 0, 0))]);
    let o = analyze_manifest(b"proj".to_vec(), &main, &dev, &build, &reg);

    assert_eq!(o.main.len(), 2);
    assert_eq!(o.main.count_analyzed(), 2);
    assert_eq!(o.main.count_outdated(), 1);
    assert!(o.dev.is_empty());
    assert!(o.build.is_empty());

    assert_eq!(o.main.entries[0].name, b"a".to_vec());
    assert_eq!(o.main.entries[1].name, b"b".to_vec());
    match &o.main.entries[0].analysis {
        Ok(d) => {
            assert_eq!(d.latest, Some(Version::new(1, 0, 0)));
            assert!(!d.is_outdated());
        },
        Err(_) => panic!("a's requirement parses"),
    }
    match &o.main.entries[1].analysis {
        Ok(d) => {
            assert_eq!(d.latest, Some(Version::new(3, 0, 0)));
            assert!(d.is_outdated());
        },
        Err(_) => panic!("b's requirement parses"),
    }
    assert!(!o.all_up_to_date());
}

#[test]
fn badge_is_up_to_date_only_when_every_group_is() {
    let main = vec![entry("a", "^1.0")];
    let dev = vec![entry("b", "*")];
    let build: Vec<ManifestEntry> = Vec::new();
    let reg = registry(&[("a", (1, 9, 0)), ("b", (4, 0, 0))]);
    let o = analyze_manifest(b"proj".to_vec(), &main, &dev, &build, &reg);
    assert!(o.all_up_to_date());

    let dev2 = vec![entry("b", "<4")];
    let o2 = analyze_manifest(b"proj".to_vec(), &main, &dev2, &build, &reg);
    assert!(!o2.all_up_to_date());
}

#[test]
fn empty_manifest_analyzes_to_empty_groups() {
    let none: Vec<ManifestEntry> = Vec::new();
    let reg = registry(&[("a", (1, 0, 0))]);
    let o = analyze_manifest(b"proj".to_vec(), &none, &none, &none, &reg);
    assert!(o.main.is_empty() && o.dev.is_empty() && o.build.is_empty());
    assert!(o.all_up_to_date());
}
