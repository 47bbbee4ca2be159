//! The satisfiability predicate: which versions each requirement accepts.

use depstatus::requirement::VersionReq;
use depstatus::version::Version;

fn sat(raw: &str, major: u64, minor: u64, patch: u64) -> bool {
    let q = VersionReq::parse(raw.as_bytes().to_vec()).expect("requirement should parse");
    q.satisfies(&Version::new(major, minor, patch))
}

#[test]
fn caret_accepts_compatible_versions() {
    assert!(sat("^1.2.0", 1, 5, 0));
    assert!(sat("^1.2.0", 1, 2, 0));
    assert!(sat("^1.2.0", 1, 2, 7));
    assert!(!sat("^1.2.0", 2, 0, 0));
    assert!(!sat("^1.2.0", 1, 1, 9));
    assert!(!sat("^1.2.0", 0, 9, 0));
}

#[test]
fn caret_on_zero_major_pins_minor() {
    assert!(sat("^0.2", 0, 2, 9));
    assert!(!sat("^0.2", 0, 3, 0));
    assert!(sat("^0.2.3", 0, 2, 3));
    assert!(sat("^0.2.3", 0, 2, 9));
    assert!(!sat("^0.2.3", 0, 2, 2));
    assert!(!sat("^0.2.3", 0, 3, 0));
}

#[test]
fn caret_on_zero_minor_pins_patch() {
    assert!(sat("^0.0.3", 0, 0, 3));
    assert!(!sat("^0.0.3", 0, 0, 4));
    assert!(!sat("^0.0.3", 0, 1, 0));
}

#[test]
fn tilde_allows_patch_level_changes() {
    assert!(sat("~1.2.3", 1, 2, 3));
    assert!(sat("~1.2.3", 1, 2, 9));
    assert!(!sat("~1.2.3", 1, 3, 0));
    assert!(!sat("~1.2.3", 1, 2, 2));
    assert!(sat("~1.2", 1, 2, 0));
    assert!(!sat("~1.2", 1, 3, 0));
    assert!(sat("~1", 1, 9, 9));
    assert!(!sat("~1", 2, 0, 0));
}

#[test]
fn exact_matches_the_given_components() {
    assert!(sat("=1.2.3", 1, 2, 3));
    assert!(!sat("=1.2.3", 1, 2, 4));
    assert!(sat("=1.2", 1, 2, 9));
    assert!(!sat("=1.2", 1, 3, 0));
    assert!(sat("=1", 1, 9, 9));
    assert!(!sat("=1", 2, 0, 0));
}

#[test]
fn comparison_operators() {
    assert!(sat(">1.2.3", 1, 2, 4));
    assert!(!sat(">1.2.3", 1, 2, 3));
    assert!(sat(">=1.2", 1, 2, 0));
    assert!(!sat(">=1.2", 1, 1, 9));
    assert!(sat("<2", 1, 9, 9));
    assert!(!sat("<2", 2, 0, 0));
    assert!(sat("<=1.2.3", 1, 2, 3));
    assert!(!sat("<=1.2.3", 1, 2, 4));
    assert!(sat("<=1.2", 1, 2, 9));
    assert!(!sat("<=1.2", 1, 3, 0));
}

#[test]
fn wildcards() {
    assert!(sat("*", 0, 0, 0));
    assert!(sat("*", 9, 9, 9));
    assert!(sat("1.*", 1, 9, 0));
    assert!(!sat("1.*", 2, 0, 0));
    assert!(sat("1.2.*", 1, 2, 7));
    assert!(!sat("1.2.*", 1, 3, 0));
}

#[test]
fn conjunction_requires_every_comparator() {
    assert!(sat(">=2.0, <3.0", 2, 5, 0));
    assert!(!sat(">=2.0, <3.0", 3, 0, 0));
    assert!(!sat(">=2.0, <3.0", 1, 9, 0));
}
