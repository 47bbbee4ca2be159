//! Requirement parsing: the accepted grammar and everything it rejects.

use depstatus::requirement::{Comparator, Op, Partial, VersionReq};

fn parsed(raw: &str) -> VersionReq {
    VersionReq::parse(raw.as_bytes().to_vec()).expect("requirement should parse")
}

fn rejected(raw: &str) {
    assert!(
        VersionReq::parse(raw.as_bytes().to_vec()).is_err(),
        "requirement {:?} should not parse",
        raw
    );
}

#[test]
fn parse_caret_full() {
    let q = parsed("^1.2.0");
    assert_eq!(q.raw, b"^1.2.0".to_vec());
    assert_eq!(
        q.comparators,
        vec![Comparator::Bound(Op::Caret, Partial::Full(1, 2, 0))]
    );
}

#[test]
fn parse_bare_version_means_caret() {
    let q = parsed("1.0");
    assert_eq!(
        q.comparators,
        vec![Comparator::Bound(Op::Caret, Partial::MajorMinor(1, 0))]
    );
    let q = parsed("2");
    assert_eq!(
        q.comparators,
        vec![Comparator::Bound(Op::Caret, Partial::Major(2))]
    );
}

#[test]
fn parse_operators() {
    assert_eq!(
        parsed("=1.2.3").comparators,
        vec![Comparator::Bound(Op::Exact, Partial::Full(1, 2, 3))]
    );
    assert_eq!(
        parsed(">1").comparators,
        vec![Comparator::Bound(Op::Greater, Partial::Major(1))]
    );
    assert_eq!(
        parsed(">=2.0").comparators,
        vec![Comparator::Bound(Op::GreaterEq, Partial::MajorMinor(2, 0))]
    );
    assert_eq!(
        parsed("<3").comparators,
        vec![Comparator::Bound(Op::Less, Partial::Major(3))]
    );
    assert_eq!(
        parsed("<=2.5").comparators,
        vec![Comparator::Bound(Op::LessEq, Partial::MajorMinor(2, 5))]
    );
    assert_eq!(
        parsed("~1.2.3").comparators,
        vec![Comparator::Bound(Op::Tilde, Partial::Full(1, 2, 3))]
    );
}

#[test]
fn parse_wildcards() {
    assert_eq!(parsed("*").comparators, vec![Comparator::WildAny]);
    assert_eq!(parsed("1.*").comparators, vec![Comparator::WildMajor(1)]);
    assert_eq!(
        parsed("1.2.*").comparators,
        vec![Comparator::WildMinor(1, 2)]
    );
}

#[test]
fn parse_conjunction() {
    let q = parsed(">=2.0, <3.0");
    assert_eq!(
        q.comparators,
        vec![
            Comparator::Bound(Op::GreaterEq, Partial::MajorMinor(2, 0)),
            Comparator::Bound(Op::Less, Partial::MajorMinor(3, 0)),
        ]
    );
}

#[test]
fn parse_surrounding_spaces() {
    let q = parsed("  ^1.0  ");
    assert_eq!(
        q.comparators,
        vec![Comparator::Bound(Op::Caret, Partial::MajorMinor(1, 0))]
    );
    assert_eq!(q.raw, b"  ^1.0  ".to_vec());
}

#[test]
fn parse_space_after_operator() {
    assert_eq!(
        parsed(">= 1.0").comparators,
        vec![Comparator::Bound(Op::GreaterEq, Partial::MajorMinor(1, 0))]
    );
    assert_eq!(
        parsed("^ 2").comparators,
        vec![Comparator::Bound(Op::Caret, Partial::Major(2))]
    );
    assert_eq!(
        parsed(">= 2.0, < 3.0").comparators,
        vec![
            Comparator::Bound(Op::GreaterEq, Partial::MajorMinor(2, 0)),
            Comparator::Bound(Op::Less, Partial::MajorMinor(3, 0)),
        ]
    );
}

#[test]
fn parse_largest_value() {
    let q = parsed("18446744073709551615");
    assert_eq!(
        q.comparators,
        vec![Comparator::Bound(Op::Caret, Partial::Major(u64::MAX))]
    );
}

#[test]
fn parse_rejects_malformed() {
    rejected("");
    rejected(" ");
    rejected("abc");
    rejected("^");
    rejected(">=");
    rejected("1..2");
    rejected("1.2.3.4");
    rejected("1.2.x");
    rejected("?1.0");
    rejected("1,");
    rejected(",1");
    rejected("1.0,,2.0");
    rejected(">=1.*");
    rejected("^1.*");
    rejected("-1");
    rejected("1.0, nonsense");
}

#[test]
fn parse_rejects_overflow() {
    rejected("18446744073709551616");
    rejected("99999999999999999999999");
}

#[test]
fn parse_error_keeps_offending_text() {
    let e = VersionReq::parse(b"not a requirement".to_vec()).unwrap_err();
    assert_eq!(e.raw, b"not a requirement".to_vec());
}
