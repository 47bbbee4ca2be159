//! Declared version requirements: the constraint grammar, its parser, and the
//! satisfiability predicate `satisfies(requirement, version)`.
//!
//! A requirement is a comma-separated conjunction of comparators. Each
//! comparator is an operator (`=`, `>`, `>=`, `<`, `<=`, `~`, `^`; none means the
//! compatible `^` range) followed by a version `major[.minor[.patch]]`, or one
//! of the wildcard forms `*`, `1.*`, `1.2.*`. Anything else fails to parse.

use vstd::prelude::*;

use crate::bytes::{
    copy_range, find_byte, find_byte_spec, num_val, parse_u64, trim_copy, trim_spec,
    trim_start_copy, trim_start_spec,
};
use crate::version::{version_le, version_lt, Version};

verus! {

/// A comparison operator of the requirement grammar.
#[derive(Clone, Copy, Debug, PartialEq, Eq, Structural)]
pub enum Op {
    Exact,
    Greater,
    GreaterEq,
    Less,
    LessEq,
    Tilde,
    Caret,
}

/// A possibly partial version written after an operator.
#[derive(Clone, Copy, Debug, PartialEq, Eq, Structural)]
pub enum Partial {
    Major(u64),
    MajorMinor(u64, u64),
    Full(u64, u64, u64),
}

/// One comparator of a requirement.
#[derive(Clone, Copy, Debug, PartialEq, Eq, Structural)]
pub enum Comparator {
    /// An operator applied to a partial version.
    Bound(Op, Partial),
    /// `*`: any version.
    WildAny,
    /// `major.*`.
    WildMajor(u64),
    /// `major.minor.*`.
    WildMinor(u64, u64),
}

pub open spec fn exact_allows(p: Partial, v: Version) -> bool {
    match p {
        Partial::Major(mj) => v.major == mj,
        Partial::MajorMinor(mj, mn) => v.major == mj && v.minor == mn,
        Partial::Full(mj, mn, pa) => v == (Version { major: mj, minor: mn, patch: pa }),
    }
}

pub open spec fn greater_allows(p: Partial, v: Version) -> bool {
    match p {
        Partial::Major(mj) => v.major > mj,
        Partial::MajorMinor(mj, mn) => v.major > mj || (v.major == mj && v.minor > mn),
        Partial::Full(mj, mn, pa) => version_lt(Version { major: mj, minor: mn, patch: pa }, v),
    }
}

pub open spec fn greater_eq_allows(p: Partial, v: Version) -> bool {
    match p {
        Partial::Major(mj) => v.major >= mj,
        Partial::MajorMinor(mj, mn) => v.major > mj || (v.major == mj && v.minor >= mn),
        Partial::Full(mj, mn, pa) => version_le(Version { major: mj, minor: mn, patch: pa }, v),
    }
}

pub open spec fn less_allows(p: Partial, v: Version) -> bool {
    match p {
        Partial::Major(mj) => v.major < mj,
        Partial::MajorMinor(mj, mn) => v.major < mj || (v.major == mj && v.minor < mn),
        Partial::Full(mj, mn, pa) => version_lt(v, Version { major: mj, minor: mn, patch: pa }),
    }
}

pub open spec fn less_eq_allows(p: Partial, v: Version) -> bool {
    match p {
        Partial::Major(mj) => v.major <= mj,
        Partial::MajorMinor(mj, mn) => v.major < mj || (v.major == mj && v.minor <= mn),
        Partial::Full(mj, mn, pa) => version_le(v, Version { major: mj, minor: mn, patch: pa }),
    }
}

/// `~`: patch-level changes are allowed once a minor version is given.
pub open spec fn tilde_allows(p: Partial, v: Version) -> bool {
    match p {
        Partial::Major(mj) => v.major == mj,
        Partial::MajorMinor(mj, mn) => v.major == mj && v.minor == mn,
        Partial::Full(mj, mn, pa) => v.major == mj && v.minor == mn && v.patch >= pa,
    }
}

/// `^`: changes that keep the leftmost non-zero component are allowed.
pub open spec fn caret_allows(p: Partial, v: Version) -> bool {
    match p {
        Partial::Major(mj) => v.major == mj,
        Partial::MajorMinor(mj, mn) => if mj > 0 {
            v.major == mj && v.minor >= mn
        } else {
            v.major == 0 && v.minor == mn
        },
        Partial::Full(mj, mn, pa) => if mj > 0 {
            v.major == mj && (v.minor > mn || (v.minor == mn && v.patch >= pa))
        } else if mn > 0 {
            v.major == 0 && v.minor == mn && v.patch >= pa
        } else {
            v.major == 0 && v.minor == 0 && v.patch == pa
        },
    }
}

/// Whether one comparator accepts the version.
pub open spec fn comparator_allows(c: Comparator, v: Version) -> bool {
    match c {
        Comparator::Bound(op, p) => match op {
            Op::Exact => exact_allows(p, v),
            Op::Greater => greater_allows(p, v),
            Op::GreaterEq => greater_eq_allows(p, v),
            Op::Less => less_allows(p, v),
            Op::LessEq => less_eq_allows(p, v),
            Op::Tilde => tilde_allows(p, v),
            Op::Caret => caret_allows(p, v),
        },
        Comparator::WildAny => true,
        Comparator::WildMajor(mj) => v.major == mj,
        Comparator::WildMinor(mj, mn) => v.major == mj && v.minor == mn,
    }
}

/// A requirement accepts a version when every comparator does.
pub open spec fn req_allows(cs: Seq<Comparator>, v: Version) -> bool {
    forall|i: int| 0 <= i < cs.len() ==> comparator_allows(#[trigger] cs[i], v)
}

impl Comparator {
    /// Whether this comparator accepts the version.
    pub fn allows(&self, v: &Version) -> (r: bool)
        ensures
            r == comparator_allows(*self, *v),
    {
        match *self {
            Comparator::Bound(op, p) => {
                match op {
                    Op::Exact => match p {
                        Partial::Major(a) => v.major == a,
                        Partial::MajorMinor(a, b) => v.major == a && v.minor == b,
                        Partial::Full(a, b, c) => v.major == a && v.minor == b && v.patch == c,
                    },
                    Op::Greater => match p {
                        Partial::Major(a) => v.major > a,
                        Partial::MajorMinor(a, b) => v.major > a || (v.major == a && v.minor > b),
                        Partial::Full(a, b, c) => Version::new(a, b, c).lt(v),
                    },
                    Op::GreaterEq => match p {
                        Partial::Major(a) => v.major >= a,
                        Partial::MajorMinor(a, b) => v.major > a || (v.major == a && v.minor >= b),
                        Partial::Full(a, b, c) => Version::new(a, b, c).le(v),
                    },
                    Op::Less => match p {
                        Partial::Major(a) => v.major < a,
                        Partial::MajorMinor(a, b) => v.major < a || (v.major == a && v.minor < b),
                        Partial::Full(a, b, c) => v.lt(&Version::new(a, b, c)),
                    },
                    Op::LessEq => match p {
                        Partial::Major(a) => v.major <= a,
                        Partial::MajorMinor(a, b) => v.major < a || (v.major == a && v.minor <= b),
                        Partial::Full(a, b, c) => v.le(&Version::new(a, b, c)),
                    },
                    Op::Tilde => match p {
                        Partial::Major(a) => v.major == a,
                        Partial::MajorMinor(a, b) => v.major == a && v.minor == b,
                        Partial::Full(a, b, c) => v.major == a && v.minor == b && v.patch >= c,
                    },
                    Op::Caret => match p {
                        Partial::Major(a) => v.major == a,
                        Partial::MajorMinor(a, b) => if a > 0 {
                            v.major == a && v.minor >= b
                        } else {
                            v.major == 0 && v.minor == b
                        },
                        Partial::Full(a, b, c) => if a > 0 {
                            v.major == a && (v.minor > b || (v.minor == b && v.patch >= c))
                        } else if b > 0 {
                            v.major == 0 && v.minor == b && v.patch >= c
                        } else {
                            v.major == 0 && v.minor == 0 && v.patch == c
                        },
                    },
                }
            },
            Comparator::WildAny => true,
            Comparator::WildMajor(mj) => v.major == mj,
            Comparator::WildMinor(mj, mn) => v.major == mj && v.minor == mn,
        }
    }
}

/// The operator at the head of a comparator and how many bytes it takes;
/// no operator means the compatible `^` range.
pub open spec fn op_spec(s: Seq<u8>) -> (Op, int) {
    if s.len() >= 2 && s[0] == 62 && s[1] == 61 {
        (Op::GreaterEq, 2)
    } else if s.len() >= 2 && s[0] == 60 && s[1] == 61 {
        (Op::LessEq, 2)
    } else if s.len() >= 1 && s[0] == 62 {
        (Op::Greater, 1)
    } else if s.len() >= 1 && s[0] == 60 {
        (Op::Less, 1)
    } else if s.len() >= 1 && s[0] == 61 {
        (Op::Exact, 1)
    } else if s.len() >= 1 && s[0] == 126 {
        (Op::Tilde, 1)
    } else if s.len() >= 1 && s[0] == 94 {
        (Op::Caret, 1)
    } else {
        (Op::Caret, 0)
    }
}

/// The comparator a single piece of a requirement denotes, if any: an optional
/// operator, spaces allowed after it, then a dotted partial version or a
/// bare-form wildcard.
pub open spec fn parse_piece_spec(s: Seq<u8>) -> Option<Comparator> {
    let op = op_spec(s).0;
    let n = op_spec(s).1;
    let r = trim_start_spec(s.skip(n));
    if n == 0 && r.len() == 1 && r[0] == 42 {
        Some(Comparator::WildAny)
    } else {
        let d1 = find_byte_spec(r, 46);
        if !(0 <= d1 && d1 < r.len()) {
            match num_val(r) {
                Some(mj) => Some(Comparator::Bound(op, Partial::Major(mj))),
                None => None,
            }
        } else {
            match num_val(r.take(d1)) {
                None => None,
                Some(mj) => {
                    let r1 = r.skip(d1 + 1);
                    let d2 = find_byte_spec(r1, 46);
                    if !(0 <= d2 && d2 < r1.len()) {
                        if n == 0 && r1.len() == 1 && r1[0] == 42 {
                            Some(Comparator::WildMajor(mj))
                        } else {
                            match num_val(r1) {
                                Some(mn) => Some(
                                    Comparator::Bound(op, Partial::MajorMinor(mj, mn)),
                                ),
                                None => None,
                            }
                        }
                    } else {
                        match num_val(r1.take(d2)) {
                            None => None,
                            Some(mn) => {
                                let r2 = r1.skip(d2 + 1);
                                if n == 0 && r2.len() == 1 && r2[0] == 42 {
                                    Some(Comparator::WildMinor(mj, mn))
                                } else {
                                    match num_val(r2) {
                                        Some(pa) => Some(
                                            Comparator::Bound(op, Partial::Full(mj, mn, pa)),
                                        ),
                                        None => None,
                                    }
                                }
                            },
                        }
                    }
                },
            }
        }
    }
}

/// The comparators a whole requirement denotes, if every comma-separated
/// piece (surrounding spaces ignored) denotes one.
pub open spec fn parse_req_spec(s: Seq<u8>) -> Option<Seq<Comparator>>
    decreases s.len(),
{
    let d = find_byte_spec(s, 44);
    if 0 <= d && d < s.len() {
        match parse_piece_spec(trim_spec(s.take(d))) {
            Some(c) => match parse_req_spec(s.skip(d + 1)) {
                Some(rest) => Some(seq![c] + rest),
                None => None,
            },
            None => None,
        }
    } else {
        match parse_piece_spec(trim_spec(s)) {
            Some(c) => Some(seq![c]),
            None => None,
        }
    }
}

/// Parse one comma-separated piece, already trimmed.
fn parse_piece(piece: &Vec<u8>) -> (r: Option<Comparator>)
    ensures
        r == parse_piece_spec(piece@),
{
    let ghost s = piece@;
    let (op, n): (Op, usize) = if piece.len() >= 2 && piece[0] == 62u8 && piece[1] == 61u8 {
        (Op::GreaterEq, 2)
    } else if piece.len() >= 2 && piece[0] == 60u8 && piece[1] == 61u8 {
        (Op::LessEq, 2)
    } else if piece.len() >= 1 && piece[0] == 62u8 {
        (Op::Greater, 1)
    } else if piece.len() >= 1 && piece[0] == 60u8 {
        (Op::Less, 1)
    } else if piece.len() >= 1 && piece[0] == 61u8 {
        (Op::Exact, 1)
    } else if piece.len() >= 1 && piece[0] == 126u8 {
        (Op::Tilde, 1)
    } else if piece.len() >= 1 && piece[0] == 94u8 {
        (Op::Caret, 1)
    } else {
        (Op::Caret, 0)
    };
    proof {
        assert(op_spec(s) == (op, n as int));
    }
    let r_v = trim_start_copy(piece, n, piece.len());
    proof {
        assert(piece@.subrange(n as int, piece@.len() as int) =~= s.skip(n as int));
        assert(r_v@ == trim_start_spec(s.skip(n as int)));
    }
    if n == 0 && r_v.len() == 1 && r_v[0] == 42u8 {
        return Some(Comparator::WildAny);
    }
    let d1 = find_byte(&r_v, 0, 46u8);
    proof {
        assert(r_v@.skip(0) =~= r_v@);
    }
    if d1 == r_v.len() {
        match parse_u64(&r_v) {
            Some(mj) => Some(Comparator::Bound(op, Partial::Major(mj))),
            None => None,
        }
    } else {
        let seg1 = copy_range(&r_v, 0, d1);
        proof {
            assert(seg1@ =~= r_v@.take(d1 as int));
        }
        match parse_u64(&seg1) {
            None => None,
            Some(mj) => {
                let r1 = copy_range(&r_v, d1 + 1, r_v.len());
                proof {
                    assert(r1@ =~= r_v@.skip(d1 + 1));
                }
                let d2 = find_byte(&r1, 0, 46u8);
                proof {
                    assert(r1@.skip(0) =~= r1@);
                }
                if d2 == r1.len() {
                    if n == 0 && r1.len() == 1 && r1[0] == 42u8 {
                        Some(Comparator::WildMajor(mj))
                    } else {
                        match parse_u64(&r1) {
                            Some(mn) => Some(Comparator::Bound(op, Partial::MajorMinor(mj, mn))),
                            None => None,
                        }
                    }
                } else {
                    let seg2 = copy_range(&r1, 0, d2);
                    proof {
                        assert(seg2@ =~= r1@.take(d2 as int));
                    }
                    match parse_u64(&seg2) {
                        None => None,
                        Some(mn) => {
                            let r2 = copy_range(&r1, d2 + 1, r1.len());
                            proof {
                                assert(r2@ =~= r1@.skip(d2 + 1));
                            }
                            if n == 0 && r2.len() == 1 && r2[0] == 42u8 {
                                Some(Comparator::WildMinor(mj, mn))
                            } else {
                                match parse_u64(&r2) {
                                    Some(pa) => Some(
                                        Comparator::Bound(op, Partial::Full(mj, mn, pa)),
                                    ),
                                    None => None,
                                }
                            }
                        },
                    }
                }
            },
        }
    }
}

/// The reason a dependency could not be analyzed: its declared requirement
/// does not parse. Carries the offending text.
#[derive(Clone, Debug, PartialEq, Eq)]
pub struct InvalidRequirement {
    pub raw: Vec<u8>,
}

impl View for InvalidRequirement {
    type V = Seq<u8>;

    open spec fn view(&self) -> Seq<u8> {
        self.raw@
    }
}

/// A parsed requirement: the declared text and the comparators it denotes.
#[derive(Clone, Debug, PartialEq, Eq)]
pub struct VersionReq {
    pub raw: Vec<u8>,
    pub comparators: Vec<Comparator>,
}

/// The mathematical content of a requirement.
#[verifier::ext_equal]
pub ghost struct ReqView {
    pub raw: Seq<u8>,
    pub comparators: Seq<Comparator>,
}

impl View for VersionReq {
    type V = ReqView;

    open spec fn view(&self) -> ReqView {
        ReqView { raw: self.raw@, comparators: self.comparators@ }
    }
}

impl VersionReq {
    /// The comparators are exactly what the declared text parses to.
    pub open spec fn wf(&self) -> bool {
        parse_req_spec(self.raw@) == Some(self.comparators@)
    }

    /// Parse a declared requirement. Returns the parsed requirement exactly
    /// when the text conforms to the grammar; otherwise the error keeps the
    /// offending text. The text is never modified.
    pub fn parse(raw: Vec<u8>) -> (r: Result<VersionReq, InvalidRequirement>)
        ensures
            match r {
                Ok(q) => parse_req_spec(raw@) == Some(q.comparators@) && q.raw@ == raw@ && q.wf(),
                Err(e) => parse_req_spec(raw@) is None && e@ == raw@,
            },
    {
        let mut comps: Vec<Comparator> = Vec::new();
        let mut start: usize = 0;
        proof {
            assert(raw@.skip(0) =~= raw@);
            match parse_req_spec(raw@) {
                Some(t) => {
                    assert(Seq::<Comparator>::empty() + t =~= t);
                },
                None => {},
            }
        }
        loop
            invariant
                start <= raw@.len(),
                (match parse_req_spec(raw@.skip(start as int)) {
                    Some(t) => parse_req_spec(raw@) == Some(comps@ + t),
                    None => parse_req_spec(raw@) is None,
                }),
            decreases raw@.len() - start,
        {
            let ghost srest = raw@.skip(start as int);
            let d = find_byte(&raw, start, 44u8);
            let piece = trim_copy(&raw, start, d);
            proof {
                assert(srest.take(d - start) =~= raw@.subrange(start as int, d as int));
            }
            let pc = parse_piece(&piece);
            if d == raw.len() {
                match pc {
                    Some(c) => {
                        let ghost prevc = comps@;
                        comps.push(c);
                        proof {
                            assert(srest.take(srest.len() as int) =~= srest);
                            assert(parse_req_spec(srest) == Some(seq![c]));
                            assert(comps@ =~= prevc + seq![c]);
                        }
                        return Ok(VersionReq { raw, comparators: comps });
                    },
                    None => {
                        proof {
                            assert(srest.take(srest.len() as int) =~= srest);
                            assert(parse_req_spec(srest) is None);
                        }
                        return Err(InvalidRequirement { raw });
                    },
                }
            } else {
                match pc {
                    Some(c) => {
                        let ghost prevc = comps@;
                        comps.push(c);
                        proof {
                            assert(srest.skip(d - start + 1) =~= raw@.skip(d + 1));
                            assert(comps@ =~= prevc + seq![c]);
                            match parse_req_spec(raw@.skip(d + 1)) {
                                Some(t) => {
                                    assert(prevc + (seq![c] + t) =~= (prevc + seq![c]) + t);
                                },
                                None => {},
                            }
                        }
                        start = d + 1;
                    },
                    None => {
                        proof {
                            assert(parse_req_spec(srest) is None);
                        }
                        return Err(InvalidRequirement { raw });
                    },
                }
            }
        }
    }

    /// Whether the declared requirement accepts the version: a pure function
    /// of the two values, true exactly when every comparator accepts it.
    pub fn satisfies(&self, v: &Version) -> (r: bool)
        ensures
            r == req_allows(self.comparators@, *v),
    {
        let mut i: usize = 0;
        while i < self.comparators.len()
            invariant
                0 <= i <= self.comparators@.len(),
                forall|k: int| 0 <= k < i ==> comparator_allows(
                    #[trigger] self.comparators@[k],
                    *v,
                ),
            decreases self.comparators@.len() - i,
        {
            if !self.comparators[i].allows(v) {
                proof {
                    assert(!comparator_allows(self.comparators@[i as int], *v));
                }
                return false;
            }
            i = i + 1;
        }
        true
    }
}

} // verus!
