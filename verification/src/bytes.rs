//! Byte-string helpers shared by requirement parsing and group ordering:
//! scanning, trimming, decimal numbers, equality and lexicographic order.

use vstd::prelude::*;

verus! {

pub open spec fn is_digit(b: u8) -> bool {
    48 <= b && b <= 57
}

pub open spec fn all_digits(s: Seq<u8>) -> bool {
    forall|i: int| 0 <= i < s.len() ==> is_digit(#[trigger] s[i])
}

/// Value of a digit string, most significant digit first.
pub open spec fn digits_val(s: Seq<u8>) -> int
    decreases s.len(),
{
    if s.len() == 0 {
        0
    } else {
        digits_val(s.drop_last()) * 10 + (s.last() - 48)
    }
}

/// The number a byte string denotes: defined exactly when the string is one or
/// more decimal digits and the value fits in `u64`.
pub open spec fn num_val(s: Seq<u8>) -> Option<u64> {
    if s.len() > 0 && all_digits(s) && digits_val(s) <= u64::MAX as int {
        Some(digits_val(s) as u64)
    } else {
        None
    }
}

pub proof fn lemma_digits_val_nonneg(s: Seq<u8>)
    requires
        all_digits(s),
    ensures
        digits_val(s) >= 0,
    decreases s.len(),
{
    if s.len() > 0 {
        assert forall|i: int| 0 <= i < s.drop_last().len() implies is_digit(
            #[trigger] s.drop_last()[i],
        ) by {
            assert(s.drop_last()[i] == s[i]);
        }
        lemma_digits_val_nonneg(s.drop_last());
        assert(is_digit(s[s.len() - 1]));
    }
}

/// A prefix of a digit string never denotes more than the whole string.
pub proof fn lemma_digits_val_prefix_le(s: Seq<u8>, i: int)
    requires
        all_digits(s),
        0 <= i <= s.len(),
    ensures
        digits_val(s.take(i)) <= digits_val(s),
    decreases s.len() - i,
{
    if i < s.len() {
        assert(s.take(i + 1).drop_last() =~= s.take(i));
        assert(s.take(i + 1).last() == s[i]);
        assert forall|k: int| 0 <= k < s.take(i).len() implies is_digit(
            #[trigger] s.take(i)[k],
        ) by {
            assert(s.take(i)[k] == s[k]);
        }
        lemma_digits_val_nonneg(s.take(i));
        assert(is_digit(s[i]));
        assert(digits_val(s.take(i + 1)) == digits_val(s.take(i)) * 10 + (s[i] - 48));
        assert(digits_val(s.take(i)) <= digits_val(s.take(i + 1)));
        lemma_digits_val_prefix_le(s, i + 1);
        assert(s.take(s.len() as int) =~= s);
    } else {
        assert(s.take(i) =~= s);
    }
}

/// Index of the first occurrence of `b` in `s`, or `s.len()` when absent.
pub open spec fn find_byte_spec(s: Seq<u8>, b: u8) -> int
    decreases s.len(),
{
    if s.len() == 0 {
        0
    } else if s[0] == b {
        0
    } else {
        1 + find_byte_spec(s.drop_first(), b)
    }
}

/// `find_byte_spec` is pinned down by its characteristic properties.
pub proof fn lemma_find_byte_val(s: Seq<u8>, b: u8, i: int)
    requires
        0 <= i <= s.len(),
        forall|k: int| 0 <= k < i ==> s[k] != b,
        i < s.len() ==> s[i] == b,
    ensures
        find_byte_spec(s, b) == i,
    decreases i,
{
    if i == 0 {
    } else {
        assert(s[0] != b);
        let t = s.drop_first();
        assert forall|k: int| 0 <= k < i - 1 implies t[k] != b by {
            assert(t[k] == s[k + 1]);
        }
        if i - 1 < t.len() {
            assert(t[i - 1] == s[i]);
        }
        lemma_find_byte_val(t, b, i - 1);
    }
}

/// First index at or after `start` holding `b`, or the length when none does.
pub fn find_byte(v: &Vec<u8>, start: usize, b: u8) -> (i: usize)
    requires
        start <= v@.len(),
    ensures
        start <= i <= v@.len(),
        i < v@.len() ==> v@[i as int] == b,
        forall|k: int| start <= k < i ==> v@[k] != b,
        i - start == find_byte_spec(v@.skip(start as int), b),
{
    let mut i: usize = start;
    while i < v.len() && v[i] != b
        invariant
            start <= i <= v@.len(),
            forall|k: int| start <= k < i ==> v@[k] != b,
        decreases v@.len() - i,
    {
        i = i + 1;
    }
    proof {
        let s = v@.skip(start as int);
        assert forall|k: int| 0 <= k < i - start implies s[k] != b by {
            assert(s[k] == v@[start + k]);
        }
        if i - start < s.len() {
            assert(s[i - start] == v@[i as int]);
        }
        lemma_find_byte_val(s, b, i as int - start as int);
    }
    i
}

/// Copy of the range `[start, end)` of `v`.
pub fn copy_range(v: &Vec<u8>, start: usize, end: usize) -> (out: Vec<u8>)
    requires
        start <= end <= v@.len(),
    ensures
        out@ == v@.subrange(start as int, end as int),
{
    let mut out: Vec<u8> = Vec::new();
    proof {
        assert(out@ =~= v@.subrange(start as int, start as int));
    }
    let mut i: usize = start;
    while i < end
        invariant
            start <= i <= end <= v@.len(),
            out@ == v@.subrange(start as int, i as int),
        decreases end - i,
    {
        out.push(v[i]);
        proof {
            assert(v@.subrange(start as int, i + 1) =~= v@.subrange(start as int, i as int).push(
                v@[i as int],
            ));
        }
        i = i + 1;
    }
    out
}

/// `s` without its leading spaces.
pub open spec fn trim_start_spec(s: Seq<u8>) -> Seq<u8>
    decreases s.len(),
{
    if s.len() > 0 && s[0] == 32 {
        trim_start_spec(s.drop_first())
    } else {
        s
    }
}

/// `s` without its trailing spaces.
pub open spec fn trim_end_spec(s: Seq<u8>) -> Seq<u8>
    decreases s.len(),
{
    if s.len() > 0 && s.last() == 32 {
        trim_end_spec(s.drop_last())
    } else {
        s
    }
}

/// `s` without leading and trailing spaces.
pub open spec fn trim_spec(s: Seq<u8>) -> Seq<u8> {
    trim_end_spec(trim_start_spec(s))
}

proof fn lemma_trim_start_at(s: Seq<u8>, i: int)
    requires
        0 <= i <= s.len(),
        forall|k: int| 0 <= k < i ==> s[k] == 32,
        i < s.len() ==> s[i] != 32,
    ensures
        trim_start_spec(s) == s.skip(i),
    decreases i,
{
    if i == 0 {
        assert(s.skip(0) =~= s);
    } else {
        assert(s[0] == 32);
        let t = s.drop_first();
        assert forall|k: int| 0 <= k < i - 1 implies t[k] == 32 by {
            assert(t[k] == s[k + 1]);
        }
        if i - 1 < t.len() {
            assert(t[i - 1] == s[i]);
        }
        lemma_trim_start_at(t, i - 1);
        assert(t.skip(i - 1) =~= s.skip(i));
    }
}

proof fn lemma_trim_end_at(s: Seq<u8>, j: int)
    requires
        0 <= j <= s.len(),
        forall|k: int| j <= k < s.len() ==> s[k] == 32,
        j > 0 ==> s[j - 1] != 32,
    ensures
        trim_end_spec(s) == s.take(j),
    decreases s.len() - j,
{
    if j == s.len() {
        assert(s.take(j) =~= s);
    } else {
        assert(s.last() == 32);
        let t = s.drop_last();
        assert forall|k: int| j <= k < t.len() implies t[k] == 32 by {
            assert(t[k] == s[k]);
        }
        if j > 0 {
            assert(t[j - 1] == s[j - 1]);
        }
        lemma_trim_end_at(t, j);
        assert(t.take(j) =~= s.take(j));
    }
}

/// Copy of the range `[start, end)` of `v` with surrounding spaces removed.
pub fn trim_copy(v: &Vec<u8>, start: usize, end: usize) -> (out: Vec<u8>)
    requires
        start <= end <= v@.len(),
    ensures
        out@ == trim_spec(v@.subrange(start as int, end as int)),
{
    let mut a: usize = start;
    while a < end && v[a] == 32u8
        invariant
            start <= a <= end <= v@.len(),
            forall|k: int| start <= k < a ==> v@[k] == 32,
        decreases end - a,
    {
        a = a + 1;
    }
    let mut b: usize = end;
    while b > a && v[b - 1] == 32u8
        invariant
            a <= b <= end <= v@.len(),
            forall|k: int| b <= k < end ==> v@[k] == 32,
        decreases b,
    {
        b = b - 1;
    }
    let out = copy_range(v, a, b);
    proof {
        let s = v@.subrange(start as int, end as int);
        assert forall|k: int| 0 <= k < a - start implies s[k] == 32 by {
            assert(s[k] == v@[start + k]);
        }
        if a - start < s.len() {
            assert(s[a as int - start as int] == v@[a as int]);
        }
        lemma_trim_start_at(s, a as int - start as int);
        let t = v@.subrange(a as int, end as int);
        assert(s.skip(a as int - start as int) =~= t);
        assert forall|k: int| b - a <= k < t.len() implies t[k] == 32 by {
            assert(t[k] == v@[a + k]);
        }
        if b > a {
            assert(t[b as int - a as int - 1] == v@[b as int - 1]);
        }
        lemma_trim_end_at(t, b as int - a as int);
        assert(t.take(b as int - a as int) =~= v@.subrange(a as int, b as int));
    }
    out
}

/// Copy of the range `[start, end)` of `v` with leading spaces removed.
pub fn trim_start_copy(v: &Vec<u8>, start: usize, end: usize) -> (out: Vec<u8>)
    requires
        start <= end <= v@.len(),
    ensures
        out@ == trim_start_spec(v@.subrange(start as int, end as int)),
{
    let mut a: usize = start;
    while a < end && v[a] == 32u8
        invariant
            start <= a <= end <= v@.len(),
            forall|k: int| start <= k < a ==> v@[k] == 32,
        decreases end - a,
    {
        a = a + 1;
    }
    let out = copy_range(v, a, end);
    proof {
        let s = v@.subrange(start as int, end as int);
        assert forall|k: int| 0 <= k < a - start implies s[k] == 32 by {
            assert(s[k] == v@[start + k]);
        }
        if a - start < s.len() {
            assert(s[a as int - start as int] == v@[a as int]);
        }
        lemma_trim_start_at(s, a as int - start as int);
        assert(s.skip(a as int - start as int) =~= v@.subrange(a as int, end as int));
    }
    out
}

/// Parse a decimal number; `None` on an empty string, a non-digit, or overflow.
pub fn parse_u64(v: &Vec<u8>) -> (r: Option<u64>)
    ensures
        r == num_val(v@),
{
    if v.len() == 0 {
        return None;
    }
    let mut val: u64 = 0;
    let mut i: usize = 0;
    while i < v.len()
        invariant
            0 <= i <= v@.len(),
            v@.len() > 0,
            all_digits(v@.take(i as int)),
            val == digits_val(v@.take(i as int)),
        decreases v@.len() - i,
    {
        let c = v[i];
        if c < 48u8 || c > 57u8 {
            proof {
                assert(!is_digit(v@[i as int]));
            }
            return None;
        }
        let d: u64 = (c - 48u8) as u64;
        proof {
            assert(v@.take(i + 1).drop_last() =~= v@.take(i as int));
            assert(v@.take(i + 1).last() == v@[i as int]);
            assert forall|k: int| 0 <= k < v@.take(i + 1).len() implies is_digit(
                #[trigger] v@.take(i + 1)[k],
            ) by {
                assert(v@.take(i + 1)[k] == v@[k]);
                if k < i {
                    assert(v@.take(i as int)[k] == v@[k]);
                }
            }
            assert(digits_val(v@.take(i + 1)) == val * 10 + d);
        }
        let step = match val.checked_mul(10) {
            Some(x) => x.checked_add(d),
            None => None,
        };
        match step {
            None => {
                proof {
                    assert(digits_val(v@.take(i + 1)) > u64::MAX as int);
                    if all_digits(v@) {
                        lemma_digits_val_prefix_le(v@, i + 1);
                        assert(digits_val(v@) > u64::MAX as int);
                    }
                }
                return None;
            },
            Some(nv) => {
                val = nv;
                i = i + 1;
            },
        }
    }
    proof {
        assert(v@.take(v@.len() as int) =~= v@);
    }
    Some(val)
}

/// A copy of the whole byte string.
pub fn clone_bytes(v: &Vec<u8>) -> (out: Vec<u8>)
    ensures
        out@ == v@,
{
    let out = copy_range(v, 0, v.len());
    proof {
        assert(v@.subrange(0, v@.len() as int) =~= v@);
    }
    out
}

/// Whether two byte strings are equal.
pub fn bytes_eq(a: &Vec<u8>, b: &Vec<u8>) -> (r: bool)
    ensures
        r == (a@ == b@),
{
    if a.len() != b.len() {
        return false;
    }
    let mut i: usize = 0;
    while i < a.len()
        invariant
            0 <= i <= a@.len(),
            a@.len() == b@.len(),
            forall|k: int| 0 <= k < i ==> a@[k] == b@[k],
        decreases a@.len() - i,
    {
        if a[i] != b[i] {
            return false;
        }
        i = i + 1;
    }
    proof {
        assert(a@ =~= b@);
    }
    true
}

/// Lexicographic order on byte strings, shorter prefixes first.
pub open spec fn bytes_le(a: Seq<u8>, b: Seq<u8>) -> bool
    decreases a.len(),
{
    if a.len() == 0 {
        true
    } else if b.len() == 0 {
        false
    } else if a[0] < b[0] {
        true
    } else if a[0] > b[0] {
        false
    } else {
        bytes_le(a.drop_first(), b.drop_first())
    }
}

/// Strict lexicographic order on byte strings.
pub open spec fn bytes_lt(a: Seq<u8>, b: Seq<u8>) -> bool {
    bytes_le(a, b) && a != b
}

/// Any two byte strings are comparable.
pub proof fn lemma_bytes_le_total(a: Seq<u8>, b: Seq<u8>)
    ensures
        bytes_le(a, b) || bytes_le(b, a),
    decreases a.len(),
{
    if a.len() > 0 && b.len() > 0 && a[0] == b[0] {
        lemma_bytes_le_total(a.drop_first(), b.drop_first());
    }
}

/// Byte strings below one another are equal.
pub proof fn lemma_bytes_le_antisym(a: Seq<u8>, b: Seq<u8>)
    requires
        bytes_le(a, b),
        bytes_le(b, a),
    ensures
        a == b,
    decreases a.len(),
{
    if a.len() == 0 {
        assert(a =~= b);
    } else {
        assert(a[0] == b[0]);
        lemma_bytes_le_antisym(a.drop_first(), b.drop_first());
        assert(a =~= b) by {
            assert(a.drop_first() =~= b.drop_first());
            assert forall|k: int| 0 <= k < a.len() implies a[k] == b[k] by {
                if k > 0 {
                    assert(a.drop_first()[k - 1] == b.drop_first()[k - 1]);
                }
            }
        }
    }
}

/// Lexicographic order is transitive.
pub proof fn lemma_bytes_le_trans(a: Seq<u8>, b: Seq<u8>, c: Seq<u8>)
    requires
        bytes_le(a, b),
        bytes_le(b, c),
    ensures
        bytes_le(a, c),
    decreases a.len(),
{
    if a.len() > 0 {
        if a[0] == b[0] && b[0] == c[0] {
            lemma_bytes_le_trans(a.drop_first(), b.drop_first(), c.drop_first());
        }
    }
}

/// Whether `a` comes no later than `b` in lexicographic order.
pub fn bytes_le_exec(a: &Vec<u8>, b: &Vec<u8>) -> (r: bool)
    ensures
        r == bytes_le(a@, b@),
{
    let mut i: usize = 0;
    proof {
        assert(a@.skip(0) =~= a@);
        assert(b@.skip(0) =~= b@);
    }
    while i < a.len() && i < b.len() && a[i] == b[i]
        invariant
            0 <= i <= a@.len(),
            0 <= i <= b@.len(),
            bytes_le(a@, b@) == bytes_le(a@.skip(i as int), b@.skip(i as int)),
        decreases a@.len() - i,
    {
        proof {
            let x = a@.skip(i as int);
            let y = b@.skip(i as int);
            assert(x[0] == a@[i as int]);
            assert(y[0] == b@[i as int]);
            assert(x.drop_first() =~= a@.skip(i + 1));
            assert(y.drop_first() =~= b@.skip(i + 1));
        }
        i = i + 1;
    }
    proof {
        assert(a@.skip(0) =~= a@);
        assert(b@.skip(0) =~= b@);
        if i < a.len() && i < b.len() {
            assert(a@.skip(i as int)[0] == a@[i as int]);
            assert(b@.skip(i as int)[0] == b@[i as int]);
        }
    }
    if i == a.len() {
        true
    } else if i == b.len() {
        false
    } else {
        a[i] < b[i]
    }
}

} // verus!
