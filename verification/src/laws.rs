//! Laws of the analysis pipeline: ordering, determinism of the rendered
//! order, and isolation of per-dependency parse failures.

use vstd::prelude::*;

use crate::analysis::{
    analyze_group_spec, analyze_one_spec, count_matching, entry_analyzed, entry_outdated,
    insert_sorted_spec, sort_entries_spec, GroupEntryView, ManifestEntryView, RegistryEntryView,
};
use crate::bytes::{
    bytes_le, bytes_lt, lemma_bytes_le_antisym, lemma_bytes_le_total, lemma_bytes_le_trans,
};
use crate::requirement::parse_req_spec;

verus! {

/// Ascending name order of a sequence of rows.
pub open spec fn sorted_by_name(s: Seq<GroupEntryView>) -> bool {
    forall|i: int, j: int|
        0 <= i < j < s.len() ==> bytes_le(#[trigger] s[i].name, #[trigger] s[j].name)
}

/// Strictly ascending name order: sorted and no name repeated.
pub open spec fn strictly_sorted_by_name(s: Seq<GroupEntryView>) -> bool {
    forall|i: int, j: int|
        0 <= i < j < s.len() ==> bytes_lt(#[trigger] s[i].name, #[trigger] s[j].name)
}

/// Whether some row of `s` carries the name `n`.
pub open spec fn has_name(s: Seq<GroupEntryView>, n: Seq<u8>) -> bool {
    exists|i: int| 0 <= i < s.len() && #[trigger] s[i].name == n
}

proof fn lemma_insert_sorted_elems(s: Seq<GroupEntryView>, e: GroupEntryView)
    ensures
        insert_sorted_spec(s, e).len() == s.len() + 1,
        forall|m: int|
            0 <= m < insert_sorted_spec(s, e).len() ==> (#[trigger] insert_sorted_spec(s, e)[m]
                == e || s.contains(insert_sorted_spec(s, e)[m])),
    decreases s.len(),
{
    let r = insert_sorted_spec(s, e);
    if s.len() == 0 {
    } else if bytes_le(e.name, s[0].name) {
        assert forall|m: int| 0 <= m < r.len() implies (#[trigger] r[m] == e || s.contains(
            r[m],
        )) by {
            if m > 0 {
                assert(r[m] == s[m - 1]);
            }
        }
    } else {
        let t = s.drop_first();
        lemma_insert_sorted_elems(t, e);
        let rt = insert_sorted_spec(t, e);
        assert forall|m: int| 0 <= m < r.len() implies (#[trigger] r[m] == e || s.contains(
            r[m],
        )) by {
            if m == 0 {
                assert(s[0] == r[0]);
                assert(s.contains(s[0]));
            } else {
                assert(r[m] == rt[m - 1]);
                if rt[m - 1] == e {
                } else {
                    let k = choose|k: int| 0 <= k < t.len() && t[k] == rt[m - 1];
                    assert(s[k + 1] == t[k]);
                    assert(s.contains(s[k + 1]));
                }
            }
        }
    }
}

proof fn lemma_insert_sorted_keeps_sorted(s: Seq<GroupEntryView>, e: GroupEntryView)
    requires
        sorted_by_name(s),
    ensures
        sorted_by_name(insert_sorted_spec(s, e)),
    decreases s.len(),
{
    let r = insert_sorted_spec(s, e);
    if s.len() == 0 {
    } else if bytes_le(e.name, s[0].name) {
        assert forall|i: int, j: int| 0 <= i < j < r.len() implies bytes_le(
            #[trigger] r[i].name,
            #[trigger] r[j].name,
        ) by {
            if i == 0 {
                assert(r[j] == s[j - 1]);
                if j - 1 > 0 {
                    lemma_bytes_le_trans(e.name, s[0].name, s[j - 1].name);
                }
            } else {
                assert(r[i] == s[i - 1]);
                assert(r[j] == s[j - 1]);
            }
        }
    } else {
        let t = s.drop_first();
        assert forall|i: int, j: int| 0 <= i < j < t.len() implies bytes_le(
            #[trigger] t[i].name,
            #[trigger] t[j].name,
        ) by {
            assert(t[i] == s[i + 1]);
            assert(t[j] == s[j + 1]);
        }
        lemma_insert_sorted_keeps_sorted(t, e);
        lemma_insert_sorted_elems(t, e);
        let rt = insert_sorted_spec(t, e);
        lemma_bytes_le_total(e.name, s[0].name);
        assert forall|i: int, j: int| 0 <= i < j < r.len() implies bytes_le(
            #[trigger] r[i].name,
            #[trigger] r[j].name,
        ) by {
            if i == 0 {
                assert(r[j] == rt[j - 1]);
                if rt[j - 1] == e {
                    assert(bytes_le(s[0].name, e.name));
                } else {
                    let k = choose|k: int| 0 <= k < t.len() && t[k] == rt[j - 1];
                    assert(t[k] == s[k + 1]);
                    assert(bytes_le(s[0].name, s[k + 1].name));
                }
            } else {
                assert(r[i] == rt[i - 1]);
                assert(r[j] == rt[j - 1]);
            }
        }
    }
}

proof fn lemma_sort_entries_sorted_inner(s: Seq<GroupEntryView>)
    ensures
        sorted_by_name(sort_entries_spec(s)),
        sort_entries_spec(s).len() == s.len(),
    decreases s.len(),
{
    if s.len() > 0 {
        lemma_sort_entries_sorted_inner(s.drop_last());
        lemma_insert_sorted_keeps_sorted(sort_entries_spec(s.drop_last()), s.last());
        lemma_insert_sorted_elems(sort_entries_spec(s.drop_last()), s.last());
    }
}

/// The rows of an analyzed group are in ascending name order, and there is
/// exactly one row per manifest line.
pub proof fn lemma_analyze_group_sorted(g: Seq<ManifestEntryView>, reg: Seq<RegistryEntryView>)
    ensures
        sorted_by_name(analyze_group_spec(g, reg)),
        analyze_group_spec(g, reg).len() == g.len(),
{
    lemma_sort_entries_sorted_inner(
        g.map_values(|e: ManifestEntryView| analyze_one_spec(e, reg)),
    );
}

proof fn lemma_insert_has_name(s: Seq<GroupEntryView>, e: GroupEntryView, n: Seq<u8>)
    ensures
        has_name(insert_sorted_spec(s, e), n) == (has_name(s, n) || e.name == n),
    decreases s.len(),
{
    let r = insert_sorted_spec(s, e);
    if s.len() == 0 {
        if e.name == n {
            assert(r[0].name == n);
        }
        if has_name(r, n) {
            let m = choose|m: int| 0 <= m < r.len() && r[m].name == n;
            assert(m == 0);
        }
    } else if bytes_le(e.name, s[0].name) {
        if e.name == n {
            assert(r[0].name == n);
        }
        if has_name(s, n) {
            let m = choose|m: int| 0 <= m < s.len() && s[m].name == n;
            assert(r[m + 1] == s[m]);
            assert(r[m + 1].name == n);
        }
        if has_name(r, n) {
            let m = choose|m: int| 0 <= m < r.len() && r[m].name == n;
            if m > 0 {
                assert(s[m - 1] == r[m]);
                assert(s[m - 1].name == n);
            }
        }
    } else {
        let t = s.drop_first();
        lemma_insert_has_name(t, e, n);
        let rt = insert_sorted_spec(t, e);
        if has_name(s, n) {
            let m = choose|m: int| 0 <= m < s.len() && s[m].name == n;
            if m == 0 {
                assert(r[0].name == n);
            } else {
                assert(t[m - 1] == s[m]);
                assert(t[m - 1].name == n);
                assert(has_name(t, n));
                let q = choose|q: int| 0 <= q < rt.len() && rt[q].name == n;
                assert(r[q + 1] == rt[q]);
                assert(r[q + 1].name == n);
            }
        }
        if e.name == n {
            assert(has_name(rt, n));
            let q = choose|q: int| 0 <= q < rt.len() && rt[q].name == n;
            assert(r[q + 1] == rt[q]);
            assert(r[q + 1].name == n);
        }
        if has_name(r, n) {
            let m = choose|m: int| 0 <= m < r.len() && r[m].name == n;
            if m == 0 {
                assert(s[0].name == n);
            } else {
                assert(rt[m - 1] == r[m]);
                assert(has_name(rt, n));
                if has_name(t, n) {
                    let q = choose|q: int| 0 <= q < t.len() && t[q].name == n;
                    assert(s[q + 1] == t[q]);
                    assert(s[q + 1].name == n);
                }
            }
        }
    }
}

proof fn lemma_sort_has_name(s: Seq<GroupEntryView>, n: Seq<u8>)
    ensures
        has_name(sort_entries_spec(s), n) == has_name(s, n),
    decreases s.len(),
{
    if s.len() > 0 {
        let d = s.drop_last();
        lemma_sort_has_name(d, n);
        lemma_insert_has_name(sort_entries_spec(d), s.last(), n);
        if has_name(s, n) {
            let m = choose|m: int| 0 <= m < s.len() && s[m].name == n;
            if m < s.len() - 1 {
                assert(d[m] == s[m]);
                assert(d[m].name == n);
            }
        }
        if has_name(d, n) {
            let m = choose|m: int| 0 <= m < d.len() && d[m].name == n;
            assert(s[m] == d[m]);
            assert(s[m].name == n);
        }
        if s.last().name == n {
            assert(s[s.len() - 1].name == n);
        }
    }
}

proof fn lemma_insert_strict(s: Seq<GroupEntryView>, e: GroupEntryView)
    requires
        strictly_sorted_by_name(s),
        !has_name(s, e.name),
    ensures
        strictly_sorted_by_name(insert_sorted_spec(s, e)),
    decreases s.len(),
{
    let r = insert_sorted_spec(s, e);
    if s.len() == 0 {
    } else if bytes_le(e.name, s[0].name) {
        assert forall|i: int, j: int| 0 <= i < j < r.len() implies bytes_lt(
            #[trigger] r[i].name,
            #[trigger] r[j].name,
        ) by {
            if i == 0 {
                assert(r[j] == s[j - 1]);
                assert(s[j - 1].name != e.name);
                if j - 1 > 0 {
                    assert(bytes_lt(s[0].name, s[j - 1].name));
                    lemma_bytes_le_trans(e.name, s[0].name, s[j - 1].name);
                }
            } else {
                assert(r[i] == s[i - 1]);
                assert(r[j] == s[j - 1]);
            }
        }
    } else {
        let t = s.drop_first();
        assert forall|i: int, j: int| 0 <= i < j < t.len() implies bytes_lt(
            #[trigger] t[i].name,
            #[trigger] t[j].name,
        ) by {
            assert(t[i] == s[i + 1]);
            assert(t[j] == s[j + 1]);
        }
        assert(!has_name(t, e.name)) by {
            if has_name(t, e.name) {
                let q = choose|q: int| 0 <= q < t.len() && t[q].name == e.name;
                assert(s[q + 1] == t[q]);
                assert(s[q + 1].name == e.name);
            }
        }
        lemma_insert_strict(t, e);
        lemma_insert_sorted_elems(t, e);
        let rt = insert_sorted_spec(t, e);
        lemma_bytes_le_total(e.name, s[0].name);
        assert(s[0].name != e.name);
        assert forall|i: int, j: int| 0 <= i < j < r.len() implies bytes_lt(
            #[trigger] r[i].name,
            #[trigger] r[j].name,
        ) by {
            if i == 0 {
                assert(r[j] == rt[j - 1]);
                if rt[j - 1] == e {
                    assert(bytes_le(s[0].name, e.name));
                } else {
                    let k = choose|k: int| 0 <= k < t.len() && t[k] == rt[j - 1];
                    assert(t[k] == s[k + 1]);
                    assert(bytes_lt(s[0].name, s[k + 1].name));
                }
            } else {
                assert(r[i] == rt[i - 1]);
                assert(r[j] == rt[j - 1]);
            }
        }
    }
}

/// With distinct manifest names the analyzed rows are in strictly ascending
/// name order: each name appears exactly once, at a place fixed by the order
/// alone.
pub proof fn lemma_analyze_group_strict(g: Seq<ManifestEntryView>, reg: Seq<RegistryEntryView>)
    requires
        forall|i: int, j: int|
            0 <= i < j < g.len() ==> (#[trigger] g[i].name) != (#[trigger] g[j].name),
    ensures
        strictly_sorted_by_name(analyze_group_spec(g, reg)),
{
    let f = |e: ManifestEntryView| analyze_one_spec(e, reg);
    lemma_sort_strict(g.map_values(f), g, reg);
}

proof fn lemma_sort_strict(
    s: Seq<GroupEntryView>,
    g: Seq<ManifestEntryView>,
    reg: Seq<RegistryEntryView>,
)
    requires
        s == g.map_values(|e: ManifestEntryView| analyze_one_spec(e, reg)),
        forall|i: int, j: int|
            0 <= i < j < g.len() ==> (#[trigger] g[i].name) != (#[trigger] g[j].name),
    ensures
        strictly_sorted_by_name(sort_entries_spec(s)),
    decreases s.len(),
{
    let f = |e: ManifestEntryView| analyze_one_spec(e, reg);
    assert forall|i: int| 0 <= i < s.len() implies (#[trigger] s[i].name) == g[i].name by {
        assert(s[i] == f(g[i]));
    }
    if s.len() > 0 {
        let d = s.drop_last();
        let gd = g.drop_last();
        assert(d =~= gd.map_values(f));
        lemma_sort_strict(d, gd, reg);
        assert(!has_name(sort_entries_spec(d), s.last().name)) by {
            lemma_sort_has_name(d, s.last().name);
            if has_name(d, s.last().name) {
                let m = choose|m: int| 0 <= m < d.len() && d[m].name == s.last().name;
                assert(d[m].name == g[m].name);
                assert(s.last().name == g[s.len() - 1].name);
                assert(g[m].name != g[s.len() - 1].name);
            }
        }
        lemma_insert_strict(sort_entries_spec(d), s.last());
    }
}

/// The rendered order of a group is canonical: two sequences of rows in
/// strictly ascending name order that hold exactly the same rows are
/// identical, entry for entry. With the analysis itself a pure function of
/// the manifest and the registry snapshot, two runs over identical inputs
/// therefore serialize identically.
pub proof fn lemma_sorted_rows_canonical(a: Seq<GroupEntryView>, b: Seq<GroupEntryView>)
    requires
        strictly_sorted_by_name(a),
        strictly_sorted_by_name(b),
        forall|e: GroupEntryView| a.contains(e) <==> b.contains(e),
    ensures
        a == b,
    decreases a.len(),
{
    if a.len() == 0 {
        if b.len() > 0 {
            assert(b.contains(b[0]));
            assert(a.contains(b[0]));
        }
        assert(a =~= b);
    } else {
        assert(a.contains(a[0]));
        assert(b.contains(a[0]));
        let j = choose|j: int| 0 <= j < b.len() && b[j] == a[0];
        assert(b.contains(b[0]));
        assert(a.contains(b[0]));
        let k = choose|k: int| 0 <= k < a.len() && a[k] == b[0];
        assert(a[0] == b[0]) by {
            if k == 0 {
            } else {
                assert(bytes_lt(a[0].name, a[k].name));
                if j == 0 {
                    assert(b[0] == a[0]);
                    assert(a[k].name == a[0].name);
                } else {
                    assert(bytes_lt(b[0].name, b[j].name));
                    lemma_bytes_le_antisym(a[0].name, b[0].name);
                }
            }
        }
        let at = a.drop_first();
        let bt = b.drop_first();
        assert forall|i: int, j2: int| 0 <= i < j2 < at.len() implies bytes_lt(
            #[trigger] at[i].name,
            #[trigger] at[j2].name,
        ) by {
            assert(at[i] == a[i + 1]);
            assert(at[j2] == a[j2 + 1]);
        }
        assert forall|i: int, j2: int| 0 <= i < j2 < bt.len() implies bytes_lt(
            #[trigger] bt[i].name,
            #[trigger] bt[j2].name,
        ) by {
            assert(bt[i] == b[i + 1]);
            assert(bt[j2] == b[j2 + 1]);
        }
        assert forall|e: GroupEntryView| at.contains(e) implies bt.contains(e) by {
            let m = choose|m: int| 0 <= m < at.len() && at[m] == e;
            assert(a[m + 1] == e);
            assert(a.contains(e));
            assert(b.contains(e));
            let q = choose|q: int| 0 <= q < b.len() && b[q] == e;
            assert(e != a[0]) by {
                if e == a[0] {
                    assert(bytes_lt(a[0].name, a[m + 1].name));
                }
            }
            assert(q != 0);
            assert(bt[q - 1] == b[q]);
            assert(bt.contains(bt[q - 1]));
        }
        assert forall|e: GroupEntryView| bt.contains(e) implies at.contains(e) by {
            let m = choose|m: int| 0 <= m < bt.len() && bt[m] == e;
            assert(b[m + 1] == e);
            assert(b.contains(e));
            assert(a.contains(e));
            let q = choose|q: int| 0 <= q < a.len() && a[q] == e;
            assert(e != b[0]) by {
                if e == b[0] {
                    assert(bytes_lt(b[0].name, b[m + 1].name));
                }
            }
            assert(q != 0);
            assert(at[q - 1] == a[q]);
            assert(at.contains(at[q - 1]));
        }
        lemma_sorted_rows_canonical(at, bt);
        assert(a =~= b) by {
            assert forall|i: int| 0 <= i < a.len() implies a[i] == b[i] by {
                if i > 0 {
                    assert(at[i - 1] == bt[i - 1]);
                    assert(a[i] == at[i - 1]);
                    assert(b[i] == bt[i - 1]);
                }
            }
        }
    }
}

proof fn lemma_insert_contains(s: Seq<GroupEntryView>, e: GroupEntryView)
    ensures
        forall|x: GroupEntryView|
            #[trigger] insert_sorted_spec(s, e).contains(x) <==> (s.contains(x) || x == e),
    decreases s.len(),
{
    let r = insert_sorted_spec(s, e);
    if s.len() == 0 {
        assert forall|x: GroupEntryView| #[trigger] r.contains(x) implies (s.contains(x) || x
            == e) by {
            let m = choose|m: int| 0 <= m < r.len() && r[m] == x;
            assert(m == 0);
        }
        assert(r[0] == e);
        assert(r.contains(e));
    } else if bytes_le(e.name, s[0].name) {
        assert forall|x: GroupEntryView| #[trigger] r.contains(x) implies (s.contains(x) || x
            == e) by {
            let m = choose|m: int| 0 <= m < r.len() && r[m] == x;
            if m > 0 {
                assert(s[m - 1] == r[m]);
                assert(s.contains(s[m - 1]));
            }
        }
        assert forall|x: GroupEntryView| (s.contains(x) || x == e) implies #[trigger] r.contains(
            x,
        ) by {
            if s.contains(x) {
                let m = choose|m: int| 0 <= m < s.len() && s[m] == x;
                assert(r[m + 1] == s[m]);
                assert(r.contains(r[m + 1]));
            } else {
                assert(r[0] == e);
                assert(r.contains(r[0]));
            }
        }
    } else {
        let t = s.drop_first();
        lemma_insert_contains(t, e);
        let rt = insert_sorted_spec(t, e);
        assert forall|x: GroupEntryView| #[trigger] r.contains(x) implies (s.contains(x) || x
            == e) by {
            let m = choose|m: int| 0 <= m < r.len() && r[m] == x;
            if m == 0 {
                assert(s[0] == r[0]);
                assert(s.contains(s[0]));
            } else {
                assert(rt[m - 1] == r[m]);
                assert(rt.contains(rt[m - 1]));
                if t.contains(x) {
                    let q = choose|q: int| 0 <= q < t.len() && t[q] == x;
                    assert(s[q + 1] == t[q]);
                    assert(s.contains(s[q + 1]));
                }
            }
        }
        assert forall|x: GroupEntryView| (s.contains(x) || x == e) implies #[trigger] r.contains(
            x,
        ) by {
            if s.contains(x) {
                let m = choose|m: int| 0 <= m < s.len() && s[m] == x;
                if m == 0 {
                    assert(r[0] == s[0]);
                    assert(r.contains(r[0]));
                } else {
                    assert(t[m - 1] == s[m]);
                    assert(t.contains(t[m - 1]));
                    assert(rt.contains(x));
                    let q = choose|q: int| 0 <= q < rt.len() && rt[q] == x;
                    assert(r[q + 1] == rt[q]);
                    assert(r.contains(r[q + 1]));
                }
            } else {
                assert(rt.contains(x));
                let q = choose|q: int| 0 <= q < rt.len() && rt[q] == x;
                assert(r[q + 1] == rt[q]);
                assert(r.contains(r[q + 1]));
            }
        }
    }
}

proof fn lemma_sort_contains(s: Seq<GroupEntryView>)
    ensures
        forall|x: GroupEntryView|
            #[trigger] sort_entries_spec(s).contains(x) <==> s.contains(x),
    decreases s.len(),
{
    if s.len() > 0 {
        let d = s.drop_last();
        lemma_sort_contains(d);
        lemma_insert_contains(sort_entries_spec(d), s.last());
        assert forall|x: GroupEntryView| #[trigger] s.contains(x) implies (d.contains(x) || x
            == s.last()) by {
            let m = choose|m: int| 0 <= m < s.len() && s[m] == x;
            if m < s.len() - 1 {
                assert(d[m] == s[m]);
                assert(d.contains(d[m]));
            }
        }
        assert forall|x: GroupEntryView| (d.contains(x) || x == s.last()) implies
            #[trigger] s.contains(x) by {
            if d.contains(x) {
                let m = choose|m: int| 0 <= m < d.len() && d[m] == x;
                assert(s[m] == d[m]);
                assert(s.contains(s[m]));
            } else {
                assert(s[s.len() - 1] == x);
                assert(s.contains(s[s.len() - 1]));
            }
        }
    }
}

/// Completeness: the analyzed group holds exactly the per-line analyses, each
/// line's own and nothing else — no row is dropped, none is invented, and no
/// line's result depends on any other line.
pub proof fn lemma_analyze_group_complete(g: Seq<ManifestEntryView>, reg: Seq<RegistryEntryView>)
    ensures
        forall|i: int|
            0 <= i < g.len() ==> analyze_group_spec(g, reg).contains(
                analyze_one_spec(#[trigger] g[i], reg),
            ),
        forall|x: GroupEntryView|
            #[trigger] analyze_group_spec(g, reg).contains(x) ==> exists|i: int|
                0 <= i < g.len() && x == analyze_one_spec(g[i], reg),
{
    let f = |e: ManifestEntryView| analyze_one_spec(e, reg);
    let m = g.map_values(f);
    lemma_sort_contains(m);
    assert forall|i: int| 0 <= i < g.len() implies analyze_group_spec(g, reg).contains(
        analyze_one_spec(#[trigger] g[i], reg),
    ) by {
        assert(m[i] == f(g[i]));
        assert(m.contains(m[i]));
    }
    assert forall|x: GroupEntryView| #[trigger] analyze_group_spec(g, reg).contains(
        x,
    ) implies exists|i: int| 0 <= i < g.len() && x == analyze_one_spec(g[i], reg) by {
        assert(m.contains(x));
        let q = choose|q: int| 0 <= q < m.len() && m[q] == x;
        assert(m[q] == f(g[q]));
        assert(x == analyze_one_spec(g[q], reg));
    }
}

proof fn lemma_count_concat(
    a: Seq<GroupEntryView>,
    b: Seq<GroupEntryView>,
    p: spec_fn(GroupEntryView) -> bool,
)
    ensures
        count_matching(a + b, p) == count_matching(a, p) + count_matching(b, p),
    decreases b.len(),
{
    if b.len() == 0 {
        assert(a + b =~= a);
    } else {
        assert((a + b).drop_last() =~= a + b.drop_last());
        assert((a + b).last() == b.last());
        lemma_count_concat(a, b.drop_last(), p);
    }
}

proof fn lemma_count_insert(
    s: Seq<GroupEntryView>,
    e: GroupEntryView,
    p: spec_fn(GroupEntryView) -> bool,
)
    ensures
        count_matching(insert_sorted_spec(s, e), p) == count_matching(s, p) + (if p(e) {
            1int
        } else {
            0int
        }),
    decreases s.len(),
{
    let r = insert_sorted_spec(s, e);
    assert(count_matching(Seq::<GroupEntryView>::empty(), p) == 0);
    assert(count_matching(seq![e], p) == (if p(e) {
        1int
    } else {
        0int
    })) by {
        assert(seq![e].drop_last() =~= Seq::<GroupEntryView>::empty());
        assert(seq![e].last() == e);
        assert(count_matching(Seq::<GroupEntryView>::empty(), p) == 0);
    }
    if s.len() == 0 {
        assert(r =~= seq![e]);
    } else if bytes_le(e.name, s[0].name) {
        lemma_count_concat(seq![e], s, p);
    } else {
        let t = s.drop_first();
        lemma_count_insert(t, e, p);
        lemma_count_concat(seq![s[0]], insert_sorted_spec(t, e), p);
        lemma_count_concat(seq![s[0]], t, p);
        assert(seq![s[0]] + t =~= s);
        assert(count_matching(seq![s[0]], p) == (if p(s[0]) {
            1int
        } else {
            0int
        })) by {
            assert(seq![s[0]].drop_last() =~= Seq::<GroupEntryView>::empty());
            assert(seq![s[0]].last() == s[0]);
            assert(count_matching(Seq::<GroupEntryView>::empty(), p) == 0);
        }
    }
}

proof fn lemma_count_sort(s: Seq<GroupEntryView>, p: spec_fn(GroupEntryView) -> bool)
    ensures
        count_matching(sort_entries_spec(s), p) == count_matching(s, p),
    decreases s.len(),
{
    if s.len() > 0 {
        lemma_count_sort(s.drop_last(), p);
        lemma_count_insert(sort_entries_spec(s.drop_last()), s.last(), p);
    }
}

/// Only analyzed rows can be outdated: the outdated count never exceeds the
/// analyzed count, so "analyzed minus outdated" is a well-defined up-to-date
/// count for any group.
pub proof fn lemma_outdated_are_analyzed(s: Seq<GroupEntryView>)
    ensures
        count_matching(s, |e: GroupEntryView| entry_outdated(e))
            <= count_matching(s, |e: GroupEntryView| entry_analyzed(e)),
    decreases s.len(),
{
    if s.len() > 0 {
        lemma_outdated_are_analyzed(s.drop_last());
    }
}

/// How many manifest lines have a requirement that parses.
pub open spec fn count_wellformed(g: Seq<ManifestEntryView>) -> int
    decreases g.len(),
{
    if g.len() == 0 {
        0
    } else {
        count_wellformed(g.drop_last()) + (if parse_req_spec(g.last().requirement) is Some {
            1int
        } else {
            0int
        })
    }
}

proof fn lemma_count_map(g: Seq<ManifestEntryView>, reg: Seq<RegistryEntryView>)
    ensures
        count_matching(
            g.map_values(|e: ManifestEntryView| analyze_one_spec(e, reg)),
            |e: GroupEntryView| entry_analyzed(e),
        ) == count_wellformed(g),
    decreases g.len(),
{
    let f = |e: ManifestEntryView| analyze_one_spec(e, reg);
    let m = g.map_values(f);
    if g.len() > 0 {
        assert(m.drop_last() =~= g.drop_last().map_values(f));
        assert(m.last() == f(g.last()));
        lemma_count_map(g.drop_last(), reg);
    }
}

/// Parse-failure isolation: the analyzed group has exactly one row per
/// manifest line, and exactly the lines whose requirement parses come out
/// analyzed — a malformed requirement costs its own row only, and never a
/// neighbour's.
pub proof fn lemma_parse_failure_isolation(
    g: Seq<ManifestEntryView>,
    reg: Seq<RegistryEntryView>,
)
    ensures
        analyze_group_spec(g, reg).len() == g.len(),
        count_matching(analyze_group_spec(g, reg), |e: GroupEntryView| entry_analyzed(e))
            == count_wellformed(g),
{
    let f = |e: ManifestEntryView| analyze_one_spec(e, reg);
    lemma_sort_entries_sorted_inner(g.map_values(f));
    lemma_count_sort(g.map_values(f), |e: GroupEntryView| entry_analyzed(e));
    lemma_count_map(g, reg);
}

} // verus!
