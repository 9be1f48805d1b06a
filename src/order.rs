use vstd::prelude::*;

use crate::reader::{RepoInfo, RepoModel};
use crate::text::{
    lemma_seq_lt_asymmetric, lemma_seq_lt_irreflexive, lemma_seq_lt_total, lemma_seq_lt_transitive,
    seq_lt, str_less,
};

verus! {

broadcast use vstd::seq_lib::group_to_multiset_ensures;

/// Whether record `a` is listed before record `b`: records with changes
/// first, then more changes first, then by name, then by path.
pub open spec fn before(a: RepoModel, b: RepoModel) -> bool {
    if a.has_changes() != b.has_changes() {
        a.has_changes()
    } else if a.has_changes() && a.total_changes() != b.total_changes() {
        a.total_changes() > b.total_changes()
    } else if a.name != b.name {
        seq_lt(a.name, b.name)
    } else {
        seq_lt(a.path, b.path)
    }
}

/// Each record comes strictly before every later one.
pub open spec fn sorted(s: Seq<RepoModel>) -> bool {
    forall|i: int, j: int| 0 <= i < j < s.len() ==> before(#[trigger] s[i], #[trigger] s[j])
}

/// Whether two records have the same name and the same path.
pub open spec fn same_key(a: RepoModel, b: RepoModel) -> bool {
    a.name == b.name && a.path == b.path
}

/// No two records share both their name and their path: so it is where
/// names are distinct, and where paths are.
pub open spec fn distinct_keys(s: Seq<RepoModel>) -> bool {
    forall|i: int, j: int| 0 <= i < s.len() && 0 <= j < s.len() && i != j ==> !#[trigger] same_key(s[i], s[j])
}

pub open spec fn all_wf(s: Seq<RepoModel>) -> bool {
    forall|i: int| 0 <= i < s.len() ==> (#[trigger] s[i]).wf()
}

pub open spec fn models(v: Seq<RepoInfo>) -> Seq<RepoModel> {
    v.map_values(|r: RepoInfo| r@)
}

/// `x` placed before the first record that it comes before.
pub open spec fn sorted_insert(s: Seq<RepoModel>, x: RepoModel) -> Seq<RepoModel>
    decreases s.len(),
{
    if s.len() == 0 {
        seq![x]
    } else if before(x, s[0]) {
        seq![x] + s
    } else {
        seq![s[0]] + sorted_insert(s.drop_first(), x)
    }
}

/// The records of `s` inserted one by one, in order, into an empty list.
pub open spec fn sort_spec(s: Seq<RepoModel>) -> Seq<RepoModel>
    decreases s.len(),
{
    if s.len() == 0 {
        Seq::empty()
    } else {
        sorted_insert(sort_spec(s.drop_last()), s.last())
    }
}

pub proof fn lemma_before_irreflexive(a: RepoModel)
    ensures
        !before(a, a),
{
    lemma_seq_lt_irreflexive(a.path);
}

pub proof fn lemma_before_asymmetric(a: RepoModel, b: RepoModel)
    ensures
        before(a, b) ==> !before(b, a),
{
    lemma_seq_lt_asymmetric(a.name, b.name);
    lemma_seq_lt_asymmetric(a.path, b.path);
}

pub proof fn lemma_before_transitive(a: RepoModel, b: RepoModel, c: RepoModel)
    ensures
        before(a, b) && before(b, c) ==> before(a, c),
{
    lemma_seq_lt_transitive(a.name, b.name, c.name);
    lemma_seq_lt_transitive(a.path, b.path, c.path);
    lemma_seq_lt_asymmetric(a.name, b.name);
    lemma_seq_lt_asymmetric(b.name, c.name);
    lemma_seq_lt_asymmetric(a.name, c.name);
    lemma_seq_lt_irreflexive(a.name);
}

pub proof fn lemma_before_total(a: RepoModel, b: RepoModel)
    ensures
        !same_key(a, b) ==> before(a, b) || before(b, a),
{
    lemma_seq_lt_total(a.name, b.name);
    lemma_seq_lt_total(a.path, b.path);
}

/// What `sorted_insert` holds, and that it keeps a list sorted.
pub proof fn lemma_sorted_insert(s: Seq<RepoModel>, x: RepoModel)
    ensures
        sorted_insert(s, x).len() == s.len() + 1,
        forall|y: RepoModel| sorted_insert(s, x).contains(y) <==> (s.contains(y) || y == x),
        sorted(s) && (forall|i: int| 0 <= i < s.len() ==> !same_key(#[trigger] s[i], x))
            ==> sorted(sorted_insert(s, x)),
    decreases s.len(),
{
    let r = sorted_insert(s, x);
    if s.len() == 0 {
        assert forall|y: RepoModel| r.contains(y) <==> (s.contains(y) || y == x) by {
            if r.contains(y) {
                assert(r[0] == y);
            }
            if y == x {
                assert(r[0] == y);
            }
        }
    } else if before(x, s[0]) {
        assert forall|y: RepoModel| r.contains(y) <==> (s.contains(y) || y == x) by {
            if r.contains(y) {
                let k = choose|k: int| 0 <= k < r.len() && r[k] == y;
                if k > 0 {
                    assert(s[k - 1] == y);
                }
            }
            if s.contains(y) {
                let k = choose|k: int| 0 <= k < s.len() && s[k] == y;
                assert(r[k + 1] == y);
            }
            if y == x {
                assert(r[0] == y);
            }
        }
        if sorted(s) && (forall|i: int| 0 <= i < s.len() ==> !same_key(#[trigger] s[i], x)) {
            assert forall|i: int, j: int| 0 <= i < j < r.len() implies before(
                #[trigger] r[i],
                #[trigger] r[j],
            ) by {
                if i == 0 {
                    if j > 1 {
                        assert(before(s[0], s[j - 1]));
                        lemma_before_transitive(x, s[0], s[j - 1]);
                    }
                } else {
                    assert(before(s[i - 1], s[j - 1]));
                }
            }
        }
    } else {
        let t = s.drop_first();
        lemma_sorted_insert(t, x);
        let rt = sorted_insert(t, x);
        assert(forall|y: RepoModel| rt.contains(y) <==> (t.contains(y) || y == x));
        assert(r == seq![s[0]] + rt);
        assert forall|y: RepoModel| r.contains(y) <==> (s.contains(y) || y == x) by {
            if r.contains(y) {
                let k = choose|k: int| 0 <= k < r.len() && r[k] == y;
                if k > 0 {
                    assert(rt[k - 1] == y);
                    if t.contains(y) {
                        let m = choose|m: int| 0 <= m < t.len() && t[m] == y;
                        assert(s[m + 1] == y);
                    }
                } else {
                    assert(s[0] == y);
                }
            }
            if s.contains(y) {
                let k = choose|k: int| 0 <= k < s.len() && s[k] == y;
                if k > 0 {
                    assert(t[k - 1] == y);
                    assert(t.contains(y));
                    assert(rt.contains(y));
                    let m = choose|m: int| 0 <= m < rt.len() && rt[m] == y;
                    assert(r[m + 1] == y);
                } else {
                    assert(r[0] == y);
                }
            }
            if y == x {
                assert(rt.contains(y));
                let m = choose|m: int| 0 <= m < rt.len() && rt[m] == y;
                assert(r[m + 1] == y);
            }
        }
        if sorted(s) && (forall|i: int| 0 <= i < s.len() ==> !same_key(#[trigger] s[i], x)) {
            assert(sorted(t)) by {
                assert forall|i: int, j: int| 0 <= i < j < t.len() implies before(
                    #[trigger] t[i],
                    #[trigger] t[j],
                ) by {
                    assert(before(s[i + 1], s[j + 1]));
                }
            }
            assert forall|i: int| 0 <= i < t.len() implies !same_key(#[trigger] t[i], x) by {
                assert(!same_key(s[i + 1], x));
            }
            lemma_before_total(x, s[0]);
            assert forall|i: int, j: int| 0 <= i < j < r.len() implies before(
                #[trigger] r[i],
                #[trigger] r[j],
            ) by {
                if i == 0 {
                    let y = rt[j - 1];
                    assert(r[j] == y);
                    assert(rt.contains(y));
                    if y != x {
                        assert(t.contains(y));
                        let m = choose|m: int| 0 <= m < t.len() && t[m] == y;
                        assert(before(s[0], s[m + 1]));
                    }
                } else {
                    assert(before(rt[i - 1], rt[j - 1]));
                }
            }
        }
    }
}

/// Sorting keeps the records, and orders them when no two share both name
/// and path.
pub proof fn lemma_sort_spec(s: Seq<RepoModel>)
    ensures
        sort_spec(s).len() == s.len(),
        forall|y: RepoModel| sort_spec(s).contains(y) <==> s.contains(y),
        distinct_keys(s) ==> sorted(sort_spec(s)),
    decreases s.len(),
{
    if s.len() > 0 {
        let d = s.drop_last();
        lemma_sort_spec(d);
        lemma_sorted_insert(sort_spec(d), s.last());
        assert forall|y: RepoModel| sort_spec(s).contains(y) <==> s.contains(y) by {
            if d.contains(y) {
                let k = choose|k: int| 0 <= k < d.len() && d[k] == y;
                assert(s[k] == y);
            }
            if s.contains(y) {
                let k = choose|k: int| 0 <= k < s.len() && s[k] == y;
                if k < s.len() - 1 {
                    assert(d[k] == y);
                }
            }
        }
        if distinct_keys(s) {
            assert(distinct_keys(d)) by {
                assert forall|i: int, j: int|
                    0 <= i < d.len() && 0 <= j < d.len() && i != j implies !#[trigger] same_key(d[i], d[j]) by {
                    assert(s[i] == d[i] && s[j] == d[j]);
                }
            }
            let sd = sort_spec(d);
            assert forall|i: int| 0 <= i < sd.len() implies !same_key(#[trigger] sd[i], s.last()) by {
                assert(sd.contains(sd[i]));
                assert(d.contains(sd[i]));
                let k = choose|k: int| 0 <= k < d.len() && d[k] == sd[i];
                assert(s[k] == d[k]);
                assert(s.last() == s[s.len() - 1]);
                assert(!same_key(s[k], s[s.len() - 1]));
            }
        }
    } else {
        assert(s == Seq::<RepoModel>::empty());
    }
}

/// Two sorted lists that hold the same records are the same list.
pub proof fn lemma_sorted_unique(a: Seq<RepoModel>, b: Seq<RepoModel>)
    requires
        sorted(a),
        sorted(b),
        forall|y: RepoModel| a.contains(y) <==> b.contains(y),
    ensures
        a == b,
    decreases a.len(),
{
    if a.len() == 0 {
        if b.len() > 0 {
            assert(b.contains(b[0]));
        }
        assert(a =~= b);
    } else if b.len() == 0 {
        assert(a.contains(a[0]));
    } else {
        assert(a.contains(a[0]));
        assert(b.contains(b[0]));
        let j = choose|j: int| 0 <= j < b.len() && b[j] == a[0];
        let i = choose|i: int| 0 <= i < a.len() && a[i] == b[0];
        if j > 0 && i > 0 {
            assert(before(b[0], b[j]));
            assert(before(a[0], a[i]));
            lemma_before_asymmetric(a[0], b[0]);
        } else if j > 0 {
            lemma_before_irreflexive(a[0]);
            assert(before(b[0], b[j]));
        } else if i > 0 {
            lemma_before_irreflexive(b[0]);
            assert(before(a[0], a[i]));
        }
        assert(a[0] == b[0]);
        let ta = a.drop_first();
        let tb = b.drop_first();
        assert(sorted(ta)) by {
            assert forall|p: int, q: int| 0 <= p < q < ta.len() implies before(
                #[trigger] ta[p],
                #[trigger] ta[q],
            ) by {
                assert(before(a[p + 1], a[q + 1]));
            }
        }
        assert(sorted(tb)) by {
            assert forall|p: int, q: int| 0 <= p < q < tb.len() implies before(
                #[trigger] tb[p],
                #[trigger] tb[q],
            ) by {
                assert(before(b[p + 1], b[q + 1]));
            }
        }
        assert forall|y: RepoModel| ta.contains(y) <==> tb.contains(y) by {
            if ta.contains(y) {
                let k = choose|k: int| 0 <= k < ta.len() && ta[k] == y;
                assert(a[k + 1] == y);
                assert(before(a[0], a[k + 1]));
                lemma_before_irreflexive(y);
                assert(b.contains(y));
                let m = choose|m: int| 0 <= m < b.len() && b[m] == y;
                assert(m != 0);
                assert(tb[m - 1] == y);
            }
            if tb.contains(y) {
                let k = choose|k: int| 0 <= k < tb.len() && tb[k] == y;
                assert(b[k + 1] == y);
                assert(before(b[0], b[k + 1]));
                lemma_before_irreflexive(y);
                assert(a.contains(y));
                let m = choose|m: int| 0 <= m < a.len() && a[m] == y;
                assert(m != 0);
                assert(ta[m - 1] == y);
            }
        }
        lemma_sorted_unique(ta, tb);
        assert(a == seq![a[0]] + ta);
        assert(b == seq![b[0]] + tb);
    }
}

/// Reordering a list keeps its keys distinct.
pub proof fn lemma_distinct_keys_reordered(a: Seq<RepoModel>, b: Seq<RepoModel>)
    requires
        a.to_multiset() == b.to_multiset(),
        distinct_keys(a),
    ensures
        distinct_keys(b),
{
    assert forall|i: int, j: int| 0 <= i < a.len() && 0 <= j < a.len() && i != j implies a[i] != a[j] by {
        assert(!same_key(a[i], a[j]));
    }
    assert(a.no_duplicates());
    a.lemma_multiset_has_no_duplicates();
    b.lemma_multiset_has_no_duplicates_conv();
    assert forall|i: int, j: int|
        0 <= i < b.len() && 0 <= j < b.len() && i != j implies !#[trigger] same_key(b[i], b[j]) by {
        assert(b[i] != b[j]);
        assert(b.contains(b[i]));
        assert(b.contains(b[j]));
        assert(b.to_multiset().count(b[i]) > 0);
        assert(b.to_multiset().count(b[j]) > 0);
        assert(a.contains(b[i]));
        assert(a.contains(b[j]));
        let p = choose|p: int| 0 <= p < a.len() && a[p] == b[i];
        let q = choose|q: int| 0 <= q < a.len() && a[q] == b[j];
        assert(p != q);
    }
}

/// On records of which no two share both name and path (as where names are
/// distinct, or paths are), the sorted list is strictly ordered, and it does
/// not depend on the order in which the records arrived: any reordering of
/// the same records sorts to the same list.
pub proof fn lemma_sort_independent_of_arrival(a: Seq<RepoModel>, b: Seq<RepoModel>)
    requires
        a.to_multiset() == b.to_multiset(),
        distinct_keys(a),
    ensures
        sorted(sort_spec(a)),
        sort_spec(a) == sort_spec(b),
{
    lemma_distinct_keys_reordered(a, b);
    lemma_sort_spec(a);
    lemma_sort_spec(b);
    assert forall|y: RepoModel| sort_spec(a).contains(y) <==> sort_spec(b).contains(y) by {
        assert(a.contains(y) <==> a.to_multiset().count(y) > 0);
        assert(b.contains(y) <==> b.to_multiset().count(y) > 0);
    }
    lemma_sorted_unique(sort_spec(a), sort_spec(b));
}

/// Whether `a` is listed before `b`.
pub fn precedes(a: &RepoInfo, b: &RepoInfo) -> (r: bool)
    requires
        a@.wf(),
        b@.wf(),
    ensures
        r == before(a@, b@),
{
    let ca = a.has_changes();
    let cb = b.has_changes();
    if ca != cb {
        ca
    } else if ca && a.total_changes() != b.total_changes() {
        a.total_changes() > b.total_changes()
    } else if !str_eq(a.name.as_str(), b.name.as_str()) {
        str_less(a.name.as_str(), b.name.as_str())
    } else {
        str_less(a.path.as_str(), b.path.as_str())
    }
}

/// Whether two strings hold the same characters.
pub fn str_eq(a: &str, b: &str) -> (r: bool)
    ensures
        r == (a@ == b@),
{
    let ca = crate::text::chars_of(a);
    let cb = crate::text::chars_of(b);
    if ca.len() != cb.len() {
        assert(ca@.len() != cb@.len());
        return false;
    }
    let mut i: usize = 0;
    while i < ca.len()
        invariant
            i <= ca.len(),
            ca.len() == cb.len(),
            ca@ == a@,
            cb@ == b@,
            ca@.take(i as int) == cb@.take(i as int),
        decreases ca.len() - i,
    {
        if ca[i] != cb[i] {
            assert(ca@[i as int] != cb@[i as int]);
            return false;
        }
        assert(ca@.take(i + 1) == ca@.take(i as int).push(ca@[i as int]));
        assert(cb@.take(i + 1) == cb@.take(i as int).push(cb@[i as int]));
        i += 1;
    }
    assert(ca@.take(ca.len() as int) == ca@);
    assert(cb@.take(cb.len() as int) == cb@);
    true
}

proof fn lemma_insert_at(s: Seq<RepoModel>, x: RepoModel, p: int)
    requires
        0 <= p <= s.len(),
        forall|i: int| 0 <= i < p ==> !before(x, #[trigger] s[i]),
        p < s.len() ==> before(x, s[p]),
    ensures
        sorted_insert(s, x) == s.insert(p, x),
    decreases p,
{
    if s.len() == 0 {
        assert(s.insert(p, x) =~= seq![x]);
    } else if p == 0 {
        assert(s.insert(0, x) =~= seq![x] + s);
    } else {
        let t = s.drop_first();
        assert forall|i: int| 0 <= i < p - 1 implies !before(x, #[trigger] t[i]) by {
            assert(t[i] == s[i + 1]);
        }
        lemma_insert_at(t, x, p - 1);
        assert(s.insert(p, x) =~= seq![s[0]] + t.insert(p - 1, x));
    }
}

/// Inserts `x` at its place in a list that `sorted_insert` built.
pub fn insert_sorted(v: &mut Vec<RepoInfo>, x: RepoInfo)
    requires
        all_wf(models(old(v)@)),
        x@.wf(),
    ensures
        models(final(v)@) == sorted_insert(models(old(v)@), x@),
        all_wf(models(final(v)@)),
{
    let ghost s = models(v@);
    let mut p: usize = 0;
    let mut searching = true;
    while searching && p < v.len()
        invariant
            p <= v.len(),
            s == models(v@),
            all_wf(s),
            x@.wf(),
            forall|i: int| 0 <= i < p ==> !before(x@, #[trigger] s[i]),
            !searching ==> p < v.len() && before(x@, s[p as int]),
        decreases v.len() - p + (if searching { 1int } else { 0int }),
    {
        assert(s[p as int] == v@[p as int]@);
        if precedes(&x, &v[p]) {
            searching = false;
        } else {
            p += 1;
        }
    }
    proof {
        if p < v.len() {
            assert(s[p as int] == v@[p as int]@);
        }
        lemma_insert_at(s, x@, p as int);
        lemma_sorted_insert(s, x@);
    }
    let ghost xm = x@;
    v.insert(p, x);
    assert(models(v@) =~= s.insert(p as int, xm));
    proof {
        let r = models(v@);
        assert forall|i: int| 0 <= i < r.len() implies (#[trigger] r[i]).wf() by {
            assert(r.contains(r[i]));
            if r[i] != xm {
                assert(s.contains(r[i]));
                let k = choose|k: int| 0 <= k < s.len() && s[k] == r[i];
            }
        }
    }
}

/// The records of `v`, ordered as `sort_spec` states.
pub fn sort_records(v: Vec<RepoInfo>) -> (r: Vec<RepoInfo>)
    requires
        all_wf(models(v@)),
    ensures
        models(r@) == sort_spec(models(v@)),
        all_wf(models(r@)),
{
    let ghost s = models(v@);
    assert(s.len() == v.len());
    let mut rest = v;
    let mut out: Vec<RepoInfo> = Vec::new();
    let mut k: usize = 0;
    assert(s.take(0) =~= Seq::<RepoModel>::empty());
    assert(models(out@) =~= Seq::<RepoModel>::empty());
    while rest.len() > 0
        invariant
            k + rest.len() == s.len(),
            s.len() <= usize::MAX,
            models(rest@) == s.skip(k as int),
            models(out@) == sort_spec(s.take(k as int)),
            all_wf(s),
            all_wf(models(out@)),
        decreases rest.len(),
    {
        let ghost r0 = rest@;
        assert(models(r0)[0] == r0[0]@);
        let x = rest.remove(0);
        assert(x@ == s[k as int]);
        assert forall|j: int| 0 <= j < rest@.len() implies models(rest@)[j] == s.skip(k + 1)[j] by {
            assert(rest@[j] == r0[j + 1]);
            assert(models(r0)[j + 1] == s.skip(k as int)[j + 1]);
        }
        assert(models(rest@) =~= s.skip(k + 1));
        assert(s.take(k + 1).drop_last() =~= s.take(k as int));
        insert_sorted(&mut out, x);
        k += 1;
    }
    assert(s.take(k as int) =~= s);
    out
}

} // verus!
