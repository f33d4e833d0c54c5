//! Ordering and de-duplicating package lists.
use vstd::prelude::*;

use crate::model::{Package, PackageView};
use crate::text;

verus! {

/// `a <= b` in the lexicographic order of strings. Strings compare by their
/// UTF-8 bytes, which orders them as their characters' code points do.
pub open spec fn lex_le(a: Seq<char>, b: Seq<char>) -> bool
    decreases a.len(),
{
    if a.len() == 0 {
        true
    } else if b.len() == 0 {
        false
    } else if a[0] != b[0] {
        (a[0] as u32) < (b[0] as u32)
    } else {
        lex_le(a.drop_first(), b.drop_first())
    }
}

/// `p` sorts no later than `q`: by name, then by version.
pub open spec fn key_le(p: PackageView, q: PackageView) -> bool {
    if p.name != q.name {
        lex_le(p.name, q.name)
    } else {
        lex_le(p.version, q.version)
    }
}

/// `s` with `x` placed after the last element that sorts no later than it.
pub open spec fn insert_sorted(s: Seq<PackageView>, x: PackageView) -> Seq<PackageView>
    decreases s.len(),
{
    if s.len() == 0 {
        seq![x]
    } else if key_le(s.last(), x) {
        s.push(x)
    } else {
        insert_sorted(s.drop_last(), x).push(s.last())
    }
}

/// `s` stably sorted by name, then version.
pub open spec fn sorted_packages(s: Seq<PackageView>) -> Seq<PackageView>
    decreases s.len(),
{
    if s.len() == 0 {
        Seq::empty()
    } else {
        insert_sorted(sorted_packages(s.drop_last()), s.last())
    }
}

/// The key under which scanned npm packages are de-duplicated.
pub open spec fn dedup_key(p: PackageView) -> Seq<char> {
    p.name + "@"@ + p.version
}

/// An element before position `i` of `s` has the key of `s[i]`.
pub open spec fn seen_before(s: Seq<PackageView>, i: int) -> bool {
    exists|k: int| 0 <= k < i && dedup_key(#[trigger] s[k]) == dedup_key(s[i])
}

/// The first element of `s` for each key, in order.
pub open spec fn first_occurrences(s: Seq<PackageView>) -> Seq<PackageView>
    decreases s.len(),
{
    if s.len() == 0 {
        Seq::empty()
    } else if seen_before(s, s.len() - 1) {
        first_occurrences(s.drop_last())
    } else {
        first_occurrences(s.drop_last()).push(s.last())
    }
}

/// `s` without the elements that repeat the name and version of the
/// element just before them (`Vec::dedup_by`).
pub open spec fn dedup_adjacent(s: Seq<PackageView>) -> Seq<PackageView>
    decreases s.len(),
{
    if s.len() <= 1 {
        s
    } else if s.last().name == s[s.len() - 2].name && s.last().version == s[s.len() - 2].version {
        dedup_adjacent(s.drop_last())
    } else {
        dedup_adjacent(s.drop_last()).push(s.last())
    }
}

fn lex_le_exec(a: &[char], b: &[char]) -> (r: bool)
    ensures
        r == lex_le(a@, b@),
{
    let mut i: usize = 0;
    assert(a@.skip(0) =~= a@);
    assert(b@.skip(0) =~= b@);
    while i < a.len() && i < b.len() && a[i] == b[i]
        invariant
            i <= a.len(),
            i <= b.len(),
            lex_le(a@, b@) == lex_le(a@.skip(i as int), b@.skip(i as int)),
        decreases a.len() - i,
    {
        assert(a@.skip(i as int).drop_first() =~= a@.skip(i + 1));
        assert(b@.skip(i as int).drop_first() =~= b@.skip(i + 1));
        i += 1;
    }
    if i == a.len() {
        true
    } else if i == b.len() {
        false
    } else {
        (a[i] as u32) < (b[i] as u32)
    }
}

fn key_le_exec(p: &Package, q: &Package) -> (r: bool)
    ensures
        r == key_le(p.deep_view(), q.deep_view()),
{
    let pn = text::to_chars(p.name.as_str());
    let qn = text::to_chars(q.name.as_str());
    if !text::eq_chars(&pn, &qn) {
        lex_le_exec(&pn, &qn)
    } else {
        let pv = text::to_chars(p.version.as_str());
        let qv = text::to_chars(q.version.as_str());
        lex_le_exec(&pv, &qv)
    }
}

proof fn lemma_insert_at(s: Seq<PackageView>, x: PackageView, j: int)
    requires
        0 <= j <= s.len(),
        j == 0 || key_le(s[j - 1], x),
        forall|k: int| j <= k < s.len() ==> !key_le(#[trigger] s[k], x),
    ensures
        insert_sorted(s, x) == s.take(j).push(x) + s.skip(j),
    decreases s.len() - j,
{
    if s.len() == j {
        if j == 0 {
            assert(s.take(0).push(x) + s.skip(0) =~= seq![x]);
        } else {
            assert(s.take(j).push(x) + s.skip(j) =~= s.push(x));
        }
    } else {
        lemma_insert_at(s.drop_last(), x, j);
        assert(s.take(j).push(x) + s.skip(j) =~= (s.drop_last().take(j).push(x) + s.drop_last().skip(
            j,
        )).push(s.last()));
    }
}

/// `packages` stably sorted by name, then version.
pub fn sort_packages(packages: Vec<Package>) -> (r: Vec<Package>)
    ensures
        r.deep_view() == sorted_packages(packages.deep_view()),
{
    let ghost src = packages.deep_view();
    let mut out: Vec<Package> = Vec::new();
    let rest = packages;
    let mut i: usize = 0;
    assert(out.deep_view() =~= sorted_packages(src.take(0)));
    while i < rest.len()
        invariant
            i <= rest.len(),
            rest.deep_view() == src,
            out.deep_view() == sorted_packages(src.take(i as int)),
        decreases rest.len() - i,
    {
        let x = crate::scanner::retyped(&rest[i], rest[i].dependency_type);
        let ghost xv = x.deep_view();
        assert(xv == src[i as int]) by {
            assert(crate::scanner::with_type(src[i as int], src[i as int].dependency_type)
                =~= src[i as int]);
        }
        let ghost s = out.deep_view();
        let mut j = out.len();
        while j > 0 && !key_le_exec(&out[j - 1], &x)
            invariant
                j <= out.len(),
                s == out.deep_view(),
                xv == x.deep_view(),
                forall|k: int| j <= k < s.len() ==> !key_le(#[trigger] s[k], xv),
            decreases j,
        {
            j -= 1;
        }
        proof {
            lemma_insert_at(s, xv, j as int);
        }
        out.insert(j, x);
        assert(out.deep_view() =~= s.take(j as int).push(xv) + s.skip(j as int));
        assert(src.take(i + 1).drop_last() =~= src.take(i as int));
        i += 1;
    }
    assert(src.take(rest.len() as int) =~= src);
    out
}


fn key_chars(p: &Package) -> (k: Vec<char>)
    ensures
        k@ == dedup_key(p.deep_view()),
{
    let mut k = text::to_chars(p.name.as_str());
    k.push('@');
    let mut v = text::to_chars(p.version.as_str());
    let ghost k0 = k@;
    k.append(&mut v);
    proof {
        reveal_strlit("@");
    }
    assert(k@ =~= dedup_key(p.deep_view()));
    k
}

/// The first package of `packages` for each `name@version` key, in order.
pub fn dedup_first(packages: Vec<Package>) -> (r: Vec<Package>)
    ensures
        r.deep_view() == first_occurrences(packages.deep_view()),
{
    let ghost src = packages.deep_view();
    let mut out: Vec<Package> = Vec::new();
    let mut keys: Vec<Vec<char>> = Vec::new();
    let mut i: usize = 0;
    assert(out.deep_view() =~= first_occurrences(src.take(0)));
    while i < packages.len()
        invariant
            i <= packages.len(),
            packages.deep_view() == src,
            keys@.len() == i,
            forall|k: int| 0 <= k < i ==> (#[trigger] keys@[k])@ == dedup_key(src[k]),
            out.deep_view() == first_occurrences(src.take(i as int)),
        decreases packages.len() - i,
    {
        let key = key_chars(&packages[i]);
        let mut seen = false;
        let mut k: usize = 0;
        while k < keys.len()
            invariant
                k <= keys.len(),
                keys@.len() == i,
                i < src.len(),
                key@ == dedup_key(src[i as int]),
                forall|m: int| 0 <= m < i ==> (#[trigger] keys@[m])@ == dedup_key(src[m]),
                seen == exists|m: int| 0 <= m < k && dedup_key(#[trigger] src[m]) == key@,
            decreases keys.len() - k,
        {
            if text::eq_chars(&keys[k], &key) {
                seen = true;
            }
            k += 1;
        }
        let ghost t = src.take(i + 1);
        assert(t.drop_last() =~= src.take(i as int));
        assert(seen == seen_before(t, i as int)) by {
            if seen {
                let m = choose|m: int| 0 <= m < i && dedup_key(#[trigger] src[m]) == key@;
                assert(t[m] == src[m]);
            }
            if seen_before(t, i as int) {
                let m = choose|m: int| 0 <= m < i && dedup_key(#[trigger] t[m]) == dedup_key(
                    t[i as int],
                );
                assert(t[m] == src[m]);
            }
        }
        if !seen {
            let p = crate::scanner::retyped(&packages[i], packages[i].dependency_type);
            assert(p.deep_view() =~= src[i as int]);
            crate::scanner::push_package(&mut out, p);
        }
        keys.push(key);
        i += 1;
    }
    assert(src.take(packages.len() as int) =~= src);
    out
}

/// `packages` without the entries that repeat the name and version of the
/// entry just before them.
pub fn dedup_adjacent_packages(packages: Vec<Package>) -> (r: Vec<Package>)
    ensures
        r.deep_view() == dedup_adjacent(packages.deep_view()),
{
    let ghost src = packages.deep_view();
    let mut out: Vec<Package> = Vec::new();
    let mut i: usize = 0;
    assert(out.deep_view() =~= dedup_adjacent(src.take(0)));
    while i < packages.len()
        invariant
            i <= packages.len(),
            packages.deep_view() == src,
            out.deep_view() == dedup_adjacent(src.take(i as int)),
        decreases packages.len() - i,
    {
        let ghost t = src.take(i + 1);
        assert(t.drop_last() =~= src.take(i as int));
        let repeat = i > 0 && packages[i].name == packages[i - 1].name && packages[i].version
            == packages[i - 1].version;
        if !repeat {
            let p = crate::scanner::retyped(&packages[i], packages[i].dependency_type);
            assert(p.deep_view() =~= src[i as int]);
            crate::scanner::push_package(&mut out, p);
            if i == 0 {
                assert(dedup_adjacent(t) =~= seq![src[0]]);
                assert(out.deep_view() =~= seq![src[0]]);
            }
        }
        i += 1;
    }
    assert(src.take(packages.len() as int) =~= src);
    out
}

/// Every element of `s` sorts no later than every element after it.
pub open spec fn is_sorted(s: Seq<PackageView>) -> bool {
    forall|i: int, j: int| 0 <= i < j < s.len() ==> #[trigger] key_le(s[i], s[j])
}

proof fn lemma_lex_total(a: Seq<char>, b: Seq<char>)
    ensures
        lex_le(a, b) || lex_le(b, a),
    decreases a.len(),
{
    if a.len() > 0 && b.len() > 0 {
        if a[0] == b[0] {
            lemma_lex_total(a.drop_first(), b.drop_first());
        } else {
            vstd::utf8::char_u32_cast(a[0], a[0] as u32);
            vstd::utf8::char_u32_cast(b[0], b[0] as u32);
        }
    }
}

proof fn lemma_lex_trans(a: Seq<char>, b: Seq<char>, c: Seq<char>)
    requires
        lex_le(a, b),
        lex_le(b, c),
    ensures
        lex_le(a, c),
    decreases a.len(),
{
    if a.len() > 0 && a[0] == b[0] && b[0] == c[0] {
        lemma_lex_trans(a.drop_first(), b.drop_first(), c.drop_first());
    }
}

proof fn lemma_lex_antisym(a: Seq<char>, b: Seq<char>)
    requires
        lex_le(a, b),
        lex_le(b, a),
    ensures
        a == b,
    decreases a.len(),
{
    if a.len() > 0 {
        lemma_lex_antisym(a.drop_first(), b.drop_first());
        assert(a =~= seq![a[0]] + a.drop_first());
        assert(b =~= seq![b[0]] + b.drop_first());
    } else {
        assert(a =~= b);
    }
}

proof fn lemma_key_total(p: PackageView, q: PackageView)
    ensures
        key_le(p, q) || key_le(q, p),
{
    lemma_lex_total(p.name, q.name);
    lemma_lex_total(p.version, q.version);
}

proof fn lemma_key_trans(p: PackageView, q: PackageView, r: PackageView)
    requires
        key_le(p, q),
        key_le(q, r),
    ensures
        key_le(p, r),
{
    if p.name != q.name {
        if q.name != r.name {
            lemma_lex_trans(p.name, q.name, r.name);
            if p.name == r.name {
                lemma_lex_antisym(p.name, q.name);
            }
        }
    } else if q.name == r.name {
        lemma_lex_trans(p.version, q.version, r.version);
    }
}

proof fn lemma_insert_bounded(s: Seq<PackageView>, x: PackageView, y: PackageView)
    requires
        forall|k: int| 0 <= k < s.len() ==> #[trigger] key_le(s[k], y),
        key_le(x, y),
    ensures
        insert_sorted(s, x).len() == s.len() + 1,
        forall|k: int|
            0 <= k < insert_sorted(s, x).len() ==> #[trigger] key_le(insert_sorted(s, x)[k], y),
    decreases s.len(),
{
    if s.len() > 0 && !key_le(s.last(), x) {
        let t = s.drop_last();
        assert forall|k: int| 0 <= k < t.len() implies #[trigger] key_le(t[k], y) by {
            assert(key_le(s[k], y));
        }
        lemma_insert_bounded(t, x, y);
        assert(key_le(s[s.len() - 1], y));
    }
}

proof fn lemma_insert_sorted(s: Seq<PackageView>, x: PackageView)
    requires
        is_sorted(s),
    ensures
        is_sorted(insert_sorted(s, x)),
        insert_sorted(s, x).to_multiset() == s.to_multiset().insert(x),
    decreases s.len(),
{
    broadcast use vstd::seq_lib::group_to_multiset_ensures;

    if s.len() == 0 {
        assert(seq![x] =~= Seq::<PackageView>::empty().push(x));
    } else if key_le(s.last(), x) {
        let r = s.push(x);
        assert forall|i: int, j: int| 0 <= i < j < r.len() implies #[trigger] key_le(r[i], r[j]) by {
            if j == s.len() && i < s.len() - 1 {
                assert(key_le(s[i], s[s.len() - 1]));
                lemma_key_trans(s[i], s.last(), x);
            }
        }
    } else {
        let t = s.drop_last();
        let last = s.last();
        assert(is_sorted(t)) by {
            assert forall|i: int, j: int| 0 <= i < j < t.len() implies #[trigger] key_le(t[i], t[j]) by {
                assert(key_le(s[i], s[j]));
            }
        }
        lemma_insert_sorted(t, x);
        lemma_key_total(last, x);
        assert forall|k: int| 0 <= k < t.len() implies #[trigger] key_le(t[k], last) by {
            assert(key_le(s[k], s[s.len() - 1]));
        }
        lemma_insert_bounded(t, x, last);
        let u = insert_sorted(t, x);
        let r = u.push(last);
        assert forall|i: int, j: int| 0 <= i < j < r.len() implies #[trigger] key_le(r[i], r[j]) by {
            if j == u.len() {
                assert(key_le(u[i], last));
            } else {
                assert(key_le(u[i], u[j]));
            }
        }
        assert(t.push(last) =~= s);
        assert(t.to_multiset().insert(x).insert(last) =~= t.to_multiset().insert(last).insert(x));
    }
}

/// Sorting packages by name, then version, yields a list in that order
/// that holds the same packages as before, as often as before.
pub proof fn sorting_orders_packages(s: Seq<PackageView>)
    ensures
        is_sorted(sorted_packages(s)),
        sorted_packages(s).to_multiset() == s.to_multiset(),
    decreases s.len(),
{
    broadcast use vstd::seq_lib::group_to_multiset_ensures;

    if s.len() > 0 {
        sorting_orders_packages(s.drop_last());
        lemma_insert_sorted(sorted_packages(s.drop_last()), s.last());
        assert(s.drop_last().push(s.last()) =~= s);
    } else {
        assert(s.to_multiset() =~= vstd::multiset::Multiset::<PackageView>::empty());
        assert(sorted_packages(s).to_multiset() =~= vstd::multiset::Multiset::<PackageView>::empty());
    }
}


proof fn lemma_key_antisym(p: PackageView, q: PackageView)
    requires
        key_le(p, q),
        key_le(q, p),
    ensures
        p.name == q.name,
        p.version == q.version,
{
    if p.name != q.name {
        lemma_lex_antisym(p.name, q.name);
    } else {
        lemma_lex_antisym(p.version, q.version);
    }
}

/// Some element of `r` has the key `key`.
pub open spec fn has_key(r: Seq<PackageView>, key: Seq<char>) -> bool {
    exists|m: int| 0 <= m < r.len() && dedup_key(#[trigger] r[m]) == key
}

proof fn lemma_fo_members(s: Seq<PackageView>)
    ensures
        forall|i: int|
            0 <= i < first_occurrences(s).len() ==> s.contains(#[trigger] first_occurrences(s)[i]),
    decreases s.len(),
{
    if s.len() > 0 {
        let t = s.drop_last();
        let r0 = first_occurrences(t);
        lemma_fo_members(t);
        let r = first_occurrences(s);
        assert forall|i: int| 0 <= i < r.len() implies s.contains(#[trigger] r[i]) by {
            if i < r0.len() {
                assert(t.contains(r0[i]));
                let m = choose|m: int| 0 <= m < t.len() && t[m] == r0[i];
                assert(s[m] == r[i]);
            } else {
                assert(s[s.len() - 1] == r[i]);
            }
        }
    }
}

proof fn lemma_fo_distinct(s: Seq<PackageView>)
    ensures
        forall|i: int, j: int|
            0 <= i < j < first_occurrences(s).len() ==> dedup_key(
                #[trigger] first_occurrences(s)[i],
            ) != dedup_key(#[trigger] first_occurrences(s)[j]),
    decreases s.len(),
{
    if s.len() > 0 {
        let t = s.drop_last();
        let n = s.len() - 1;
        let r0 = first_occurrences(t);
        lemma_fo_distinct(t);
        lemma_fo_members(t);
        let r = first_occurrences(s);
        assert forall|i: int, j: int| 0 <= i < j < r.len() implies dedup_key(#[trigger] r[i])
            != dedup_key(#[trigger] r[j]) by {
            if j < r0.len() {
                assert(r[i] == r0[i] && r[j] == r0[j]);
            } else {
                assert(!seen_before(s, n));
                assert(t.contains(r0[i]));
                let m = choose|m: int| 0 <= m < t.len() && t[m] == r0[i];
                assert(r[i] == s[m]);
                assert(r[j] == s[n]);
            }
        }
    }
}

proof fn lemma_fo_covers(s: Seq<PackageView>)
    ensures
        forall|k: int| 0 <= k < s.len() ==> has_key(first_occurrences(s), dedup_key(#[trigger] s[k])),
    decreases s.len(),
{
    if s.len() > 0 {
        let t = s.drop_last();
        let n = s.len() - 1;
        let r0 = first_occurrences(t);
        lemma_fo_covers(t);
        let r = first_occurrences(s);
        assert forall|k: int| 0 <= k < s.len() implies has_key(r, dedup_key(#[trigger] s[k])) by {
            if k < n {
                assert(s[k] == t[k]);
                assert(has_key(r0, dedup_key(t[k])));
                let m = choose|m: int| 0 <= m < r0.len() && dedup_key(#[trigger] r0[m]) == dedup_key(t[k]);
                assert(r[m] == r0[m]);
            } else if seen_before(s, n) {
                let m0 = choose|m0: int| 0 <= m0 < n && dedup_key(#[trigger] s[m0]) == dedup_key(s[n]);
                assert(s[m0] == t[m0]);
                assert(has_key(r0, dedup_key(t[m0])));
                let m = choose|m: int| 0 <= m < r0.len() && dedup_key(#[trigger] r0[m]) == dedup_key(t[m0]);
                assert(r[m] == r0[m]);
            } else {
                assert(r[r.len() - 1] == s[n]);
            }
        }
    }
}

/// De-duplicating by `name@version` keeps, for each key that occurs, a
/// package with that key, and no key twice; each package kept is one of
/// the input.
pub proof fn dedup_keeps_one_per_key(s: Seq<PackageView>)
    ensures
        forall|i: int, j: int|
            0 <= i < j < first_occurrences(s).len() ==> dedup_key(
                #[trigger] first_occurrences(s)[i],
            ) != dedup_key(#[trigger] first_occurrences(s)[j]),
        forall|k: int| 0 <= k < s.len() ==> has_key(first_occurrences(s), dedup_key(#[trigger] s[k])),
        forall|i: int|
            0 <= i < first_occurrences(s).len() ==> s.contains(#[trigger] first_occurrences(s)[i]),
{
    lemma_fo_distinct(s);
    lemma_fo_covers(s);
    lemma_fo_members(s);
}

proof fn lemma_dedup_adjacent_members(s: Seq<PackageView>)
    ensures
        forall|i: int|
            0 <= i < dedup_adjacent(s).len() ==> exists|m: int|
                0 <= m < s.len() && #[trigger] dedup_adjacent(s)[i] == s[m],
    decreases s.len(),
{
    if s.len() > 1 {
        let t = s.drop_last();
        lemma_dedup_adjacent_members(t);
        let r0 = dedup_adjacent(t);
        let r = dedup_adjacent(s);
        assert forall|i: int| 0 <= i < r.len() implies exists|m: int|
            0 <= m < s.len() && #[trigger] r[i] == s[m] by {
            if i < r0.len() {
                let m = choose|m: int| 0 <= m < t.len() && r0[i] == t[m];
                assert(r[i] == s[m]);
            } else {
                assert(r[i] == s[s.len() - 1]);
            }
        }
    } else if s.len() == 1 {
        assert(dedup_adjacent(s)[0] == s[0]);
    }
}

proof fn lemma_dedup_sorted(s: Seq<PackageView>)
    requires
        is_sorted(s),
    ensures
        forall|i: int, j: int|
            0 <= i < j < dedup_adjacent(s).len() ==> !(#[trigger] dedup_adjacent(s)[i].name
                == #[trigger] dedup_adjacent(s)[j].name && dedup_adjacent(s)[i].version
                == dedup_adjacent(s)[j].version),
    decreases s.len(),
{
    if s.len() > 1 {
        let t = s.drop_last();
        let n = s.len() - 1;
        assert(is_sorted(t)) by {
            assert forall|i: int, j: int| 0 <= i < j < t.len() implies #[trigger] key_le(t[i], t[j]) by {
                assert(key_le(s[i], s[j]));
            }
        }
        lemma_dedup_sorted(t);
        lemma_dedup_adjacent_members(t);
        let r0 = dedup_adjacent(t);
        let r = dedup_adjacent(s);
        assert forall|i: int, j: int| 0 <= i < j < r.len() implies !(#[trigger] r[i].name
            == #[trigger] r[j].name && r[i].version == r[j].version) by {
            if j < r0.len() {
                assert(r[i] == r0[i] && r[j] == r0[j]);
            } else {
                let m = choose|m: int| 0 <= m < t.len() && r0[i] == t[m];
                assert(r[i] == s[m]);
                assert(r[j] == s[n]);
                if r[i].name == r[j].name && r[i].version == r[j].version {
                    assert(key_le(s[n - 1], s[n]));
                    if m < n - 1 {
                        assert(key_le(s[m], s[n - 1]));
                    }
                    assert(key_le(s[m], s[n - 1]));
                    assert(key_le(s[n], s[n - 1]));
                    lemma_key_antisym(s[n - 1], s[n]);
                }
            }
        }
    }
}

/// Sorting by name and version, then dropping each package that repeats
/// the name and version of the one before it, leaves no name and version
/// twice.
pub proof fn sorted_dedup_is_distinct(s: Seq<PackageView>)
    ensures
        forall|i: int, j: int|
            0 <= i < j < dedup_adjacent(sorted_packages(s)).len() ==> !(#[trigger] dedup_adjacent(
                sorted_packages(s),
            )[i].name == #[trigger] dedup_adjacent(sorted_packages(s))[j].name && dedup_adjacent(
                sorted_packages(s),
            )[i].version == dedup_adjacent(sorted_packages(s))[j].version),
{
    sorting_orders_packages(s);
    lemma_dedup_sorted(sorted_packages(s));
}


/// No two elements of `s` share a `name@version` key.
pub open spec fn unique_keys(s: Seq<PackageView>) -> bool {
    forall|i: int, j: int|
        0 <= i < j < s.len() ==> dedup_key(#[trigger] s[i]) != dedup_key(#[trigger] s[j])
}

proof fn lemma_unique_keys_permutation(s: Seq<PackageView>, r: Seq<PackageView>)
    requires
        unique_keys(s),
        r.to_multiset() == s.to_multiset(),
    ensures
        unique_keys(r),
{
    broadcast use vstd::seq_lib::group_to_multiset_ensures;

    assert forall|i: int, j: int| 0 <= i < j < r.len() implies dedup_key(#[trigger] r[i])
        != dedup_key(#[trigger] r[j]) by {
        if dedup_key(r[i]) == dedup_key(r[j]) {
            assert(r.contains(r[i]) && r.contains(r[j]));
            assert(s.to_multiset().count(r[i]) > 0);
            assert(s.to_multiset().count(r[j]) > 0);
            let a = choose|a: int| 0 <= a < s.len() && s[a] == r[i];
            let b = choose|b: int| 0 <= b < s.len() && s[b] == r[j];
            if a != b {
                if a < b {
                    assert(dedup_key(s[a]) != dedup_key(s[b]));
                } else {
                    assert(dedup_key(s[b]) != dedup_key(s[a]));
                }
            } else {
                assert(r[i] == r[j]);
                assert(r.remove(j).contains(r[i])) by {
                    assert(r.remove(j)[i] == r[i]);
                }
                assert(r.remove(j).to_multiset() =~= r.to_multiset().remove(r[j]));
                assert(r.remove(j).to_multiset().count(r[i]) > 0);
                assert(s.to_multiset().count(r[i]) >= 2);
                assert(s.remove(a).to_multiset() =~= s.to_multiset().remove(s[a]));
                assert(s.remove(a).contains(r[i]));
                let c = choose|c: int| 0 <= c < s.remove(a).len() && s.remove(a)[c] == r[i];
                let c2 = if c < a { c } else { c + 1 };
                assert(s[c2] == r[i]);
                assert(c2 != a);
                if a < c2 {
                    assert(dedup_key(s[a]) != dedup_key(s[c2]));
                } else {
                    assert(dedup_key(s[c2]) != dedup_key(s[a]));
                }
            }
        }
    }
}

/// De-duplicating by `name@version` and then sorting by name and version
/// (the listing of an npm scan) yields a sorted list in which no key occurs
/// twice.
pub proof fn dedup_then_sort_is_sorted_and_unique(s: Seq<PackageView>)
    ensures
        is_sorted(sorted_packages(first_occurrences(s))),
        unique_keys(sorted_packages(first_occurrences(s))),
{
    lemma_fo_distinct(s);
    sorting_orders_packages(first_occurrences(s));
    lemma_unique_keys_permutation(first_occurrences(s), sorted_packages(first_occurrences(s)));
}

} // verus!
