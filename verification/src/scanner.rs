//! Per-ecosystem manifest and lockfile parsers, and what the scanners share.
pub mod cargo;
pub mod cpp;
pub mod dart;
pub mod go;
pub mod java;
pub mod npm;
pub mod php;
pub mod python;
pub mod ruby;

use vstd::prelude::*;

use crate::license::classifier::{identify_license_text, license_of_text};
use crate::model::{opt_view, DependencyType, Ecosystem, LicenseSource, Package, PackageView};
use crate::text;

verus! {

/// A dependency with no license information yet.
pub open spec fn bare_package(
    name: Seq<char>,
    version: Seq<char>,
    ecosystem: Ecosystem,
    dependency_type: DependencyType,
) -> PackageView {
    PackageView {
        name,
        version,
        license: None,
        license_source: LicenseSource::NotFound,
        ecosystem,
        dependency_type,
    }
}

/// A dependency with no license information yet.
pub fn new_package(
    name: &[char],
    version: &[char],
    ecosystem: Ecosystem,
    dependency_type: DependencyType,
) -> (p: Package)
    ensures
        p.deep_view() == bare_package(name@, version@, ecosystem, dependency_type),
{
    Package {
        name: text::from_chars(name),
        version: text::from_chars(version),
        license: None,
        license_source: LicenseSource::NotFound,
        ecosystem,
        dependency_type,
    }
}

/// Append `p` to `out`.
pub fn push_package(out: &mut Vec<Package>, p: Package)
    ensures
        final(out).deep_view() == old(out).deep_view().push(p.deep_view()),
{
    let ghost before = out.deep_view();
    out.push(p);
    assert(out.deep_view() =~= before.push(p.deep_view()));
}


/// A copy of an optional string.
pub fn clone_opt(o: &Option<String>) -> (r: Option<String>)
    ensures
        crate::model::opt_view(r) == crate::model::opt_view(*o),
{
    match o {
        Some(s) => Some(s.clone()),
        None => None,
    }
}

/// `p` with the given dependency type.
pub open spec fn with_type(p: PackageView, t: DependencyType) -> PackageView {
    PackageView {
        name: p.name,
        version: p.version,
        license: p.license,
        license_source: p.license_source,
        ecosystem: p.ecosystem,
        dependency_type: t,
    }
}

/// A copy of `p` with the given dependency type.
pub fn retyped(p: &Package, t: DependencyType) -> (r: Package)
    ensures
        r.deep_view() == with_type(p.deep_view(), t),
{
    Package {
        name: p.name.clone(),
        version: p.version.clone(),
        license: clone_opt(&p.license),
        license_source: p.license_source,
        ecosystem: p.ecosystem,
        dependency_type: t,
    }
}

/// `name` is one of `names`.
pub fn contains_string(names: &[String], name: &[char]) -> (b: bool)
    ensures
        b == names@.map_values(|s: String| s@).contains(name@),
{
    let ghost ns = names@.map_values(|s: String| s@);
    let mut i: usize = 0;
    while i < names.len()
        invariant
            i <= names.len(),
            ns == names@.map_values(|s: String| s@),
            forall|k: int| 0 <= k < i ==> ns[k] != name@,
        decreases names.len() - i,
    {
        let entry = text::to_chars(names[i].as_str());
        if text::eq_chars(&entry, name) {
            assert(ns[i as int] == name@);
            return true;
        }
        i += 1;
    }
    false
}

/// The license of the first of `texts` that names a recognisable one.
pub open spec fn first_identified(texts: Seq<Option<Seq<char>>>) -> Option<Seq<char>>
    decreases texts.len(),
{
    if texts.len() == 0 {
        None
    } else {
        match texts[0] {
            Some(t) => match license_of_text(t) {
                Some(id) => Some(id),
                None => first_identified(texts.drop_first()),
            },
            None => first_identified(texts.drop_first()),
        }
    }
}

/// The license identified in the first of the license file texts `texts`
/// (in the order the files are probed, `None` where a file is missing or
/// unreadable) whose text is recognised.
pub fn identify_first(texts: &[Option<String>]) -> (r: Option<String>)
    ensures
        opt_view(r) == first_identified(texts@.map_values(|o: Option<String>| opt_view(o))),
{
    let ghost tv = texts@.map_values(|o: Option<String>| opt_view(o));
    let mut i: usize = 0;
    assert(tv.skip(0) =~= tv);
    while i < texts.len()
        invariant
            i <= texts.len(),
            tv == texts@.map_values(|o: Option<String>| opt_view(o)),
            first_identified(tv) == first_identified(tv.skip(i as int)),
        decreases texts.len() - i,
    {
        assert(tv.skip(i as int).drop_first() =~= tv.skip(i + 1));
        assert(tv.skip(i as int)[0] == opt_view(texts@[i as int]));
        match &texts[i] {
            Some(t) => match identify_license_text(t.as_str()) {
                Some(id) => {
                    return Some(String::from_str(id));
                },
                None => {},
            },
            None => {},
        }
        i += 1;
    }
    None
}

/// `p` with the license found for it, where one was found and (when
/// `only_missing`) `p` had none.
pub open spec fn with_found_license(
    p: PackageView,
    found: Option<(Seq<char>, LicenseSource)>,
    only_missing: bool,
) -> PackageView {
    match found {
        Some((license, source)) => if only_missing && p.license is Some {
            p
        } else {
            PackageView { license: Some(license), license_source: source, ..p }
        },
        None => p,
    }
}

/// The view of a found license and where it came from.
pub open spec fn found_view(o: Option<(String, LicenseSource)>) -> Option<(Seq<char>, LicenseSource)> {
    match o {
        Some((l, s)) => Some((l@, s)),
        None => None,
    }
}

/// What was found for position `k`, if anything.
pub open spec fn found_at(found: Seq<Option<(String, LicenseSource)>>, k: int) -> Option<
    (Seq<char>, LicenseSource),
> {
    if 0 <= k < found.len() {
        found_view(found[k])
    } else {
        None
    }
}

/// `packages` with `found[k]`, the license that a lookup on disk found
/// for package `k` and its source, applied to it; with `only_missing`, only
/// to packages that have no license yet.
pub fn apply_found_licenses(
    packages: &Vec<Package>,
    found: &[Option<(String, LicenseSource)>],
    only_missing: bool,
) -> (r: Vec<Package>)
    ensures
        r.deep_view().len() == packages.deep_view().len(),
        forall|k: int|
            0 <= k < packages.len() ==> #[trigger] r.deep_view()[k] == with_found_license(
                packages.deep_view()[k],
                found_at(found@, k),
                only_missing,
            ),
{
    let mut r: Vec<Package> = Vec::new();
    let mut k: usize = 0;
    while k < packages.len()
        invariant
            k <= packages.len(),
            r.deep_view().len() == k,
            forall|m: int|
                0 <= m < k ==> #[trigger] r.deep_view()[m] == with_found_license(
                    packages.deep_view()[m],
                    found_at(found@, m),
                    only_missing,
                ),
        decreases packages.len() - k,
    {
        let p = &packages[k];
        let q = if k < found.len() {
            match &found[k] {
                Some((license, source)) => if only_missing && p.license.is_some() {
                    retyped(p, p.dependency_type)
                } else {
                    Package {
                        name: p.name.clone(),
                        version: p.version.clone(),
                        license: Some(license.clone()),
                        license_source: *source,
                        ecosystem: p.ecosystem,
                        dependency_type: p.dependency_type,
                    }
                },
                None => retyped(p, p.dependency_type),
            }
        } else {
            retyped(p, p.dependency_type)
        };
        assert(q.deep_view() == with_found_license(p.deep_view(), found_at(found@, k as int), only_missing));
        let ghost before = r.deep_view();
        push_package(&mut r, q);
        assert(r.deep_view()[k as int] == q.deep_view());
        assert(forall|m: int| 0 <= m < k ==> r.deep_view()[m] == before[m]);
        k += 1;
    }
    r
}

/// What the license files of package `k` (`texts[k]`, in probing order)
/// identify, as a license found in a license file.
pub open spec fn identified_at(texts: Seq<Vec<Option<String>>>, k: int) -> Option<
    (Seq<char>, LicenseSource),
> {
    if 0 <= k < texts.len() {
        match first_identified(texts[k]@.map_values(|o: Option<String>| opt_view(o))) {
            Some(l) => Some((l, LicenseSource::LicenseFile)),
            None => None,
        }
    } else {
        None
    }
}

/// `packages` with the license identified from the license files of each
/// (`texts[k]` holds those of package `k` in probing order, `None` where a
/// file is missing); with `only_missing`, only for packages that have no
/// license yet.
pub fn apply_license_files(
    packages: &Vec<Package>,
    texts: &[Vec<Option<String>>],
    only_missing: bool,
) -> (r: Vec<Package>)
    ensures
        r.deep_view().len() == packages.deep_view().len(),
        forall|k: int|
            0 <= k < packages.len() ==> #[trigger] r.deep_view()[k] == with_found_license(
                packages.deep_view()[k],
                identified_at(texts@, k),
                only_missing,
            ),
{
    let mut found: Vec<Option<(String, LicenseSource)>> = Vec::new();
    let mut k: usize = 0;
    while k < texts.len()
        invariant
            k <= texts.len(),
            found@.len() == k,
            forall|m: int| 0 <= m < k ==> #[trigger] found_view(found@[m]) == identified_at(texts@, m),
        decreases texts.len() - k,
    {
        let f = match identify_first(texts[k].as_slice()) {
            Some(l) => Some((l, LicenseSource::LicenseFile)),
            None => None,
        };
        found.push(f);
        k += 1;
    }
    let r = apply_found_licenses(packages, found.as_slice(), only_missing);
    assert forall|m: int| 0 <= m < packages.len() implies #[trigger] r.deep_view()[m]
        == with_found_license(packages.deep_view()[m], identified_at(texts@, m), only_missing) by {
        assert(r.deep_view()[m] == with_found_license(
            packages.deep_view()[m],
            found_at(found@, m),
            only_missing,
        ));
        if m < texts.len() {
            assert(found_view(found@[m]) == found_at(found@, m));
        }
    }
    r
}

/// `x` is one of `list`.
pub fn contains_chars(list: &Vec<Vec<char>>, x: &[char]) -> (b: bool)
    ensures
        b == text::views(list@).contains(x@),
{
    let ghost d = text::views(list@);
    let mut i: usize = 0;
    while i < list.len()
        invariant
            i <= list.len(),
            d == text::views(list@),
            forall|k: int| 0 <= k < i ==> d[k] != x@,
        decreases list.len() - i,
    {
        assert(d[i as int] == list@[i as int]@);
        if text::eq_chars(&list[i], x) {
            return true;
        }
        i += 1;
    }
    false
}

/// `p` marked direct when `names` holds its name.
pub open spec fn direct_if_named(p: PackageView, names: Seq<Seq<char>>) -> PackageView {
    if names.contains(p.name) {
        with_type(p, DependencyType::Direct)
    } else {
        p
    }
}

/// `packages` with those whose name `names` holds marked direct.
pub fn mark_named_direct(packages: &Vec<Package>, names: &Vec<Vec<char>>) -> (r: Vec<Package>)
    ensures
        r.deep_view() == packages.deep_view().map_values(
            |p: PackageView| direct_if_named(p, text::views(names@)),
        ),
{
    let ghost d = text::views(names@);
    let mut r: Vec<Package> = Vec::new();
    let mut k: usize = 0;
    while k < packages.len()
        invariant
            k <= packages.len(),
            d == text::views(names@),
            r.deep_view() == packages.deep_view().take(k as int).map_values(
                |p: PackageView| direct_if_named(p, d),
            ),
        decreases packages.len() - k,
    {
        let p = &packages[k];
        let name = text::to_chars(p.name.as_str());
        let mut found = false;
        let mut j: usize = 0;
        while j < names.len()
            invariant
                j <= names.len(),
                d == text::views(names@),
                name@ == p.name@,
                found == exists|m: int| 0 <= m < j && d[m] == name@,
            decreases names.len() - j,
        {
            assert(d[j as int] == names@[j as int]@);
            if text::eq_chars(&names[j], &name) {
                found = true;
            }
            j += 1;
            assert(found == exists|m: int| 0 <= m < j && d[m] == name@) by {
                if found && !(exists|m: int| 0 <= m < j - 1 && d[m] == name@) {
                    assert(d[j - 1] == name@);
                }
            }
        }
        assert(found == d.contains(name@)) by {
            if d.contains(name@) {
                let m = choose|m: int| 0 <= m < d.len() && d[m] == name@;
            }
        }
        let q = if found {
            retyped(p, DependencyType::Direct)
        } else {
            retyped(p, p.dependency_type)
        };
        push_package(&mut r, q);
        assert(packages.deep_view().take(k + 1) =~= packages.deep_view().take(k as int).push(
            p.deep_view(),
        ));
        k += 1;
    }
    assert(packages.deep_view().take(packages.len() as int) =~= packages.deep_view());
    r
}
} // verus!
