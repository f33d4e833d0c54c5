//! npm: `package.json` manifests under `node_modules`.
use vstd::prelude::*;

use crate::json::{self, JsonValue, json_document};
use crate::model::{opt_view, DependencyType, Ecosystem, LicenseSource, Package, PackageView};
use crate::order;
use crate::scanner::{first_identified, identify_first, push_package};
use crate::text;

verus! {

/// The `type` strings of the legacy `licenses` array whose trimmed text is
/// not empty, untrimmed, in order.
pub open spec fn license_types(items: Seq<JsonValue>) -> Seq<Seq<char>>
    decreases items.len(),
{
    if items.len() == 0 {
        Seq::empty()
    } else {
        let rest = license_types(items.drop_last());
        match json::get_str(items.last(), "type"@) {
            Some(t) => if text::trim(t).len() > 0 {
                rest.push(t)
            } else {
                rest
            },
            None => rest,
        }
    }
}

/// The license a package.json declares: the modern string form, the
/// deprecated `{ "type": ... }` object form, or the legacy `licenses`
/// array (alternatives joined with ` OR `).
pub open spec fn declared_license(v: JsonValue) -> Option<Seq<char>> {
    let modern = match json::get(v, "license"@) {
        Some(JsonValue::Str(s)) => if text::trim(s@).len() > 0 {
            Some(text::trim(s@))
        } else {
            None
        },
        Some(JsonValue::Object(m)) => match json::get_str(JsonValue::Object(m), "type"@) {
            Some(t) => if text::trim(t).len() > 0 {
                Some(text::trim(t))
            } else {
                None
            },
            None => None,
        },
        _ => None,
    };
    match modern {
        Some(l) => Some(l),
        None => match json::get_array(v, "licenses"@) {
            Some(items) => {
                let types = license_types(items);
                if types.len() > 0 {
                    Some(text::join(types, " OR "@))
                } else {
                    None
                }
            },
            None => None,
        },
    }
}

/// The package a package.json describes, when it is valid JSON with a
/// non-blank `name`. The version defaults to `0.0.0`.
pub open spec fn manifest_package(raw: Seq<char>) -> Option<PackageView> {
    match json_document(raw) {
        Err(_) => None,
        Ok(v) => match json::get_str(v, "name"@) {
            None => None,
            Some(n) => if text::trim(n).len() == 0 {
                None
            } else {
                let license = declared_license(v);
                Some(
                    PackageView {
                        name: text::trim(n),
                        version: match json::get_str(v, "version"@) {
                            Some(x) => x,
                            None => "0.0.0"@,
                        },
                        license,
                        license_source: if license is Some {
                            LicenseSource::Declared
                        } else {
                            LicenseSource::NotFound
                        },
                        ecosystem: Ecosystem::Npm,
                        dependency_type: DependencyType::Transitive,
                    },
                )
            },
        },
    }
}

fn trimmed_string(s: &String) -> (r: Vec<char>)
    ensures
        r@ == text::trim(s@),
{
    let c = text::to_chars(s.as_str());
    text::trim_chars(&c)
}

/// Extract the license declaration, covering the modern string form, the
/// deprecated `{ "type": ... }` object form, and the legacy `licenses` array.
fn extract_license(value: &JsonValue) -> (r: Option<Vec<char>>)
    ensures
        crate::scanner::dart::opt_chars(r) == declared_license(*value),
{
    match value.get("license") {
        Some(JsonValue::Str(s)) => {
            let t = trimmed_string(s);
            if t.len() > 0 {
                return Some(t);
            }
        },
        Some(JsonValue::Object(m)) => {
            let obj = value.get("license").unwrap();
            match obj.get_str("type") {
                Some(t) => {
                    let tt = trimmed_string(t);
                    if tt.len() > 0 {
                        return Some(tt);
                    }
                },
                None => {},
            }
        },
        _ => {},
    }
    let items = match value.get_array("licenses") {
        Some(a) => a,
        None => return None,
    };
    let mut types: Vec<Vec<char>> = Vec::new();
    let mut i: usize = 0;
    assert(items@.take(0) =~= Seq::<JsonValue>::empty());
    while i < items.len()
        invariant
            i <= items.len(),
            text::views(types@) == license_types(items@.take(i as int)),
        decreases items.len() - i,
    {
        assert(items@.take(i + 1).drop_last() =~= items@.take(i as int));
        match items[i].get_str("type") {
            Some(t) => {
                let tt = trimmed_string(t);
                if tt.len() > 0 {
                    let ghost before = text::views(types@);
                    types.push(text::to_chars(t.as_str()));
                    assert(text::views(types@) =~= before.push(t@));
                }
            },
            None => {},
        }
        i += 1;
    }
    assert(items@.take(items.len() as int) =~= items@);
    if types.len() > 0 {
        Some(crate::scanner::ruby::join_chars(&types, " OR "))
    } else {
        None
    }
}

/// Parse one `package.json`. Returns `None` when the JSON is invalid or has
/// no usable `name` field.
pub fn parse_manifest(raw: &str) -> (r: Option<Package>)
    ensures
        match r {
            Some(p) => manifest_package(raw@) == Some(p.deep_view()),
            None => manifest_package(raw@) is None,
        },
{
    let value = match json::parse_json(raw) {
        Ok(v) => v,
        Err(_) => return None,
    };
    let name_raw = match value.get_str("name") {
        Some(n) => n,
        None => return None,
    };
    let name = trimmed_string(name_raw);
    if name.len() == 0 {
        return None;
    }
    let version = match value.get_str("version") {
        Some(v) => v.clone(),
        None => String::from_str("0.0.0"),
    };
    let license = extract_license(&value);
    let license_source = if license.is_some() {
        LicenseSource::Declared
    } else {
        LicenseSource::NotFound
    };
    let license_string = match license {
        Some(l) => Some(text::from_chars(&l)),
        None => None,
    };
    let p = Package {
        name: text::from_chars(&name),
        version,
        license: license_string,
        license_source,
        ecosystem: Ecosystem::Npm,
        dependency_type: DependencyType::Transitive,
    };
    assert(p.deep_view() =~= manifest_package(raw@).unwrap());
    Some(p)
}

/// The declared license is absent or a placeholder like
/// `SEE LICENSE IN LICENSE.txt`.
pub open spec fn needs_fallback(license: Option<Seq<char>>) -> bool {
    match license {
        None => true,
        Some(v) => text::starts_with(text::uppercase(text::trim(v)), "SEE LICENSE"@),
    }
}

/// `true` when the declared license is absent or is a placeholder like
/// `SEE LICENSE IN LICENSE.txt`, in which case the actual LICENSE file is
/// worth inspecting.
pub fn needs_license_file_fallback(license: Option<&str>) -> (b: bool)
    ensures
        b == needs_fallback(crate::license::classifier::opt_str_view(license)),
{
    match license {
        None => true,
        Some(value) => {
            let c = text::to_chars(value);
            let t = text::trim_chars(&c);
            let u = text::to_uppercase(&t);
            text::starts_with_lit(&u, "SEE LICENSE")
        },
    }
}

/// `p` with the license identified from its LICENSE file.
pub open spec fn with_file_license(p: PackageView, license: Seq<char>) -> PackageView {
    PackageView {
        name: p.name,
        version: p.version,
        license: Some(license),
        license_source: LicenseSource::LicenseFile,
        ecosystem: p.ecosystem,
        dependency_type: p.dependency_type,
    }
}

/// `pkg` with the license identified from its LICENSE file.
pub fn with_license_file(pkg: &Package, license: &str) -> (r: Package)
    ensures
        r.deep_view() == with_file_license(pkg.deep_view(), license@),
{
    Package {
        name: pkg.name.clone(),
        version: pkg.version.clone(),
        license: Some(String::from_str(license)),
        license_source: LicenseSource::LicenseFile,
        ecosystem: pkg.ecosystem,
        dependency_type: pkg.dependency_type,
    }
}

/// The packages found while walking `node_modules`, in walk order,
/// de-duplicated by `name@version` (the first one found stays) and sorted
/// by name, then version.
pub fn collect_packages(found: Vec<Package>) -> (r: Vec<Package>)
    ensures
        r.deep_view() == order::sorted_packages(order::first_occurrences(found.deep_view())),
{
    let unique = order::dedup_first(found);
    order::sort_packages(unique)
}


/// The package that one directory of `node_modules` contributes: its
/// manifest's package, with the license identified from the first
/// recognised of its license files (`texts`, in probing order) when the
/// manifest declares none or only a `SEE LICENSE` placeholder.
pub open spec fn visited_package(manifest: Seq<char>, texts: Seq<Option<Seq<char>>>) -> Option<
    PackageView,
> {
    match manifest_package(manifest) {
        None => None,
        Some(p) => Some(
            if needs_fallback(p.license) {
                match first_identified(texts) {
                    Some(l) => with_file_license(p, l),
                    None => p,
                }
            } else {
                p
            },
        ),
    }
}

/// The packages of the visited directories, in walk order.
pub open spec fn visited_packages(v: Seq<(Seq<char>, Seq<Option<Seq<char>>>)>) -> Seq<PackageView>
    decreases v.len(),
{
    if v.len() == 0 {
        Seq::empty()
    } else {
        let rest = visited_packages(v.drop_last());
        match visited_package(v.last().0, v.last().1) {
            Some(p) => rest.push(p),
            None => rest,
        }
    }
}

/// The value of one visited directory: its manifest text and the texts of
/// its license files.
pub open spec fn visit_view(e: (String, Vec<Option<String>>)) -> (Seq<char>, Seq<Option<Seq<char>>>) {
    (e.0@, e.1@.map_values(|o: Option<String>| opt_view(o)))
}

/// The packages of a `node_modules` tree: `visited[k]` holds, in walk
/// order, the `package.json` text of a package directory and the texts of
/// its license files in probing order (`None` for a file that is missing
/// or unreadable). Packages are de-duplicated by `name@version` (the first
/// one found stays) and sorted by name, then version.
pub fn scan(visited: &[(String, Vec<Option<String>>)]) -> (r: Vec<Package>)
    ensures
        r.deep_view() == order::sorted_packages(
            order::first_occurrences(
                visited_packages(
                    visited@.map_values(|e: (String, Vec<Option<String>>)| visit_view(e)),
                ),
            ),
        ),
{
    let ghost vv = visited@.map_values(|e: (String, Vec<Option<String>>)| visit_view(e));
    let mut found: Vec<Package> = Vec::new();
    let mut i: usize = 0;
    assert(vv.take(0) =~= Seq::<(Seq<char>, Seq<Option<Seq<char>>>)>::empty());
    assert(found.deep_view() =~= Seq::<PackageView>::empty());
    while i < visited.len()
        invariant
            i <= visited.len(),
            vv == visited@.map_values(|e: (String, Vec<Option<String>>)| visit_view(e)),
            found.deep_view() == visited_packages(vv.take(i as int)),
        decreases visited.len() - i,
    {
        assert(vv.take(i + 1).drop_last() =~= vv.take(i as int));
        assert(vv.take(i + 1).last() == visit_view(visited@[i as int]));
        let (manifest, texts) = &visited[i];
        match parse_manifest(manifest.as_str()) {
            Some(p) => {
                let fallback = match &p.license {
                    Some(l) => needs_license_file_fallback(Some(l.as_str())),
                    None => needs_license_file_fallback(None),
                };
                let q = if fallback {
                    match identify_first(texts.as_slice()) {
                        Some(l) => with_license_file(&p, l.as_str()),
                        None => p,
                    }
                } else {
                    p
                };
                push_package(&mut found, q);
            },
            None => {},
        }
        i += 1;
    }
    assert(vv.take(visited.len() as int) =~= vv);
    collect_packages(found)
}


proof fn lemma_visited_members(v: Seq<(Seq<char>, Seq<Option<Seq<char>>>)>)
    ensures
        forall|i: int|
            0 <= i < visited_packages(v).len() ==> exists|k: int|
                0 <= k < v.len() && visited_package(v[k].0, v[k].1) == Some(
                    #[trigger] visited_packages(v)[i],
                ),
    decreases v.len(),
{
    if v.len() > 0 {
        let t = v.drop_last();
        let n = v.len() - 1;
        lemma_visited_members(t);
        let before = visited_packages(t);
        let all = visited_packages(v);
        assert forall|i: int| 0 <= i < all.len() implies exists|k: int|
            0 <= k < v.len() && visited_package(v[k].0, v[k].1) == Some(#[trigger] all[i]) by {
            if i < before.len() {
                assert(all[i] == before[i]);
                let k = choose|k: int|
                    0 <= k < t.len() && visited_package(t[k].0, t[k].1) == Some(before[i]);
                assert(v[k] == t[k]);
            } else {
                assert(v[n] == v.last());
            }
        }
    }
}

proof fn lemma_visited_covers(v: Seq<(Seq<char>, Seq<Option<Seq<char>>>)>)
    ensures
        forall|k: int|
            0 <= k < v.len() && (#[trigger] visited_package(v[k].0, v[k].1)) is Some
                ==> visited_packages(v).contains(visited_package(v[k].0, v[k].1)->Some_0),
    decreases v.len(),
{
    if v.len() > 0 {
        let t = v.drop_last();
        let n = v.len() - 1;
        lemma_visited_covers(t);
        let before = visited_packages(t);
        let all = visited_packages(v);
        assert forall|k: int|
            0 <= k < v.len() && (#[trigger] visited_package(v[k].0, v[k].1)) is Some
                implies all.contains(visited_package(v[k].0, v[k].1)->Some_0) by {
            let p = visited_package(v[k].0, v[k].1)->Some_0;
            if k < n {
                assert(v[k] == t[k]);
                assert(before.contains(p));
                let m = choose|m: int| 0 <= m < before.len() && before[m] == p;
                assert(all[m] == before[m]);
            } else {
                assert(v[n] == v.last());
                assert(all[all.len() - 1] == p);
            }
        }
    }
}

/// Every package an npm scan lists is what one visited directory
/// contributes: its manifest's package, with the license of its first
/// recognised license file (and the license-file source) when the
/// manifest declares none or only a `SEE LICENSE` placeholder and a file
/// is recognised, else as the manifest gives it. And every directory whose
/// manifest gives a package has that package's `name@version` listed.
pub proof fn each_npm_package_comes_from_a_directory(
    v: Seq<(Seq<char>, Seq<Option<Seq<char>>>)>,
)
    ensures
        ({
            let out = order::sorted_packages(order::first_occurrences(visited_packages(v)));
            &&& forall|i: int|
                0 <= i < out.len() ==> exists|k: int|
                    0 <= k < v.len() && visited_package(v[k].0, v[k].1) == Some(#[trigger] out[i])
            &&& forall|k: int|
                0 <= k < v.len() && (#[trigger] visited_package(v[k].0, v[k].1)) is Some
                    ==> order::has_key(
                    out,
                    order::dedup_key(visited_package(v[k].0, v[k].1)->Some_0),
                )
        }),
{
    broadcast use vstd::seq_lib::group_to_multiset_ensures;

    let s = visited_packages(v);
    let f = order::first_occurrences(s);
    let out = order::sorted_packages(f);
    lemma_visited_members(v);
    lemma_visited_covers(v);
    order::dedup_keeps_one_per_key(s);
    order::sorting_orders_packages(f);
    assert forall|i: int| 0 <= i < out.len() implies exists|k: int|
        0 <= k < v.len() && visited_package(v[k].0, v[k].1) == Some(#[trigger] out[i]) by {
        assert(out.contains(out[i]));
        assert(out.to_multiset().count(out[i]) > 0);
        assert(f.contains(out[i]));
        let j = choose|j: int| 0 <= j < f.len() && f[j] == out[i];
        assert(s.contains(f[j]));
        let m = choose|m: int| 0 <= m < s.len() && s[m] == f[j];
        assert(exists|k: int| 0 <= k < v.len() && visited_package(v[k].0, v[k].1) == Some(s[m]));
    }
    assert forall|k: int|
        0 <= k < v.len() && (#[trigger] visited_package(v[k].0, v[k].1)) is Some
            implies order::has_key(out, order::dedup_key(visited_package(v[k].0, v[k].1)->Some_0)) by {
        let p = visited_package(v[k].0, v[k].1)->Some_0;
        assert(s.contains(p));
        let m = choose|m: int| 0 <= m < s.len() && s[m] == p;
        assert(order::has_key(f, order::dedup_key(s[m])));
        let j = choose|j: int| 0 <= j < f.len() && order::dedup_key(#[trigger] f[j]) == order::dedup_key(p);
        assert(f.contains(f[j]));
        assert(f.to_multiset().count(f[j]) > 0);
        assert(out.contains(f[j]));
        let i = choose|i: int| 0 <= i < out.len() && out[i] == f[j];
        assert(order::dedup_key(out[i]) == order::dedup_key(p));
    }
}

} // verus!
