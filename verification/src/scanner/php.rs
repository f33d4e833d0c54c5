//! PHP: composer.lock and composer.json.
use vstd::prelude::*;

use crate::json::{self, JsonValue, json_document};
use crate::model::{DependencyType, Ecosystem, LicenseSource, Package, PackageView};
use crate::scanner::{direct_if_named, mark_named_direct, push_package};
use crate::text;

verus! {

/// The license of one composer.lock entry: an array of strings joined
/// with ` OR ` (none when it holds no string), or a plain string.
pub open spec fn composer_license(pkg: JsonValue) -> Option<Seq<char>> {
    match json::get(pkg, "license"@) {
        Some(JsonValue::Array(ls)) => {
            let items = json::strings(ls@);
            if items.len() == 0 {
                None
            } else {
                Some(text::join(items, " OR "@))
            }
        },
        _ => json::get_str(pkg, "license"@),
    }
}

/// The package one composer.lock entry describes, if it has a name.
pub open spec fn composer_package(pkg: JsonValue) -> Seq<PackageView> {
    match json::get_str(pkg, "name"@) {
        None => Seq::empty(),
        Some(name) => {
            let license = composer_license(pkg);
            seq![
                PackageView {
                    name,
                    version: match json::get_str(pkg, "version"@) {
                        Some(v) => v,
                        None => "0.0.0"@,
                    },
                    license,
                    license_source: if license is Some {
                        LicenseSource::Declared
                    } else {
                        LicenseSource::NotFound
                    },
                    ecosystem: Ecosystem::Php,
                    dependency_type: DependencyType::Transitive,
                },
            ]
        },
    }
}

pub open spec fn composer_packages(list: Seq<JsonValue>) -> Seq<PackageView>
    decreases list.len(),
{
    if list.len() == 0 {
        Seq::empty()
    } else {
        composer_packages(list.drop_last()) + composer_package(list.last())
    }
}

/// The entries of one top-level array of composer.lock.
pub open spec fn composer_section(v: JsonValue, key: Seq<char>) -> Seq<PackageView> {
    match json::get_array(v, key) {
        Some(list) => composer_packages(list),
        None => Seq::empty(),
    }
}

/// The packages of a composer.lock (runtime `packages`, then
/// `packages-dev`), or the JSON error message.
pub open spec fn composer_lock(raw: Seq<char>) -> Result<Seq<PackageView>, Seq<char>> {
    match json_document(raw) {
        Err(e) => Err(e),
        Ok(v) => Ok(composer_section(v, "packages"@) + composer_section(v, "packages-dev"@)),
    }
}

fn push_composer_package(pkg: &JsonValue, out: &mut Vec<Package>)
    ensures
        final(out).deep_view() == old(out).deep_view() + composer_package(*pkg),
{
    let name = match pkg.get_str("name") {
        None => {
            assert(old(out).deep_view() + Seq::<PackageView>::empty() =~= old(out).deep_view());
            return ;
        },
        Some(n) => n.clone(),
    };
    let version = match pkg.get_str("version") {
        Some(v) => v.clone(),
        None => String::from_str("0.0.0"),
    };
    let license: Option<String> = match pkg.get("license") {
        Some(JsonValue::Array(ls)) => {
            let items = json::collect_strings(ls);
            if items.len() == 0 {
                None
            } else {
                let joined = crate::scanner::ruby::join_chars(&items, " OR ");
                Some(text::from_chars(&joined))
            }
        },
        _ => match pkg.get_str("license") {
            Some(l) => Some(l.clone()),
            None => None,
        },
    };
    let license_source = if license.is_some() {
        LicenseSource::Declared
    } else {
        LicenseSource::NotFound
    };
    let p = Package {
        name,
        version,
        license,
        license_source,
        ecosystem: Ecosystem::Php,
        dependency_type: DependencyType::Transitive,
    };
    let ghost before = out.deep_view();
    push_package(out, p);
    assert(out.deep_view() =~= before + composer_package(*pkg));
}

fn push_section(value: &JsonValue, key: &str, out: &mut Vec<Package>)
    ensures
        final(out).deep_view() == old(out).deep_view() + composer_section(*value, key@),
{
    let list = match value.get_array(key) {
        Some(l) => l,
        None => {
            assert(old(out).deep_view() + Seq::<PackageView>::empty() =~= old(out).deep_view());
            return ;
        },
    };
    let ghost start = out.deep_view();
    let mut i: usize = 0;
    assert(list@.take(0) =~= Seq::<JsonValue>::empty());
    assert(start + Seq::<PackageView>::empty() =~= start);
    while i < list.len()
        invariant
            i <= list.len(),
            out.deep_view() == start + composer_packages(list@.take(i as int)),
        decreases list.len() - i,
    {
        assert(list@.take(i + 1).drop_last() =~= list@.take(i as int));
        let ghost before = out.deep_view();
        push_composer_package(&list[i], out);
        assert(out.deep_view() =~= start + composer_packages(list@.take(i + 1)));
        i += 1;
    }
    assert(list@.take(list.len() as int) =~= list@);
}

pub fn parse_lockfile(raw: &str) -> (r: Result<Vec<Package>, String>)
    ensures
        match r {
            Ok(p) => composer_lock(raw@) == Ok::<Seq<PackageView>, Seq<char>>(p.deep_view()),
            Err(e) => composer_lock(raw@) == Err::<Seq<PackageView>, Seq<char>>(e@),
        },
{
    let value = match json::parse_json(raw) {
        Ok(v) => v,
        Err(e) => return Err(e),
    };
    let mut packages: Vec<Package> = Vec::new();
    assert(packages.deep_view() =~= Seq::<PackageView>::empty());
    push_section(&value, "packages", &mut packages);
    push_section(&value, "packages-dev", &mut packages);
    assert(packages.deep_view() =~= composer_section(value, "packages"@) + composer_section(
        value,
        "packages-dev"@,
    ));
    Ok(packages)
}

/// The member names of an object.
pub open spec fn member_names(entries: Seq<(String, JsonValue)>) -> Seq<Seq<char>> {
    entries.map_values(|e: (String, JsonValue)| e.0@)
}

/// The names of the object `key` of `v`, if it is one.
pub open spec fn object_keys(v: JsonValue, key: Seq<char>) -> Seq<Seq<char>> {
    match json::get(v, key) {
        Some(JsonValue::Object(m)) => member_names(m@),
        _ => Seq::empty(),
    }
}

/// The packages a composer.json requires directly (`require` and
/// `require-dev`); none when it is not valid JSON.
pub open spec fn composer_direct(raw: Seq<char>) -> Seq<Seq<char>> {
    match json_document(raw) {
        Err(_) => Seq::empty(),
        Ok(v) => object_keys(v, "require"@) + object_keys(v, "require-dev"@),
    }
}

fn push_keys(value: &JsonValue, key: &str, out: &mut Vec<Vec<char>>)
    ensures
        text::views(final(out)@) == text::views(old(out)@) + object_keys(*value, key@),
{
    match value.get(key) {
        Some(JsonValue::Object(m)) => {
            let ghost start = text::views(out@);
            let mut i: usize = 0;
            assert(start + member_names(m@.take(0)) =~= start);
            while i < m.len()
                invariant
                    i <= m.len(),
                    text::views(out@) == start + member_names(m@.take(i as int)),
                decreases m.len() - i,
            {
                let ghost before = text::views(out@);
                out.push(text::to_chars(m[i].0.as_str()));
                assert(member_names(m@.take(i + 1)) =~= member_names(m@.take(i as int)).push(
                    m@[i as int].0@,
                ));
                assert(text::views(out@) =~= before.push(m@[i as int].0@));
                i += 1;
            }
            assert(m@.take(m.len() as int) =~= m@);
        },
        _ => {
            assert(text::views(old(out)@) + Seq::<Seq<char>>::empty() =~= text::views(old(out)@));
        },
    }
}

/// Names required directly by a composer.json (`require` and
/// `require-dev`).
pub fn composer_direct_dependencies(raw: &str) -> (r: Vec<Vec<char>>)
    ensures
        text::views(r@) == composer_direct(raw@),
{
    let mut out: Vec<Vec<char>> = Vec::new();
    assert(text::views(out@) =~= Seq::<Seq<char>>::empty());
    let value = match json::parse_json(raw) {
        Ok(v) => v,
        Err(_) => return out,
    };
    push_keys(&value, "require", &mut out);
    push_keys(&value, "require-dev", &mut out);
    out
}


/// The PHP dependencies of a project: the packages of its composer.lock
/// `lock`, those that `composer_json` (the text of composer.json, where
/// there is one) requires marked direct; or the composer.lock JSON error.
pub fn scan(lock: &str, composer_json: Option<&str>) -> (r: Result<Vec<Package>, String>)
    ensures
        match r {
            Ok(p) => match composer_lock(lock@) {
                Ok(ps) => p.deep_view() == ps.map_values(
                    |q: PackageView| direct_if_named(
                        q,
                        match composer_json {
                            Some(t) => composer_direct(t@),
                            None => Seq::empty(),
                        },
                    ),
                ),
                Err(_) => false,
            },
            Err(e) => composer_lock(lock@) == Err::<Seq<PackageView>, Seq<char>>(e@),
        },
{
    let direct: Vec<Vec<char>> = match composer_json {
        Some(t) => composer_direct_dependencies(t),
        None => {
            let d: Vec<Vec<char>> = Vec::new();
            assert(text::views(d@) =~= Seq::<Seq<char>>::empty());
            d
        },
    };
    let packages = match parse_lockfile(lock) {
        Ok(p) => p,
        Err(e) => return Err(e),
    };
    Ok(mark_named_direct(&packages, &direct))
}

} // verus!
