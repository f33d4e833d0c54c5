//! C / C++: vcpkg manifests and conanfiles.
use vstd::prelude::*;

use crate::json::{self, JsonValue, json_document};
use crate::model::{DependencyType, Ecosystem, Package, PackageView};
use crate::scanner::{bare_package, new_package, push_package};
use crate::text;

verus! {

/// One line of a conanfile.txt read inside (`in_requires`) or outside a
/// requirements section: the state after it and the package it requires.
pub open spec fn conan_line(line: Seq<char>, in_requires: bool) -> (bool, Seq<PackageView>) {
    let t = text::trim(line);
    if text::starts_with(t, "["@) {
        (t == "[requires]"@ || t == "[tool_requires]"@, Seq::empty())
    } else if !in_requires || t.len() == 0 || text::starts_with(t, "#"@) {
        (in_requires, Seq::empty())
    } else {
        match text::split_once(text::split(t, '@')[0], "/"@) {
            None => (in_requires, Seq::empty()),
            Some((name, version)) => (
                in_requires,
                seq![
                    bare_package(
                        text::trim(name),
                        text::trim(version),
                        Ecosystem::Cpp,
                        DependencyType::Direct,
                    ),
                ],
            ),
        }
    }
}

pub open spec fn conan_lines(ls: Seq<Seq<char>>, in_requires: bool) -> Seq<PackageView>
    decreases ls.len(),
{
    if ls.len() == 0 {
        Seq::empty()
    } else {
        let (next, found) = conan_line(ls[0], in_requires);
        found + conan_lines(ls.drop_first(), next)
    }
}

/// The `name/version[@user/channel]` entries of the `[requires]` and
/// `[tool_requires]` sections of a conanfile.txt, in order.
pub open spec fn conanfile_packages(raw: Seq<char>) -> Seq<PackageView> {
    conan_lines(text::lines(raw), false)
}

fn read_conan_line(line: &[char], in_requires: bool, out: &mut Vec<Package>) -> (next: bool)
    ensures
        next == conan_line(line@, in_requires).0,
        final(out).deep_view() == old(out).deep_view() + conan_line(line@, in_requires).1,
{
    let t = text::trim_chars(line);
    assert(old(out).deep_view() + Seq::<PackageView>::empty() =~= old(out).deep_view());
    if text::starts_with_lit(&t, "[") {
        return text::eq_lit(&t, "[requires]") || text::eq_lit(&t, "[tool_requires]");
    }
    if !in_requires || t.len() == 0 || text::starts_with_lit(&t, "#") {
        return in_requires;
    }
    let pieces = text::split_char(&t, '@');
    let reference = &pieces[0];
    match text::split_once_lit(reference, "/") {
        None => {},
        Some((name, version)) => {
            let n = text::trim_chars(&name);
            let v = text::trim_chars(&version);
            let p = new_package(&n, &v, Ecosystem::Cpp, DependencyType::Direct);
            let ghost before = out.deep_view();
            push_package(out, p);
            assert(out.deep_view() =~= before + seq![p.deep_view()]);
        },
    }
    in_requires
}

/// `[requires]` entries of a conanfile.txt: `name/version[@user/channel]`.
pub fn parse_conanfile(raw: &str) -> (packages: Vec<Package>)
    ensures
        packages.deep_view() == conanfile_packages(raw@),
{
    let chars = text::to_chars(raw);
    let lines = text::split_lines(&chars);
    let ghost ls = text::views(lines@);
    let mut packages: Vec<Package> = Vec::new();
    let mut in_requires = false;
    let mut i: usize = 0;
    assert(ls.skip(0) =~= ls);
    assert(packages.deep_view() =~= Seq::<PackageView>::empty());
    while i < lines.len()
        invariant
            i <= lines.len(),
            ls == text::views(lines@),
            ls == text::lines(raw@),
            conanfile_packages(raw@) == packages.deep_view() + conan_lines(
                ls.skip(i as int),
                in_requires,
            ),
        decreases lines.len() - i,
    {
        let ghost tail = ls.skip(i as int);
        assert(tail.drop_first() =~= ls.skip(i + 1));
        in_requires = read_conan_line(&lines[i], in_requires, &mut packages);
        i += 1;
    }
    assert(ls.skip(lines.len() as int) =~= Seq::<Seq<char>>::empty());
    assert(packages.deep_view() + Seq::<PackageView>::empty() =~= packages.deep_view());
    packages
}


/// The dependency one entry of a vcpkg manifest's `dependencies` array
/// names: a plain string, or an object with a `name` (and maybe a
/// `version>=` constraint). Versions default to `unpinned`.
pub open spec fn vcpkg_dependency(dep: JsonValue) -> Seq<PackageView> {
    match dep {
        JsonValue::Str(s) => seq![
            bare_package(s@, "unpinned"@, Ecosystem::Cpp, DependencyType::Direct),
        ],
        JsonValue::Object(m) => match json::get_str(dep, "name"@) {
            None => Seq::empty(),
            Some(name) => seq![
                bare_package(
                    name,
                    match json::get_str(dep, "version>="@) {
                        Some(v) => v,
                        None => "unpinned"@,
                    },
                    Ecosystem::Cpp,
                    DependencyType::Direct,
                ),
            ],
        },
        _ => Seq::empty(),
    }
}

pub open spec fn vcpkg_dependencies(deps: Seq<JsonValue>) -> Seq<PackageView>
    decreases deps.len(),
{
    if deps.len() == 0 {
        Seq::empty()
    } else {
        vcpkg_dependencies(deps.drop_last()) + vcpkg_dependency(deps.last())
    }
}

/// The dependencies of a vcpkg manifest, or the message for invalid JSON.
pub open spec fn vcpkg_manifest(raw: Seq<char>) -> Result<Seq<PackageView>, Seq<char>> {
    match json_document(raw) {
        Err(e) => Err("invalid vcpkg.json: "@ + e),
        Ok(v) => Ok(
            match json::get_array(v, "dependencies"@) {
                Some(deps) => vcpkg_dependencies(deps),
                None => Seq::empty(),
            },
        ),
    }
}

/// Dependencies from a vcpkg manifest: either plain strings or objects with
/// a `name` field. Versions are rarely pinned in the manifest; use the
/// `version>=` constraint when present, otherwise mark as unpinned.
pub fn parse_vcpkg_manifest(raw: &str) -> (r: Result<Vec<Package>, String>)
    ensures
        match r {
            Ok(p) => vcpkg_manifest(raw@) == Ok::<Seq<PackageView>, Seq<char>>(p.deep_view()),
            Err(e) => vcpkg_manifest(raw@) == Err::<Seq<PackageView>, Seq<char>>(e@),
        },
{
    let value = match json::parse_json(raw) {
        Ok(v) => v,
        Err(e) => {
            let mut msg = String::from_str("invalid vcpkg.json: ");
            msg.append(e.as_str());
            return Err(msg);
        },
    };
    let mut packages: Vec<Package> = Vec::new();
    assert(packages.deep_view() =~= Seq::<PackageView>::empty());
    let deps = match value.get_array("dependencies") {
        Some(d) => d,
        None => return Ok(packages),
    };
    let mut i: usize = 0;
    assert(deps@.take(0) =~= Seq::<JsonValue>::empty());
    while i < deps.len()
        invariant
            i <= deps.len(),
            packages.deep_view() == vcpkg_dependencies(deps@.take(i as int)),
        decreases deps.len() - i,
    {
        assert(deps@.take(i + 1).drop_last() =~= deps@.take(i as int));
        let ghost before = packages.deep_view();
        let dep = &deps[i];
        match dep {
            JsonValue::Str(s) => {
                let name = text::to_chars(s.as_str());
                let version = text::to_chars("unpinned");
                let p = new_package(&name, &version, Ecosystem::Cpp, DependencyType::Direct);
                push_package(&mut packages, p);
                assert(packages.deep_view() =~= before + vcpkg_dependency(*dep));
            },
            JsonValue::Object(_) => {
                match dep.get_str("name") {
                    None => {
                        assert(before + Seq::<PackageView>::empty() =~= before);
                    },
                    Some(n) => {
                        let name = text::to_chars(n.as_str());
                        let version = match dep.get_str("version>=") {
                            Some(v) => text::to_chars(v.as_str()),
                            None => text::to_chars("unpinned"),
                        };
                        let p = new_package(&name, &version, Ecosystem::Cpp, DependencyType::Direct);
                        push_package(&mut packages, p);
                        assert(packages.deep_view() =~= before + vcpkg_dependency(*dep));
                    },
                }
            },
            _ => {
                assert(before + Seq::<PackageView>::empty() =~= before);
            },
        }
        i += 1;
    }
    assert(deps@.take(deps.len() as int) =~= deps@);
    Ok(packages)
}
} // verus!
