//! Rust: the JSON of `cargo metadata --format-version 1`.
//!
//! Running Cargo and reading license files is the caller's part. For a
//! package that declares no license, [`license_file_locations`] names the
//! manifest and the `license_file` entry; the caller hands the text it
//! found there back to [`parse_metadata_with_license_files`].
use vstd::prelude::*;

use crate::json::{self, JsonValue, json_document};
use crate::license::classifier::{identify_license_text, license_of_text};
use crate::model::{opt_view, DependencyType, Ecosystem, LicenseSource, Package, PackageView};
use crate::order::{is_sorted, sort_packages, sorted_packages, sorting_orders_packages};
use crate::scanner::{contains_chars, push_package};
use crate::text;

verus! {

/// The ids of the workspace members.
pub open spec fn workspace_members(v: JsonValue) -> Seq<Seq<char>> {
    match json::get_array(v, "workspace_members"@) {
        Some(a) => json::strings(a),
        None => Seq::empty(),
    }
}

/// The nodes of the resolved dependency graph.
pub open spec fn resolve_nodes(v: JsonValue) -> Seq<JsonValue> {
    match json::get(v, "resolve"@) {
        Some(r) => match json::get_array(r, "nodes"@) {
            Some(n) => n,
            None => Seq::empty(),
        },
        None => Seq::empty(),
    }
}

/// The dependencies of one node, when the node is a workspace member.
pub open spec fn node_direct_ids(node: JsonValue, members: Seq<Seq<char>>) -> Seq<Seq<char>> {
    match json::get_str(node, "id"@) {
        Some(id) => if members.contains(id) {
            match json::get_array(node, "dependencies"@) {
                Some(d) => json::strings(d),
                None => Seq::empty(),
            }
        } else {
            Seq::empty()
        },
        None => Seq::empty(),
    }
}

pub open spec fn nodes_direct_ids(nodes: Seq<JsonValue>, members: Seq<Seq<char>>) -> Seq<Seq<char>>
    decreases nodes.len(),
{
    if nodes.len() == 0 {
        Seq::empty()
    } else {
        nodes_direct_ids(nodes.drop_last(), members) + node_direct_ids(nodes.last(), members)
    }
}

/// The ids that a workspace member depends on directly.
pub open spec fn direct_ids(v: JsonValue) -> Seq<Seq<char>> {
    nodes_direct_ids(resolve_nodes(v), workspace_members(v))
}

/// The entries of the `packages` array.
pub open spec fn package_entries(v: JsonValue) -> Seq<JsonValue> {
    match json::get_array(v, "packages"@) {
        Some(a) => a,
        None => Seq::empty(),
    }
}

/// The `id` of an entry, empty when it has none.
pub open spec fn entry_id(pkg: JsonValue) -> Seq<char> {
    match json::get_str(pkg, "id"@) {
        Some(id) => id,
        None => Seq::empty(),
    }
}

/// The trimmed `license` of an entry, when it is a non-empty string.
pub open spec fn declared_license(pkg: JsonValue) -> Option<Seq<char>> {
    match json::get_str(pkg, "license"@) {
        Some(l) => if text::trim(l).len() > 0 {
            Some(text::trim(l))
        } else {
            None
        },
        None => None,
    }
}

/// The entry is reported and declares no license, so its license file is
/// consulted.
pub open spec fn needs_license_file(pkg: JsonValue, members: Seq<Seq<char>>) -> bool {
    &&& !members.contains(entry_id(pkg))
    &&& json::get_str(pkg, "name"@) is Some
    &&& declared_license(pkg) is None
}

/// Where the license file of an entry is named: its `manifest_path` and its
/// `license_file`, for an entry that needs one and names both.
pub open spec fn license_file_location(pkg: JsonValue, members: Seq<Seq<char>>) -> Option<
    (Seq<char>, Seq<char>),
> {
    if needs_license_file(pkg, members) {
        match (json::get_str(pkg, "manifest_path"@), json::get_str(pkg, "license_file"@)) {
            (Some(m), Some(f)) => Some((m, f)),
            _ => None,
        }
    } else {
        None
    }
}

/// The locations for all entries of `packages`, in order, or the error.
pub open spec fn metadata_locations(raw: Seq<char>) -> Result<
    Seq<Option<(Seq<char>, Seq<char>)>>,
    Seq<char>,
> {
    match json_document(raw) {
        Err(e) => Err("invalid cargo metadata JSON: "@ + e),
        Ok(v) => Ok(
            package_entries(v).map_values(
                |pkg: JsonValue| license_file_location(pkg, workspace_members(v)),
            ),
        ),
    }
}

/// The license identified in the license file text given for entry `k`.
pub open spec fn file_license(texts: Seq<Option<Seq<char>>>, k: int) -> Option<Seq<char>> {
    if 0 <= k < texts.len() {
        match texts[k] {
            Some(t) => license_of_text(t),
            None => None,
        }
    } else {
        None
    }
}

/// The package that entry `k` of `packages` describes: none for a
/// workspace member or an entry without a name.
pub open spec fn metadata_entry(
    pkg: JsonValue,
    k: int,
    texts: Seq<Option<Seq<char>>>,
    members: Seq<Seq<char>>,
    direct: Seq<Seq<char>>,
) -> Seq<PackageView> {
    let id = entry_id(pkg);
    if members.contains(id) {
        Seq::empty()
    } else {
        match json::get_str(pkg, "name"@) {
            None => Seq::empty(),
            Some(name) => {
                let declared = declared_license(pkg);
                let license = if declared is Some {
                    declared
                } else {
                    file_license(texts, k)
                };
                seq![
                    PackageView {
                        name,
                        version: match json::get_str(pkg, "version"@) {
                            Some(v) => v,
                            None => "0.0.0"@,
                        },
                        license,
                        license_source: if declared is Some {
                            LicenseSource::Declared
                        } else if license is Some {
                            LicenseSource::LicenseFile
                        } else {
                            LicenseSource::NotFound
                        },
                        ecosystem: Ecosystem::Cargo,
                        dependency_type: if direct.contains(id) {
                            DependencyType::Direct
                        } else {
                            DependencyType::Transitive
                        },
                    },
                ]
            },
        }
    }
}

pub open spec fn metadata_entries(
    list: Seq<JsonValue>,
    texts: Seq<Option<Seq<char>>>,
    members: Seq<Seq<char>>,
    direct: Seq<Seq<char>>,
) -> Seq<PackageView>
    decreases list.len(),
{
    if list.len() == 0 {
        Seq::empty()
    } else {
        metadata_entries(list.drop_last(), texts, members, direct) + metadata_entry(
            list.last(),
            list.len() - 1,
            texts,
            members,
            direct,
        )
    }
}

/// The third-party packages that the metadata `raw` lists, sorted by name
/// and version, with `texts[k]` the license file text found for entry `k`
/// of `packages`; or the error.
pub open spec fn cargo_metadata(raw: Seq<char>, texts: Seq<Option<Seq<char>>>) -> Result<
    Seq<PackageView>,
    Seq<char>,
> {
    match json_document(raw) {
        Err(e) => Err("invalid cargo metadata JSON: "@ + e),
        Ok(v) => Ok(
            sorted_packages(
                metadata_entries(package_entries(v), texts, workspace_members(v), direct_ids(v)),
            ),
        ),
    }
}

/// The views of optional strings.
pub open spec fn opt_views(s: Seq<Option<String>>) -> Seq<Option<Seq<char>>> {
    s.map_values(|o: Option<String>| opt_view(o))
}

fn invalid_json(e: String) -> (r: String)
    ensures
        r@ == "invalid cargo metadata JSON: "@ + e@,
{
    let mut r = String::from_str("invalid cargo metadata JSON: ");
    r.append(e.as_str());
    r
}

fn members_exec(v: &JsonValue) -> (r: Vec<Vec<char>>)
    ensures
        text::views(r@) == workspace_members(*v),
{
    match v.get_array("workspace_members") {
        Some(a) => json::collect_strings(a),
        None => {
            let r: Vec<Vec<char>> = Vec::new();
            assert(text::views(r@) =~= Seq::<Seq<char>>::empty());
            r
        },
    }
}

fn push_node_direct_ids(node: &JsonValue, members: &Vec<Vec<char>>, out: &mut Vec<Vec<char>>)
    ensures
        text::views(final(out)@) == text::views(old(out)@) + node_direct_ids(
            *node,
            text::views(members@),
        ),
{
    let ghost before = text::views(out@);
    let mut found: Vec<Vec<char>> = Vec::new();
    match node.get_str("id") {
        Some(id) => {
            let idc = text::to_chars(id.as_str());
            if contains_chars(members, &idc) {
                match node.get_array("dependencies") {
                    Some(d) => {
                        found = json::collect_strings(d);
                    },
                    None => {},
                }
            }
        },
        None => {},
    }
    assert(text::views(found@) == node_direct_ids(*node, text::views(members@)));
    let mut i: usize = 0;
    while i < found.len()
        invariant
            i <= found.len(),
            text::views(out@) == before + text::views(found@).take(i as int),
        decreases found.len() - i,
    {
        let x = text::copy(&found[i]);
        let ghost o = out@;
        out.push(x);
        assert(text::views(out@) =~= text::views(o).push(found@[i as int]@));
        assert(text::views(found@).take(i + 1) =~= text::views(found@).take(i as int).push(
            found@[i as int]@,
        ));
        assert(text::views(out@) =~= before + text::views(found@).take(i + 1));
        i += 1;
    }
    assert(text::views(found@).take(found.len() as int) =~= text::views(found@));
}

fn direct_ids_exec(v: &JsonValue, members: &Vec<Vec<char>>) -> (r: Vec<Vec<char>>)
    requires
        text::views(members@) == workspace_members(*v),
    ensures
        text::views(r@) == direct_ids(*v),
{
    let mut r: Vec<Vec<char>> = Vec::new();
    assert(text::views(r@) =~= Seq::<Seq<char>>::empty());
    let nodes = match v.get("resolve") {
        Some(res) => match res.get_array("nodes") {
            Some(n) => n,
            None => {
                return r;
            },
        },
        None => {
            return r;
        },
    };
    let ghost ns = nodes@;
    assert(ns == resolve_nodes(*v));
    let mut i: usize = 0;
    assert(ns.take(0) =~= Seq::<JsonValue>::empty());
    while i < nodes.len()
        invariant
            i <= nodes.len(),
            ns == nodes@,
            text::views(r@) == nodes_direct_ids(ns.take(i as int), text::views(members@)),
        decreases nodes.len() - i,
    {
        assert(ns.take(i + 1).drop_last() =~= ns.take(i as int));
        push_node_direct_ids(&nodes[i], members, &mut r);
        i += 1;
    }
    assert(ns.take(nodes.len() as int) =~= ns);
    r
}

fn declared_license_exec(pkg: &JsonValue) -> (r: Option<String>)
    ensures
        opt_view(r) == declared_license(*pkg),
{
    match pkg.get_str("license") {
        Some(l) => {
            let t = text::trim_chars(&text::to_chars(l.as_str()));
            if t.len() > 0 {
                Some(text::from_chars(&t))
            } else {
                None
            }
        },
        None => None,
    }
}

fn push_metadata_entry(
    pkg: &JsonValue,
    k: usize,
    texts: &[Option<String>],
    members: &Vec<Vec<char>>,
    direct: &Vec<Vec<char>>,
    out: &mut Vec<Package>,
)
    ensures
        final(out).deep_view() == old(out).deep_view() + metadata_entry(
            *pkg,
            k as int,
            opt_views(texts@),
            text::views(members@),
            text::views(direct@),
        ),
{
    let id: Vec<char> = match pkg.get_str("id") {
        Some(s) => text::to_chars(s.as_str()),
        None => Vec::new(),
    };
    assert(id@ == entry_id(*pkg));
    if contains_chars(members, &id) {
        assert(old(out).deep_view() + Seq::<PackageView>::empty() =~= old(out).deep_view());
        return ;
    }
    let name = match pkg.get_str("name") {
        None => {
            assert(old(out).deep_view() + Seq::<PackageView>::empty() =~= old(out).deep_view());
            return ;
        },
        Some(n) => n.clone(),
    };
    let version = match pkg.get_str("version") {
        Some(v) => v.clone(),
        None => String::from_str("0.0.0"),
    };
    let declared = declared_license_exec(pkg);
    let ghost tv = opt_views(texts@);
    let (license, license_source) = if declared.is_some() {
        (declared, LicenseSource::Declared)
    } else {
        let found = if k < texts.len() {
            assert(tv[k as int] == opt_view(texts@[k as int]));
            match &texts[k] {
                Some(t) => identify_license_text(t.as_str()),
                None => None,
            }
        } else {
            None
        };
        assert(crate::license::classifier::opt_str_view(found) == file_license(tv, k as int));
        match found {
            Some(l) => (Some(String::from_str(l)), LicenseSource::LicenseFile),
            None => (None, LicenseSource::NotFound),
        }
    };
    let dependency_type = if contains_chars(direct, &id) {
        DependencyType::Direct
    } else {
        DependencyType::Transitive
    };
    let p = Package {
        name,
        version,
        license,
        license_source,
        ecosystem: Ecosystem::Cargo,
        dependency_type,
    };
    let ghost before = out.deep_view();
    push_package(out, p);
    assert(out.deep_view() =~= before + metadata_entry(
        *pkg,
        k as int,
        tv,
        text::views(members@),
        text::views(direct@),
    ));
}

/// The third-party packages of the metadata JSON `raw`, with `texts[k]`
/// the text of the license file of entry `k` of its `packages` array, where
/// one was read (see [`license_file_locations`]). Workspace members are
/// left out; a package that a member depends on is direct; the list is
/// sorted by name, then version.
pub fn parse_metadata_with_license_files(raw: &str, texts: &[Option<String>]) -> (r: Result<
    Vec<Package>,
    String,
>)
    ensures
        match r {
            Ok(p) => cargo_metadata(raw@, opt_views(texts@)) == Ok::<
                Seq<PackageView>,
                Seq<char>,
            >(p.deep_view()),
            Err(e) => cargo_metadata(raw@, opt_views(texts@)) == Err::<
                Seq<PackageView>,
                Seq<char>,
            >(e@),
        },
{
    let value = match json::parse_json(raw) {
        Ok(v) => v,
        Err(e) => return Err(invalid_json(e)),
    };
    let members = members_exec(&value);
    let direct = direct_ids_exec(&value, &members);
    let mut packages: Vec<Package> = Vec::new();
    assert(packages.deep_view() =~= Seq::<PackageView>::empty());
    let ghost tv = opt_views(texts@);
    match value.get_array("packages") {
        Some(list) => {
            let ghost ls = list@;
            let mut i: usize = 0;
            assert(ls.take(0) =~= Seq::<JsonValue>::empty());
            while i < list.len()
                invariant
                    i <= list.len(),
                    ls == list@,
                    tv == opt_views(texts@),
                    packages.deep_view() == metadata_entries(
                        ls.take(i as int),
                        tv,
                        text::views(members@),
                        text::views(direct@),
                    ),
                decreases list.len() - i,
            {
                assert(ls.take(i + 1).drop_last() =~= ls.take(i as int));
                push_metadata_entry(&list[i], i, texts, &members, &direct, &mut packages);
                i += 1;
            }
            assert(ls.take(list.len() as int) =~= ls);
        },
        None => {},
    }
    Ok(sort_packages(packages))
}

/// The third-party packages of the metadata JSON `raw`, with no license
/// file consulted.
pub fn parse_metadata(raw: &str) -> (r: Result<Vec<Package>, String>)
    ensures
        match r {
            Ok(p) => cargo_metadata(raw@, Seq::empty()) == Ok::<Seq<PackageView>, Seq<char>>(
                p.deep_view(),
            ),
            Err(e) => cargo_metadata(raw@, Seq::empty()) == Err::<Seq<PackageView>, Seq<char>>(
                e@,
            ),
        },
{
    let none: Vec<Option<String>> = Vec::new();
    assert(opt_views(none@) =~= Seq::<Option<Seq<char>>>::empty());
    parse_metadata_with_license_files(raw, none.as_slice())
}

/// For each entry of the `packages` array of the metadata JSON `raw`, in
/// order, the `manifest_path` and `license_file` it names when it is a
/// reported package that declares no license; or the error.
pub fn license_file_locations(raw: &str) -> (r: Result<Vec<Option<(String, String)>>, String>)
    ensures
        match r {
            Ok(locs) => metadata_locations(raw@) == Ok::<
                Seq<Option<(Seq<char>, Seq<char>)>>,
                Seq<char>,
            >(locs@.map_values(|o: Option<(String, String)>| pair_view(o))),
            Err(e) => metadata_locations(raw@) == Err::<
                Seq<Option<(Seq<char>, Seq<char>)>>,
                Seq<char>,
            >(e@),
        },
{
    let value = match json::parse_json(raw) {
        Ok(v) => v,
        Err(e) => return Err(invalid_json(e)),
    };
    let members = members_exec(&value);
    let ghost mv = text::views(members@);
    let mut locs: Vec<Option<(String, String)>> = Vec::new();
    let ghost entries = package_entries(value);
    match value.get_array("packages") {
        Some(list) => {
            let mut i: usize = 0;
            while i < list.len()
                invariant
                    i <= list.len(),
                    entries == list@,
                    mv == text::views(members@),
                    locs@.len() == i,
                    forall|k: int|
                        0 <= k < i ==> pair_view(#[trigger] locs@[k]) == license_file_location(
                            entries[k],
                            mv,
                        ),
                decreases list.len() - i,
            {
                let pkg = &list[i];
                let id: Vec<char> = match pkg.get_str("id") {
                    Some(s) => text::to_chars(s.as_str()),
                    None => Vec::new(),
                };
                let needs = !contains_chars(&members, &id) && pkg.get_str("name").is_some()
                    && declared_license_exec(pkg).is_none();
                let loc = if needs {
                    match (pkg.get_str("manifest_path"), pkg.get_str("license_file")) {
                        (Some(m), Some(f)) => Some((m.clone(), f.clone())),
                        _ => None,
                    }
                } else {
                    None
                };
                locs.push(loc);
                i += 1;
            }
        },
        None => {},
    }
    assert(locs@.map_values(|o: Option<(String, String)>| pair_view(o)) =~= entries.map_values(
        |pkg: JsonValue| license_file_location(pkg, workspace_members(value)),
    ));
    Ok(locs)
}

/// The view of an optional pair of strings.
pub open spec fn pair_view(o: Option<(String, String)>) -> Option<(Seq<char>, Seq<char>)> {
    match o {
        Some((a, b)) => Some((a@, b@)),
        None => None,
    }
}


/// What a reported package keeps of the `packages` entry `pkg` it comes
/// from: the entry is no workspace member and names the package; the
/// package is a Cargo one, direct exactly when a member depends on the
/// entry's id, and its license is declared exactly when the entry's
/// `license` is a non-blank string, which it then is.
pub open spec fn comes_from(
    p: PackageView,
    pkg: JsonValue,
    members: Seq<Seq<char>>,
    direct: Seq<Seq<char>>,
) -> bool {
    &&& !members.contains(entry_id(pkg))
    &&& json::get_str(pkg, "name"@) == Some(p.name)
    &&& p.ecosystem == Ecosystem::Cargo
    &&& (p.dependency_type == DependencyType::Direct <==> direct.contains(entry_id(pkg)))
    &&& (p.license_source == LicenseSource::Declared <==> declared_license(pkg) is Some)
    &&& (declared_license(pkg) is Some ==> p.license == declared_license(pkg))
}

proof fn lemma_entries_come_from(
    list: Seq<JsonValue>,
    texts: Seq<Option<Seq<char>>>,
    members: Seq<Seq<char>>,
    direct: Seq<Seq<char>>,
)
    ensures
        forall|i: int|
            0 <= i < metadata_entries(list, texts, members, direct).len() ==> exists|k: int|
                0 <= k < list.len() && comes_from(
                    #[trigger] metadata_entries(list, texts, members, direct)[i],
                    list[k],
                    members,
                    direct,
                ),
    decreases list.len(),
{
    if list.len() > 0 {
        let t = list.drop_last();
        let n = list.len() - 1;
        lemma_entries_come_from(t, texts, members, direct);
        let before = metadata_entries(t, texts, members, direct);
        let all = metadata_entries(list, texts, members, direct);
        let last = metadata_entry(list.last(), n, texts, members, direct);
        assert(all == before + last);
        assert forall|i: int| 0 <= i < all.len() implies exists|k: int|
            0 <= k < list.len() && comes_from(#[trigger] all[i], list[k], members, direct) by {
            if i < before.len() {
                assert(all[i] == before[i]);
                let k = choose|k: int| 0 <= k < t.len() && comes_from(before[i], t[k], members, direct);
                assert(list[k] == t[k]);
            } else {
                assert(all[i] == last[i - before.len()]);
                assert(list[n] == list.last());
                assert(comes_from(all[i], list[n], members, direct));
            }
        }
    }
}

/// An entry that is no workspace member and names a package.
pub open spec fn reported_entry(pkg: JsonValue, members: Seq<Seq<char>>) -> bool {
    !members.contains(entry_id(pkg)) && json::get_str(pkg, "name"@) is Some
}

proof fn lemma_entries_reported(
    list: Seq<JsonValue>,
    texts: Seq<Option<Seq<char>>>,
    members: Seq<Seq<char>>,
    direct: Seq<Seq<char>>,
)
    ensures
        forall|k: int|
            0 <= k < list.len() && reported_entry(#[trigger] list[k], members) ==> exists|i: int|
                0 <= i < metadata_entries(list, texts, members, direct).len() && comes_from(
                    metadata_entries(list, texts, members, direct)[i],
                    list[k],
                    members,
                    direct,
                ),
    decreases list.len(),
{
    if list.len() > 0 {
        let t = list.drop_last();
        let n = list.len() - 1;
        lemma_entries_reported(t, texts, members, direct);
        let before = metadata_entries(t, texts, members, direct);
        let all = metadata_entries(list, texts, members, direct);
        let last = metadata_entry(list.last(), n, texts, members, direct);
        assert(all == before + last);
        assert forall|k: int| 0 <= k < list.len() && reported_entry(#[trigger] list[k], members)
            implies exists|i: int| 0 <= i < all.len() && comes_from(all[i], list[k], members, direct) by {
            if k < n {
                assert(list[k] == t[k]);
                assert(reported_entry(t[k], members));
                let i = choose|i: int| 0 <= i < before.len() && comes_from(before[i], t[k], members, direct);
                assert(all[i] == before[i]);
            } else {
                assert(list[n] == list.last());
                assert(last.len() == 1);
                assert(all[before.len() as int] == last[0]);
                assert(comes_from(all[before.len() as int], list[k], members, direct));
            }
        }
    }
}

/// Every package that Cargo metadata yields comes from an entry of its
/// `packages` array that is no workspace member, is a Cargo package,
/// is direct exactly when a workspace member depends on it, and has a
/// declared license exactly when the entry gives a non-blank one; every
/// such entry that names a package yields one; the list is sorted by
/// name, then version.
pub proof fn each_cargo_package_comes_from_an_entry(raw: Seq<char>, texts: Seq<Option<Seq<char>>>)
    requires
        json_document(raw) is Ok,
    ensures
        ({
            let v = json_document(raw)->Ok_0;
            let out = cargo_metadata(raw, texts)->Ok_0;
            &&& cargo_metadata(raw, texts) is Ok
            &&& is_sorted(out)
            &&& forall|i: int|
                0 <= i < out.len() ==> exists|k: int|
                    0 <= k < package_entries(v).len() && comes_from(
                        #[trigger] out[i],
                        package_entries(v)[k],
                        workspace_members(v),
                        direct_ids(v),
                    )
            &&& forall|k: int|
                0 <= k < package_entries(v).len() && reported_entry(
                    #[trigger] package_entries(v)[k],
                    workspace_members(v),
                ) ==> exists|i: int|
                    0 <= i < out.len() && comes_from(
                        out[i],
                        package_entries(v)[k],
                        workspace_members(v),
                        direct_ids(v),
                    )
        }),
{
    broadcast use vstd::seq_lib::group_to_multiset_ensures;

    let v = json_document(raw)->Ok_0;
    let list = package_entries(v);
    let members = workspace_members(v);
    let direct = direct_ids(v);
    let entries = metadata_entries(list, texts, members, direct);
    let out = sorted_packages(entries);
    sorting_orders_packages(entries);
    lemma_entries_come_from(list, texts, members, direct);
    assert forall|i: int| 0 <= i < out.len() implies exists|k: int|
        0 <= k < list.len() && comes_from(#[trigger] out[i], list[k], members, direct) by {
        assert(out.contains(out[i]));
        assert(out.to_multiset().count(out[i]) > 0);
        assert(entries.contains(out[i]));
        let j = choose|j: int| 0 <= j < entries.len() && entries[j] == out[i];
        assert(exists|k: int| 0 <= k < list.len() && comes_from(entries[j], list[k], members, direct));
    }
    lemma_entries_reported(list, texts, members, direct);
    assert forall|k: int| 0 <= k < list.len() && reported_entry(#[trigger] list[k], members)
        implies exists|i: int| 0 <= i < out.len() && comes_from(out[i], list[k], members, direct) by {
        let j = choose|j: int| 0 <= j < entries.len() && comes_from(entries[j], list[k], members, direct);
        assert(entries.contains(entries[j]));
        assert(entries.to_multiset().count(entries[j]) > 0);
        assert(out.contains(entries[j]));
        let i = choose|i: int| 0 <= i < out.len() && out[i] == entries[j];
        assert(comes_from(out[i], list[k], members, direct));
    }
}

} // verus!
