//! Java: Maven POMs and Gradle lockfiles / build scripts.
use vstd::prelude::*;

use crate::model::{DependencyType, Ecosystem, LicenseSource, Package, PackageView};
use crate::scanner::{bare_package, new_package, push_package};
use crate::text;

verus! {

/// The trimmed text of the first `<tag>...</tag>` of `block`.
pub open spec fn xml_tag_text(block: Seq<char>, tag: Seq<char>) -> Option<Seq<char>> {
    let open = "<"@ + tag + ">"@;
    let close = "</"@ + tag + ">"@;
    match text::find(block, open) {
        None => None,
        Some(i) => {
            let start = i + open.len();
            match text::find(block.subrange(start, block.len() as int), close) {
                None => None,
                Some(j) => Some(text::trim(block.subrange(start, start + j))),
            }
        },
    }
}

/// `group:artifact`.
pub open spec fn coordinate(group: Seq<char>, artifact: Seq<char>) -> Seq<char> {
    group + ":"@ + artifact
}

/// The dependency one `<dependency>` block declares: skipped without a
/// group or artifact, and without a literal version.
pub open spec fn pom_block_package(block: Seq<char>) -> Seq<PackageView> {
    match (xml_tag_text(block, "groupId"@), xml_tag_text(block, "artifactId"@)) {
        (Some(group), Some(artifact)) => match xml_tag_text(block, "version"@) {
            None => Seq::empty(),
            Some(version) => if text::contains(version, "${"@) {
                Seq::empty()
            } else {
                seq![
                    bare_package(
                        coordinate(group, artifact),
                        version,
                        Ecosystem::Java,
                        DependencyType::Direct,
                    ),
                ]
            },
        },
        _ => Seq::empty(),
    }
}

pub proof fn lemma_find_in_range(s: Seq<char>, p: Seq<char>)
    ensures
        text::find(s, p) matches Some(k) ==> 0 <= k && k + p.len() <= s.len(),
{
    text::lemma_find_from_bounds(s, p, 0);
}

/// The dependencies of the `<dependency>` blocks of `rest`, in order.
pub open spec fn pom_dependencies(rest: Seq<char>) -> Seq<PackageView>
    decreases rest.len(),
{
    match text::find(rest, "<dependency>"@) {
        None => Seq::empty(),
        Some(start) => {
            proof {
                lemma_find_in_range(rest, "<dependency>"@);
            }
            let after = rest.subrange(start, rest.len() as int);
            match text::find(after, "</dependency>"@) {
                None => Seq::empty(),
                Some(end) => {
                    proof {
                        lemma_find_in_range(after, "</dependency>"@);
                        reveal_strlit("</dependency>");
                    }
                    pom_block_package(after.subrange(0, end)) + pom_dependencies(
                        after.subrange(end + "</dependency>"@.len(), after.len() as int),
                    )
                },
            }
        },
    }
}

fn xml_tag(block: &[char], tag: &str) -> (r: Option<Vec<char>>)
    ensures
        match r {
            Some(t) => xml_tag_text(block@, tag@) == Some(t@),
            None => xml_tag_text(block@, tag@) is None,
        },
{
    let mut open: Vec<char> = text::to_chars("<");
    let mut close: Vec<char> = text::to_chars("</");
    let t = text::to_chars(tag);
    let gt = text::to_chars(">");
    let ghost o0 = open@;
    let ghost c0 = close@;
    open.append(&mut t.clone());
    close.append(&mut t.clone());
    let ghost o1 = open@;
    let ghost c1 = close@;
    open.append(&mut gt.clone());
    close.append(&mut gt.clone());
    assert(open@ =~= "<"@ + tag@ + ">"@);
    assert(close@ =~= "</"@ + tag@ + ">"@);
    let i = match text::find_chars(block, &open) {
        None => return None,
        Some(i) => i,
    };
    proof {
        lemma_find_in_range(block@, open@);
    }
    let open_len = open.len();
    let block_len = block.len();
    assert(i + open_len <= block_len);
    let start = i + open_len;
    let after = text::slice(block, start, block.len());
    let j = match text::find_chars(&after, &close) {
        None => return None,
        Some(j) => j,
    };
    proof {
        lemma_find_in_range(after@, close@);
    }
    assert(j + close@.len() <= after@.len());
    let inner = text::slice(block, start, start + j);
    Some(text::trim_chars(&inner))
}

fn push_pom_block(block: &[char], out: &mut Vec<Package>)
    ensures
        final(out).deep_view() == old(out).deep_view() + pom_block_package(block@),
{
    assert(old(out).deep_view() + Seq::<PackageView>::empty() =~= old(out).deep_view());
    let group = match xml_tag(block, "groupId") {
        Some(g) => g,
        None => return ,
    };
    let artifact = match xml_tag(block, "artifactId") {
        Some(a) => a,
        None => return ,
    };
    let version = match xml_tag(block, "version") {
        Some(v) => v,
        None => return ,
    };
    if text::contains_lit(&version, "${") {
        return ;
    }
    let name = join_coordinate(&group, &artifact);
    let p = new_package(&name, &version, Ecosystem::Java, DependencyType::Direct);
    let ghost before = out.deep_view();
    push_package(out, p);
    assert(out.deep_view() =~= before + seq![p.deep_view()]);
}

fn join_coordinate(group: &[char], artifact: &[char]) -> (r: Vec<char>)
    ensures
        r@ == coordinate(group@, artifact@),
{
    let mut r = text::copy(group);
    r.push(':');
    let mut a = text::copy(artifact);
    let ghost r0 = r@;
    r.append(&mut a);
    proof {
        reveal_strlit(":");
    }
    assert(r@ =~= coordinate(group@, artifact@));
    r
}

/// Parse `<dependency>` blocks from a pom.xml. Test-scoped dependencies are
/// still reported (they carry license obligations for distribution of test
/// tooling), but version-less managed dependencies are skipped.
pub fn parse_pom_dependencies(raw: &str) -> (packages: Vec<Package>)
    ensures
        packages.deep_view() == pom_dependencies(raw@),
{
    let mut rest = text::to_chars(raw);
    let open = text::to_chars("<dependency>");
    let close = text::to_chars("</dependency>");
    let mut packages: Vec<Package> = Vec::new();
    assert(packages.deep_view() =~= Seq::<PackageView>::empty());
    proof {
        reveal_strlit("</dependency>");
    }
    loop
        invariant
            open@ == "<dependency>"@,
            close@ == "</dependency>"@,
            close@.len() == 13,
            pom_dependencies(raw@) == packages.deep_view() + pom_dependencies(rest@),
        ensures
            pom_dependencies(rest@) == Seq::<PackageView>::empty(),
        decreases rest.len(),
    {
        let start = match text::find_chars(&rest, &open) {
            None => break,
            Some(s) => s,
        };
        proof {
            lemma_find_in_range(rest@, open@);
        }
        let after = text::slice(&rest, start, rest.len());
        let end = match text::find_chars(&after, &close) {
            None => break,
            Some(e) => e,
        };
        proof {
            lemma_find_in_range(after@, close@);
        }
        let block = text::slice(&after, 0, end);
        let ghost before = packages.deep_view();
        push_pom_block(&block, &mut packages);
        rest = text::slice(&after, end + close.len(), after.len());
        assert(packages.deep_view() + pom_dependencies(rest@) =~= before + (pom_block_package(
            block@,
        ) + pom_dependencies(rest@)));
    }
    assert(packages.deep_view() + Seq::<PackageView>::empty() =~= packages.deep_view());
    packages
}

/// One line of a gradle.lockfile: `group:artifact:version=configurations`.
pub open spec fn gradle_lock_line(line: Seq<char>) -> Seq<PackageView> {
    let t = text::trim(line);
    if t.len() == 0 || text::starts_with(t, "#"@) || text::starts_with(t, "empty="@) {
        Seq::empty()
    } else {
        let parts = text::split(text::split(t, '=')[0], ':');
        if parts.len() == 3 {
            seq![
                bare_package(
                    coordinate(parts[0], parts[1]),
                    parts[2],
                    Ecosystem::Java,
                    DependencyType::Transitive,
                ),
            ]
        } else {
            Seq::empty()
        }
    }
}

pub open spec fn gradle_lock_lines(ls: Seq<Seq<char>>) -> Seq<PackageView>
    decreases ls.len(),
{
    if ls.len() == 0 {
        Seq::empty()
    } else {
        gradle_lock_line(ls[0]) + gradle_lock_lines(ls.drop_first())
    }
}

fn push_gradle_lock_line(line: &[char], out: &mut Vec<Package>)
    ensures
        final(out).deep_view() == old(out).deep_view() + gradle_lock_line(line@),
{
    assert(old(out).deep_view() + Seq::<PackageView>::empty() =~= old(out).deep_view());
    let t = text::trim_chars(line);
    if t.len() == 0 || text::starts_with_lit(&t, "#") || text::starts_with_lit(&t, "empty=") {
        return ;
    }
    let pieces = text::split_char(&t, '=');
    let parts = text::split_char(&pieces[0], ':');
    if parts.len() != 3 {
        return ;
    }
    let name = join_coordinate(&parts[0], &parts[1]);
    let p = new_package(&name, &parts[2], Ecosystem::Java, DependencyType::Transitive);
    let ghost before = out.deep_view();
    push_package(out, p);
    assert(out.deep_view() =~= before + seq![p.deep_view()]);
}

/// Parse Gradle's `gradle.lockfile`: `group:artifact:version=configurations`.
pub fn parse_gradle_lockfile(raw: &str) -> (packages: Vec<Package>)
    ensures
        packages.deep_view() == gradle_lock_lines(text::lines(raw@)),
{
    let chars = text::to_chars(raw);
    let lines = text::split_lines(&chars);
    let ghost ls = text::views(lines@);
    let mut packages: Vec<Package> = Vec::new();
    let mut i: usize = 0;
    assert(ls.skip(0) =~= ls);
    assert(packages.deep_view() =~= Seq::<PackageView>::empty());
    while i < lines.len()
        invariant
            i <= lines.len(),
            ls == text::views(lines@),
            ls == text::lines(raw@),
            gradle_lock_lines(ls) == packages.deep_view() + gradle_lock_lines(ls.skip(i as int)),
        decreases lines.len() - i,
    {
        let ghost tail = ls.skip(i as int);
        assert(tail.drop_first() =~= ls.skip(i + 1));
        let ghost before = packages.deep_view();
        push_gradle_lock_line(&lines[i], &mut packages);
        assert(before + gradle_lock_lines(tail) =~= packages.deep_view() + gradle_lock_lines(
            ls.skip(i + 1),
        ));
        i += 1;
    }
    assert(ls.skip(lines.len() as int) =~= Seq::<Seq<char>>::empty());
    assert(packages.deep_view() + Seq::<PackageView>::empty() =~= packages.deep_view());
    packages
}

/// A `group:artifact:version` coordinate with three non-empty parts free of
/// `$`, `{` and `}` (no interpolation).
pub open spec fn literal_coordinate(c: Seq<char>) -> Seq<PackageView> {
    let parts = text::split(c, ':');
    if parts.len() == 3 && forall|k: int|
        0 <= k < 3 ==> (#[trigger] parts[k]).len() > 0 && !text::has_char(parts[k], '$')
            && !text::has_char(parts[k], '{') && !text::has_char(parts[k], '}') {
        seq![
            bare_package(
                coordinate(parts[0], parts[1]),
                parts[2],
                Ecosystem::Java,
                DependencyType::Direct,
            ),
        ]
    } else {
        Seq::empty()
    }
}

/// The literal coordinates quoted with `q` in `rest`, in order.
pub open spec fn quoted_coordinates(rest: Seq<char>, q: char) -> Seq<PackageView>
    decreases rest.len(),
{
    match text::find(rest, seq![q]) {
        None => Seq::empty(),
        Some(start) => {
            proof {
                lemma_find_in_range(rest, seq![q]);
            }
            let after = rest.subrange(start + 1, rest.len() as int);
            match text::find(after, seq![q]) {
                None => Seq::empty(),
                Some(end) => {
                    proof {
                        lemma_find_in_range(after, seq![q]);
                    }
                    literal_coordinate(after.subrange(0, end)) + quoted_coordinates(
                        after.subrange(end + 1, after.len() as int),
                        q,
                    )
                },
            }
        },
    }
}

/// The coordinates of a Gradle build script: those in double quotes, then
/// those in single quotes.
pub open spec fn build_file_packages(raw: Seq<char>) -> Seq<PackageView> {
    quoted_coordinates(raw, '"') + quoted_coordinates(raw, '\'')
}

fn all_parts_literal(parts: &Vec<Vec<char>>) -> (b: bool)
    requires
        parts.len() == 3,
    ensures
        b == forall|k: int|
            0 <= k < 3 ==> (#[trigger] text::views(parts@)[k]).len() > 0 && !text::has_char(
                text::views(parts@)[k],
                '$',
            ) && !text::has_char(text::views(parts@)[k], '{') && !text::has_char(
                text::views(parts@)[k],
                '}',
            ),
{
    let mut k: usize = 0;
    while k < 3
        invariant
            k <= 3,
            parts.len() == 3,
            forall|m: int|
                0 <= m < k ==> (#[trigger] text::views(parts@)[m]).len() > 0 && !text::has_char(
                    text::views(parts@)[m],
                    '$',
                ) && !text::has_char(text::views(parts@)[m], '{') && !text::has_char(
                    text::views(parts@)[m],
                    '}',
                ),
        decreases 3 - k,
    {
        let p = &parts[k];
        assert(text::views(parts@)[k as int] == p@);
        if p.len() == 0 || text::has_char_exec(p, '$') || text::has_char_exec(p, '{')
            || text::has_char_exec(p, '}') {
            return false;
        }
        k += 1;
    }
    true
}

fn push_quoted_coordinates(raw: &[char], q: char, out: &mut Vec<Package>)
    ensures
        final(out).deep_view() == old(out).deep_view() + quoted_coordinates(raw@, q),
{
    let mut rest = text::copy(raw);
    let mut quote: Vec<char> = Vec::new();
    quote.push(q);
    assert(quote@ =~= seq![q]);
    loop
        invariant
            quote@ == seq![q],
            old(out).deep_view() + quoted_coordinates(raw@, q) == out.deep_view()
                + quoted_coordinates(rest@, q),
        ensures
            quoted_coordinates(rest@, q) == Seq::<PackageView>::empty(),
        decreases rest.len(),
    {
        let start = match text::find_chars(&rest, &quote) {
            None => break,
            Some(s) => s,
        };
        proof {
            lemma_find_in_range(rest@, quote@);
        }
        let after = text::slice(&rest, start + 1, rest.len());
        let end = match text::find_chars(&after, &quote) {
            None => break,
            Some(e) => e,
        };
        proof {
            lemma_find_in_range(after@, quote@);
        }
        let candidate = text::slice(&after, 0, end);
        let ghost before = out.deep_view();
        let parts = text::split_char(&candidate, ':');
        if parts.len() == 3 && all_parts_literal(&parts) {
            let name = join_coordinate(&parts[0], &parts[1]);
            let p = new_package(&name, &parts[2], Ecosystem::Java, DependencyType::Direct);
            push_package(out, p);
        }
        assert(out.deep_view() =~= before + literal_coordinate(candidate@));
        rest = text::slice(&after, end + 1, after.len());
    }
    assert(out.deep_view() + Seq::<PackageView>::empty() =~= out.deep_view());
}

/// Parse `group:artifact:version` coordinates out of quoted strings in a
/// Gradle build script (Groovy or Kotlin DSL), e.g.
/// `implementation("com.squareup.okhttp3:okhttp:4.12.0")` or
/// `testImplementation 'org.junit.jupiter:junit-jupiter:5.10.0'`. Entries
/// using version catalogs or variable interpolation (`libs.guava`,
/// `"...:$version"`) have no literal version and are skipped.
pub fn parse_gradle_build_file(raw: &str) -> (packages: Vec<Package>)
    ensures
        packages.deep_view() == build_file_packages(raw@),
{
    let chars = text::to_chars(raw);
    let mut packages: Vec<Package> = Vec::new();
    assert(packages.deep_view() =~= Seq::<PackageView>::empty());
    push_quoted_coordinates(&chars, '"', &mut packages);
    push_quoted_coordinates(&chars, '\'', &mut packages);
    assert(packages.deep_view() =~= build_file_packages(raw@));
    packages
}

/// The name of the first license of a POM's `<licenses>` block, if
/// non-empty.
pub open spec fn pom_license(raw: Seq<char>) -> Option<Seq<char>> {
    match text::find(raw, "<licenses>"@) {
        None => None,
        Some(start) => match text::find(raw.subrange(start, raw.len() as int), "</licenses>"@) {
            None => None,
            Some(len) => match xml_tag_text(raw.subrange(start, start + len), "name"@) {
                Some(name) => if name.len() > 0 {
                    Some(name)
                } else {
                    None
                },
                None => None,
            },
        },
    }
}

/// First `<license><name>...</name></license>` entry of a POM.
pub fn parse_pom_license(raw: &str) -> (r: Option<String>)
    ensures
        crate::model::opt_view(r) == pom_license(raw@),
{
    let chars = text::to_chars(raw);
    let start = match text::find_lit(&chars, "<licenses>") {
        None => return None,
        Some(s) => s,
    };
    proof {
        lemma_find_in_range(raw@, "<licenses>"@);
    }
    let after = text::slice(&chars, start, chars.len());
    let len = match text::find_lit(&after, "</licenses>") {
        None => return None,
        Some(e) => e,
    };
    proof {
        lemma_find_in_range(after@, "</licenses>"@);
    }
    let block = text::slice(&chars, start, start + len);
    match xml_tag(&block, "name") {
        Some(name) => if name.len() > 0 {
            Some(text::from_chars(&name))
        } else {
            None
        },
        None => None,
    }
}

/// The path segments, below the local Maven repository, of the POM of
/// `group:artifact` at `version`: the group split at dots, the artifact,
/// the version, and `<artifact>-<version>.pom`. `None` without a colon.
pub open spec fn m2_pom_segments(coordinates: Seq<char>, version: Seq<char>) -> Option<
    Seq<Seq<char>>,
> {
    match text::split_once(coordinates, ":"@) {
        None => None,
        Some((group, artifact)) => Some(
            text::split(group, '.') + seq![artifact, version, artifact + "-"@ + version + ".pom"@],
        ),
    }
}

/// The path segments of a dependency's POM in the local Maven repository:
/// `<group as path>/<artifact>/<version>/<artifact>-<version>.pom`.
pub fn m2_pom_path(coordinates: &str, version: &str) -> (r: Option<Vec<String>>)
    ensures
        match r {
            Some(v) => m2_pom_segments(coordinates@, version@) == Some(
                v@.map_values(|s: String| s@),
            ),
            None => m2_pom_segments(coordinates@, version@) is None,
        },
{
    let chars = text::to_chars(coordinates);
    let (group, artifact) = match text::split_once_lit(&chars, ":") {
        None => return None,
        Some(p) => p,
    };
    let groups = text::split_char(&group, '.');
    let mut out: Vec<String> = Vec::new();
    let mut k: usize = 0;
    while k < groups.len()
        invariant
            k <= groups.len(),
            out@.map_values(|s: String| s@) == text::views(groups@).take(k as int),
        decreases groups.len() - k,
    {
        let ghost before = out@;
        let piece = text::from_chars(&groups[k]);
        out.push(piece);
        assert(out@ == before.push(piece));
        assert(out@.map_values(|s: String| s@) =~= before.map_values(|s: String| s@).push(piece@));
        assert(text::views(groups@)[k as int] == piece@);
        assert(text::views(groups@).take(k + 1) =~= text::views(groups@).take(k as int).push(piece@));
        k += 1;
        assert(out@.map_values(|s: String| s@) =~= text::views(groups@).take(k as int));
    }
    let artifact_s = text::from_chars(&artifact);
    out.push(artifact_s.clone());
    out.push(String::from_str(version));
    let mut file = artifact_s;
    file.append("-");
    file.append(version);
    file.append(".pom");
    out.push(file);
    assert(text::views(groups@).take(groups.len() as int) =~= text::views(groups@));
    assert(out@.map_values(|s: String| s@) =~= text::split(group@, '.') + seq![
        artifact@,
        version@,
        artifact@ + "-"@ + version@ + ".pom"@,
    ]);
    Some(out)
}


/// `p` with the license named in its POM from the local Maven repository,
/// when `p` has none and the POM names one.
pub open spec fn with_pom_license(p: PackageView, pom: Option<Seq<char>>) -> PackageView {
    match pom {
        Some(t) => match pom_license(t) {
            Some(l) => if p.license is None {
                PackageView { license: Some(l), license_source: LicenseSource::Declared, ..p }
            } else {
                p
            },
            None => p,
        },
        None => p,
    }
}

/// The POM text given for package `k`, if any.
pub open spec fn pom_at(poms: Seq<Option<String>>, k: int) -> Option<Seq<char>> {
    if 0 <= k < poms.len() {
        crate::model::opt_view(poms[k])
    } else {
        None
    }
}

/// `ps` with the licenses of their POMs filled in.
pub open spec fn with_pom_licenses(ps: Seq<PackageView>, poms: Seq<Option<String>>) -> Seq<
    PackageView,
> {
    Seq::new(ps.len(), |k: int| with_pom_license(ps[k], pom_at(poms, k)))
}

/// The Java dependencies of a project, from the packages of its pom.xml
/// and Gradle files: a package without a license takes the one that
/// `poms[k]`, the text of its POM in the local Maven repository (`None`
/// where missing), names; the list is sorted by name and version, and a
/// package that repeats the name and version of the one before it (Gradle
/// lists coordinates once per configuration) is dropped.
pub fn scan(packages: &Vec<Package>, poms: &[Option<String>]) -> (r: Vec<Package>)
    ensures
        r.deep_view() == crate::order::dedup_adjacent(
            crate::order::sorted_packages(with_pom_licenses(packages.deep_view(), poms@)),
        ),
{
    let mut found: Vec<Option<(String, LicenseSource)>> = Vec::new();
    let mut k: usize = 0;
    while k < poms.len()
        invariant
            k <= poms.len(),
            found@.len() == k,
            forall|m: int|
                0 <= m < k ==> #[trigger] crate::scanner::found_view(found@[m]) == match pom_at(
                    poms@,
                    m,
                ) {
                    Some(t) => match pom_license(t) {
                        Some(l) => Some((l, LicenseSource::Declared)),
                        None => None,
                    },
                    None => None,
                },
        decreases poms.len() - k,
    {
        let f = match &poms[k] {
            Some(t) => match parse_pom_license(t.as_str()) {
                Some(l) => Some((l, LicenseSource::Declared)),
                None => None,
            },
            None => None,
        };
        found.push(f);
        k += 1;
    }
    let applied = crate::scanner::apply_found_licenses(packages, found.as_slice(), true);
    assert(applied.deep_view() =~= with_pom_licenses(packages.deep_view(), poms@)) by {
        assert forall|m: int| 0 <= m < packages.len() implies #[trigger] applied.deep_view()[m]
            == with_pom_license(packages.deep_view()[m], pom_at(poms@, m)) by {
            assert(applied.deep_view()[m] == crate::scanner::with_found_license(
                packages.deep_view()[m],
                crate::scanner::found_at(found@, m),
                true,
            ));
            if m < poms.len() {
                assert(crate::scanner::found_view(found@[m]) == crate::scanner::found_at(found@, m));
            }
        }
    }
    let sorted = crate::order::sort_packages(applied);
    crate::order::dedup_adjacent_packages(sorted)
}

} // verus!
