//! Ruby: Gemfile.lock and gemspecs.
use vstd::prelude::*;

use crate::model::{opt_view, DependencyType, Ecosystem, LicenseSource, Package, PackageView};
use crate::scanner::{
    apply_found_licenses, bare_package, direct_if_named, first_identified, found_at, found_view, identify_first,
    new_package, push_package, with_found_license,
};
use crate::text;

verus! {

/// The pieces at odd positions of `ps` (`skip(1).step_by(2)`): the text
/// inside quotes when `ps` is a split at quote characters.
pub open spec fn odd_pieces(ps: Seq<Seq<char>>) -> Seq<Seq<char>> {
    Seq::new(ps.len() / 2, |k: int| ps[2 * k + 1])
}

/// The non-empty pieces of `ps`, in order.
pub open spec fn non_empty(ps: Seq<Seq<char>>) -> Seq<Seq<char>>
    decreases ps.len(),
{
    if ps.len() == 0 {
        Seq::empty()
    } else if ps.last().len() > 0 {
        non_empty(ps.drop_last()).push(ps.last())
    } else {
        non_empty(ps.drop_last())
    }
}

/// The license a gemspec line declares: `s.license = "MIT"` or
/// `s.licenses = ["MIT", "Ruby"]` (alternatives joined with ` OR `).
pub open spec fn gemspec_line(line: Seq<char>) -> Option<Seq<char>> {
    let t = text::trim(line);
    match text::find(t, ".license"@) {
        None => None,
        Some(idx) => {
            let rest = t.subrange(idx + ".license"@.len(), t.len() as int);
            let rest = match text::strip_prefix(rest, "s"@) {
                Some(r) => r,
                None => rest,
            };
            match text::split_once(rest, "="@) {
                None => None,
                Some((_, value)) => {
                    let licenses = non_empty(odd_pieces(text::split(value, '"')));
                    if licenses.len() > 0 {
                        Some(text::join(licenses, " OR "@))
                    } else {
                        None
                    }
                },
            }
        },
    }
}

pub open spec fn gemspec_lines(ls: Seq<Seq<char>>) -> Option<Seq<char>>
    decreases ls.len(),
{
    if ls.len() == 0 {
        None
    } else {
        match gemspec_line(ls[0]) {
            Some(l) => Some(l),
            None => gemspec_lines(ls.drop_first()),
        }
    }
}

/// The first license declaration of a gemspec.
pub open spec fn gemspec_license(raw: Seq<char>) -> Option<Seq<char>> {
    gemspec_lines(text::lines(raw))
}

/// `parts` joined with `sep`.
pub fn join_chars(parts: &Vec<Vec<char>>, sep: &str) -> (r: Vec<char>)
    ensures
        r@ == text::join(text::views(parts@), sep@),
{
    let s = text::to_chars(sep);
    let ghost ps = text::views(parts@);
    let mut r: Vec<char> = Vec::new();
    let mut i: usize = 0;
    assert(ps.take(0) =~= Seq::<Seq<char>>::empty());
    while i < parts.len()
        invariant
            i <= parts.len(),
            ps == text::views(parts@),
            s@ == sep@,
            r@ == text::join(ps.take(i as int), sep@),
        decreases parts.len() - i,
    {
        assert(ps.take(i + 1).drop_last() =~= ps.take(i as int));
        let ghost before = r@;
        if i > 0 {
            let mut sc = s.clone();
            r.append(&mut sc);
        } else {
            assert(ps.take(1) =~= seq![ps[0]]);
        }
        let mut piece = parts[i].clone();
        r.append(&mut piece);
        i += 1;
        assert(r@ =~= text::join(ps.take(i as int), sep@));
    }
    assert(ps.take(parts.len() as int) =~= ps);
    r
}

fn gemspec_line_exec(line: &[char]) -> (r: Option<Vec<char>>)
    ensures
        crate::scanner::dart::opt_chars(r) == gemspec_line(line@),
{
    let t = text::trim_chars(line);
    let idx = match text::find_lit(&t, ".license") {
        None => return None,
        Some(i) => i,
    };
    proof {
        crate::scanner::java::lemma_find_in_range(t@, ".license"@);
    }
    let n = ".license".unicode_len();
    let t_len = t.len();
    assert(idx + n <= t_len);
    let rest0 = text::slice(&t, idx + n, t.len());
    let rest = match text::strip_prefix_lit(&rest0, "s") {
        Some(r) => r,
        None => rest0,
    };
    let value = match text::split_once_lit(&rest, "=") {
        None => return None,
        Some((_, v)) => v,
    };
    let pieces = text::split_char(&value, '"');
    let ghost ps = text::views(pieces@);
    let ghost odd = odd_pieces(ps);
    let mut licenses: Vec<Vec<char>> = Vec::new();
    let mut k: usize = 0;
    assert(odd.take(0) =~= Seq::<Seq<char>>::empty());
    while k < pieces.len() / 2
        invariant
            k <= pieces.len() / 2,
            ps == text::views(pieces@),
            odd == odd_pieces(ps),
            text::views(licenses@) == non_empty(odd.take(k as int)),
        decreases pieces.len() / 2 - k,
    {
        let piece = &pieces[2 * k + 1];
        assert(odd[k as int] == piece@);
        assert(odd.take(k + 1).drop_last() =~= odd.take(k as int));
        if piece.len() > 0 {
            let ghost before = text::views(licenses@);
            licenses.push(piece.clone());
            assert(text::views(licenses@) =~= before.push(piece@));
        }
        k += 1;
    }
    assert(odd.take((pieces.len() / 2) as int) =~= odd);
    if licenses.len() > 0 {
        Some(join_chars(&licenses, " OR "))
    } else {
        None
    }
}

/// Extract `s.license = "MIT"` or `s.licenses = ["MIT", "Ruby"]` from a
/// gemspec (also handles the `.freeze` suffix RubyGems emits).
pub fn parse_gemspec_license(raw: &str) -> (r: Option<String>)
    ensures
        crate::model::opt_view(r) == gemspec_license(raw@),
{
    let chars = text::to_chars(raw);
    let lines = text::split_lines(&chars);
    let ghost ls = text::views(lines@);
    let mut i: usize = 0;
    assert(ls.skip(0) =~= ls);
    while i < lines.len()
        invariant
            i <= lines.len(),
            ls == text::views(lines@),
            ls == text::lines(raw@),
            gemspec_license(raw@) == gemspec_lines(ls.skip(i as int)),
        decreases lines.len() - i,
    {
        let ghost tail = ls.skip(i as int);
        assert(tail.drop_first() =~= ls.skip(i + 1));
        if let Some(l) = gemspec_line_exec(&lines[i]) {
            return Some(text::from_chars(&l));
        }
        i += 1;
    }
    None
}

/// What has been read of a Gemfile.lock so far.
pub struct LockState {
    pub in_specs: bool,
    pub in_dependencies: bool,
}

/// One Gemfile.lock line: the state after it, the gem it lists under
/// `specs:` (indented four spaces) and the direct dependency it names
/// under `DEPENDENCIES` (indented two spaces).
pub open spec fn lock_line(line: Seq<char>, st: LockState) -> (
    LockState,
    Seq<PackageView>,
    Seq<Seq<char>>,
) {
    let t = text::trim(line);
    if t == "specs:"@ {
        (LockState { in_specs: true, in_dependencies: false }, Seq::empty(), Seq::empty())
    } else if t == "DEPENDENCIES"@ {
        (LockState { in_specs: false, in_dependencies: true }, Seq::empty(), Seq::empty())
    } else {
        let ends_section = t.len() == 0 || (line.len() > 0 && !text::is_ws(line[0])
            && !text::ends_with(t, ":"@));
        let st = if ends_section {
            LockState { in_specs: false, in_dependencies: false }
        } else {
            st
        };
        let parts = text::words(t);
        let found = if st.in_specs && text::starts_with(line, "    "@) && !text::starts_with(
            line,
            "      "@,
        ) && parts.len() >= 2 {
            seq![
                bare_package(
                    parts[0],
                    text::trim_pair(parts[1], '(', ')'),
                    Ecosystem::Ruby,
                    DependencyType::Transitive,
                ),
            ]
        } else {
            Seq::empty()
        };
        let direct = if st.in_dependencies && text::starts_with(line, "  "@) && parts.len() > 0 {
            seq![text::trim_char(parts[0], '!')]
        } else {
            Seq::empty()
        };
        (st, found, direct)
    }
}

pub open spec fn lock_lines(ls: Seq<Seq<char>>, st: LockState) -> (
    Seq<PackageView>,
    Seq<Seq<char>>,
)
    decreases ls.len(),
{
    if ls.len() == 0 {
        (Seq::empty(), Seq::empty())
    } else {
        let (next, found, direct) = lock_line(ls[0], st);
        let rest = lock_lines(ls.drop_first(), next);
        (found + rest.0, direct + rest.1)
    }
}

/// The gems of a Gemfile.lock, in order: those the `DEPENDENCIES` section
/// names are direct, the others transitive.
pub open spec fn lockfile_packages(raw: Seq<char>) -> Seq<PackageView> {
    let (found, direct) = lock_lines(
        text::lines(raw),
        LockState { in_specs: false, in_dependencies: false },
    );
    found.map_values(|p: PackageView| direct_if_named(p, direct))
}

pub fn parse_lockfile(raw: &str) -> (packages: Vec<Package>)
    ensures
        packages.deep_view() == lockfile_packages(raw@),
{
    let chars = text::to_chars(raw);
    let lines = text::split_lines(&chars);
    let ghost ls = text::views(lines@);
    let ghost init = LockState { in_specs: false, in_dependencies: false };
    let mut found: Vec<Package> = Vec::new();
    let mut direct: Vec<String> = Vec::new();
    let mut in_specs = false;
    let mut in_dependencies = false;
    let mut i: usize = 0;
    assert(ls.skip(0) =~= ls);
    assert(found.deep_view() =~= Seq::<PackageView>::empty());
    assert(direct@.map_values(|s: String| s@) =~= Seq::<Seq<char>>::empty());
    while i < lines.len()
        invariant
            i <= lines.len(),
            ls == text::views(lines@),
            ls == text::lines(raw@),
            ({
                let rest = lock_lines(
                    ls.skip(i as int),
                    LockState { in_specs, in_dependencies },
                );
                lock_lines(ls, init) == (
                    found.deep_view() + rest.0,
                    direct@.map_values(|s: String| s@) + rest.1,
                )
            }),
        decreases lines.len() - i,
    {
        let ghost tail = ls.skip(i as int);
        assert(tail.drop_first() =~= ls.skip(i + 1));
        let ghost f0 = found.deep_view();
        let ghost d0 = direct@.map_values(|s: String| s@);
        let line = &lines[i];
        assert(tail[0] == line@);
        let t = text::trim_chars(line);
        if text::eq_lit(&t, "specs:") {
            in_specs = true;
            in_dependencies = false;
            assert(f0 + Seq::<PackageView>::empty() =~= f0);
            assert(d0 + Seq::<Seq<char>>::empty() =~= d0);
            i += 1;
            continue;
        }
        if text::eq_lit(&t, "DEPENDENCIES") {
            in_dependencies = true;
            in_specs = false;
            assert(f0 + Seq::<PackageView>::empty() =~= f0);
            assert(d0 + Seq::<Seq<char>>::empty() =~= d0);
            i += 1;
            continue;
        }
        if t.len() == 0 || (line.len() > 0 && !text::is_whitespace(line[0])
            && !text::ends_with_lit(&t, ":")) {
            in_specs = false;
            in_dependencies = false;
        }
        let parts = text::split_words(&t);
        if in_specs && text::starts_with_lit(line, "    ") && !text::starts_with_lit(line, "      ")
            && parts.len() >= 2 {
            let version = text::trim_pair_chars(&parts[1], '(', ')');
            let p = new_package(&parts[0], &version, Ecosystem::Ruby, DependencyType::Transitive);
            push_package(&mut found, p);
            assert(found.deep_view() =~= f0 + seq![p.deep_view()]);
        } else {
            assert(f0 + Seq::<PackageView>::empty() =~= f0);
        }
        if in_dependencies && text::starts_with_lit(line, "  ") && parts.len() > 0 {
            let name = text::trim_char_chars(&parts[0], '!');
            let s = text::from_chars(&name);
            let ghost b = direct@;
            direct.push(s);
            assert(direct@.map_values(|s: String| s@) =~= b.map_values(|s: String| s@).push(s@));
        } else {
            assert(d0 + Seq::<Seq<char>>::empty() =~= d0);
        }
        i += 1;
    }
    assert(ls.skip(lines.len() as int) =~= Seq::<Seq<char>>::empty());
    assert(found.deep_view() + Seq::<PackageView>::empty() =~= found.deep_view());
    assert(direct@.map_values(|s: String| s@) + Seq::<Seq<char>>::empty() =~= direct@.map_values(
        |s: String| s@,
    ));
    let ghost d = direct@.map_values(|s: String| s@);
    let mut packages: Vec<Package> = Vec::new();
    let mut k: usize = 0;
    while k < found.len()
        invariant
            k <= found.len(),
            d == direct@.map_values(|s: String| s@),
            packages.deep_view() == found.deep_view().take(k as int).map_values(
                |p: PackageView| direct_if_named(p, d),
            ),
        decreases found.len() - k,
    {
        let p = &found[k];
        let name = text::to_chars(p.name.as_str());
        let q = if crate::scanner::contains_string(&direct, &name) {
            crate::scanner::retyped(p, DependencyType::Direct)
        } else {
            crate::scanner::retyped(p, p.dependency_type)
        };
        push_package(&mut packages, q);
        assert(found.deep_view().take(k + 1) =~= found.deep_view().take(k as int).push(
            p.deep_view(),
        ));
        k += 1;
    }
    assert(found.deep_view().take(found.len() as int) =~= found.deep_view());
    packages
}


/// The license of one gem in one gem home: the declaration of its gemspec
/// (`gemspec`, where there is one), else what the license files of its
/// unpacked directory (`texts`, in probing order) identify.
pub open spec fn gem_license_of(gemspec: Option<Seq<char>>, texts: Seq<Option<Seq<char>>>) -> Option<
    (Seq<char>, LicenseSource),
> {
    let declared = match gemspec {
        Some(t) => gemspec_license(t),
        None => None,
    };
    match declared {
        Some(l) => Some((l, LicenseSource::Declared)),
        None => match first_identified(texts) {
            Some(l) => Some((l, LicenseSource::LicenseFile)),
            None => None,
        },
    }
}

/// The value of what one gem home holds for a gem.
pub open spec fn home_view(e: (Option<String>, Vec<Option<String>>)) -> (
    Option<Seq<char>>,
    Seq<Option<Seq<char>>>,
) {
    (opt_view(e.0), e.1@.map_values(|o: Option<String>| opt_view(o)))
}

/// The license of a gem from the first gem home that yields one.
pub open spec fn first_gem_license(homes: Seq<(Option<Seq<char>>, Seq<Option<Seq<char>>>)>) -> Option<
    (Seq<char>, LicenseSource),
>
    decreases homes.len(),
{
    if homes.len() == 0 {
        None
    } else {
        match gem_license_of(homes[0].0, homes[0].1) {
            Some(f) => Some(f),
            None => first_gem_license(homes.drop_first()),
        }
    }
}

/// What the gem homes hold for package `k`.
pub open spec fn homes_for(gems: Seq<Vec<(Option<String>, Vec<Option<String>>)>>, k: int) -> Seq<
    (Option<Seq<char>>, Seq<Option<Seq<char>>>),
> {
    if 0 <= k < gems.len() {
        gems[k]@.map_values(|e: (Option<String>, Vec<Option<String>>)| home_view(e))
    } else {
        Seq::empty()
    }
}

fn gem_license(gemspec: &Option<String>, texts: &Vec<Option<String>>) -> (r: Option<
    (String, LicenseSource),
>)
    ensures
        found_view(r) == gem_license_of(
            opt_view(*gemspec),
            texts@.map_values(|o: Option<String>| opt_view(o)),
        ),
{
    match gemspec {
        Some(t) => match parse_gemspec_license(t.as_str()) {
            Some(l) => {
                return Some((l, LicenseSource::Declared));
            },
            None => {},
        },
        None => {},
    }
    match identify_first(texts.as_slice()) {
        Some(l) => Some((l, LicenseSource::LicenseFile)),
        None => None,
    }
}

fn first_gem_license_exec(homes: &Vec<(Option<String>, Vec<Option<String>>)>) -> (r: Option<
    (String, LicenseSource),
>)
    ensures
        found_view(r) == first_gem_license(
            homes@.map_values(|e: (Option<String>, Vec<Option<String>>)| home_view(e)),
        ),
{
    let ghost hv = homes@.map_values(|e: (Option<String>, Vec<Option<String>>)| home_view(e));
    let mut i: usize = 0;
    assert(hv.skip(0) =~= hv);
    while i < homes.len()
        invariant
            i <= homes.len(),
            hv == homes@.map_values(|e: (Option<String>, Vec<Option<String>>)| home_view(e)),
            first_gem_license(hv) == first_gem_license(hv.skip(i as int)),
        decreases homes.len() - i,
    {
        assert(hv.skip(i as int).drop_first() =~= hv.skip(i + 1));
        assert(hv.skip(i as int)[0] == home_view(homes@[i as int]));
        let f = gem_license(&homes[i].0, &homes[i].1);
        if f.is_some() {
            return f;
        }
        i += 1;
    }
    None
}

/// The Ruby dependencies of a project, from the packages of its
/// Gemfile.lock: a package without a license takes the first that a gem
/// home yields, `gems[k]` holding for package `k`, per gem home in order,
/// the text of its gemspec there (`None` where missing) and the texts of
/// the license files of its unpacked directory.
pub fn scan(packages: &Vec<Package>, gems: &[Vec<(Option<String>, Vec<Option<String>>)>]) -> (r: Vec<
    Package,
>)
    ensures
        r.deep_view().len() == packages.deep_view().len(),
        forall|k: int|
            0 <= k < packages.len() ==> #[trigger] r.deep_view()[k] == with_found_license(
                packages.deep_view()[k],
                first_gem_license(homes_for(gems@, k)),
                true,
            ),
{
    let mut found: Vec<Option<(String, LicenseSource)>> = Vec::new();
    let mut k: usize = 0;
    while k < gems.len()
        invariant
            k <= gems.len(),
            found@.len() == k,
            forall|m: int|
                0 <= m < k ==> #[trigger] found_view(found@[m]) == first_gem_license(
                    homes_for(gems@, m),
                ),
        decreases gems.len() - k,
    {
        let f = first_gem_license_exec(&gems[k]);
        found.push(f);
        k += 1;
    }
    let r = apply_found_licenses(packages, found.as_slice(), true);
    assert forall|m: int| 0 <= m < packages.len() implies #[trigger] r.deep_view()[m]
        == with_found_license(packages.deep_view()[m], first_gem_license(homes_for(gems@, m)), true) by {
        assert(r.deep_view()[m] == with_found_license(
            packages.deep_view()[m],
            found_at(found@, m),
            true,
        ));
        if m < gems.len() {
            assert(found_view(found@[m]) == found_at(found@, m));
        } else {
            assert(homes_for(gems@, m) =~= Seq::<(Option<Seq<char>>, Seq<Option<Seq<char>>>)>::empty());
        }
    }
    r
}


// ---------------------------------------------------------------------------
// Laws
// ---------------------------------------------------------------------------

proof fn lemma_lock_line_direct_words(line: Seq<char>, st: LockState)
    ensures
        forall|k: int|
            0 <= k < lock_line(line, st).2.len() ==> text::no_ws(#[trigger] lock_line(line, st).2[k]),
{
    let t = text::trim(line);
    let parts = text::words(t);
    text::words_hold_no_whitespace(t, Seq::empty());
    if parts.len() > 0 {
        assert(text::no_ws(parts[0]));
        text::trim_char_keeps_no_ws(parts[0], '!');
    }
}

proof fn lemma_lock_lines_direct_words(ls: Seq<Seq<char>>, st: LockState)
    ensures
        forall|k: int|
            0 <= k < lock_lines(ls, st).1.len() ==> text::no_ws(#[trigger] lock_lines(ls, st).1[k]),
    decreases ls.len(),
{
    if ls.len() > 0 {
        let (next, found, direct) = lock_line(ls[0], st);
        lemma_lock_line_direct_words(ls[0], st);
        lemma_lock_lines_direct_words(ls.drop_first(), next);
        let rest = lock_lines(ls.drop_first(), next).1;
        assert(lock_lines(ls, st).1 == direct + rest);
        assert forall|k: int| 0 <= k < lock_lines(ls, st).1.len() implies text::no_ws(
            #[trigger] lock_lines(ls, st).1[k],
        ) by {
            if k < direct.len() {
                assert(lock_lines(ls, st).1[k] == direct[k]);
            } else {
                assert(lock_lines(ls, st).1[k] == rest[k - direct.len()]);
            }
        }
    }
}

/// Every name that the `DEPENDENCIES` section of a Gemfile.lock makes
/// direct is a single word: a version constraint that follows the name on
/// its line is never part of it.
pub proof fn direct_names_are_single_words(raw: Seq<char>)
    ensures
        forall|k: int|
            0 <= k < lock_lines(
                text::lines(raw),
                LockState { in_specs: false, in_dependencies: false },
            ).1.len() ==> text::no_ws(
                #[trigger] lock_lines(
                    text::lines(raw),
                    LockState { in_specs: false, in_dependencies: false },
                ).1[k],
            ),
{
    lemma_lock_lines_direct_words(
        text::lines(raw),
        LockState { in_specs: false, in_dependencies: false },
    );
}

/// A Gemfile.lock that lists a gem under `specs:` and names it on a line
/// of its `DEPENDENCIES` section gives that gem as direct, whatever
/// follows the name on that line (a version constraint or nothing).
pub proof fn gems_named_in_dependencies_are_direct(
    name: Seq<char>,
    version: Seq<char>,
    tail: Seq<char>,
)
    requires
        name.len() > 0,
        text::no_ws(name),
        name[0] != '!',
        name.last() != '!',
        name != "specs:"@,
        name != "DEPENDENCIES"@,
        version.len() > 0,
        text::no_ws(version),
        version[0] != '(' && version[0] != ')',
        version.last() != '(' && version.last() != ')',
        !tail.contains('\n'),
        tail.len() == 0 || (tail[0] == ' ' && !text::is_ws(tail.last())),
    ensures
        lockfile_packages(
            text::text_of_lines(
                seq![
                    "GEM"@,
                    text::spaces(2) + "specs:"@,
                    text::spaces(4) + name + " ("@ + version + ")"@,
                    Seq::empty(),
                    "DEPENDENCIES"@,
                    text::spaces(2) + name + tail,
                ],
            ),
        ) == seq![bare_package(name, version, Ecosystem::Ruby, DependencyType::Direct)],
{
    reveal_strlit("GEM");
    reveal_strlit("specs:");
    reveal_strlit("DEPENDENCIES");
    reveal_strlit(" (");
    reveal_strlit(")");
    reveal_strlit(":");
    reveal_strlit("    ");
    reveal_strlit("      ");
    reveal_strlit("  ");
    let e = Seq::<char>::empty();
    let paren = seq!['('] + version + seq![')'];
    let spec = name + " ("@ + version + ")"@;
    let dep = name + tail;
    let l0 = "GEM"@;
    let l1 = text::spaces(2) + "specs:"@;
    let l2 = text::spaces(4) + spec;
    let l3 = e;
    let l4 = "DEPENDENCIES"@;
    let l5 = text::spaces(2) + dep;
    let ls = seq![l0, l1, l2, l3, l4, l5];
    let stated = seq![
        "GEM"@,
        text::spaces(2) + "specs:"@,
        text::spaces(4) + name + " ("@ + version + ")"@,
        Seq::empty(),
        "DEPENDENCIES"@,
        text::spaces(2) + name + tail,
    ];
    assert(stated[2] =~= l2);
    assert(stated[5] =~= l5);
    assert(stated =~= ls);
    // Facts on the pieces.
    assert(text::is_ws(' ') && text::is_ws('\n') && text::is_ws('\r'));
    assert(text::no_ws("specs:"@));
    assert(text::no_ws("DEPENDENCIES"@));
    assert(text::no_ws(paren)) by {
        assert forall|i: int| 0 <= i < paren.len() implies !text::is_ws(#[trigger] paren[i]) by {
            if 0 < i < paren.len() - 1 {
                assert(paren[i] == version[i - 1]);
            }
        }
    }
    assert(spec =~= name + (seq![' '] + paren));
    assert(spec[name.len() as int] == ' ');
    assert(!name.contains('\n')) by {
        if name.contains('\n') {
            let k = choose|k: int| 0 <= k < name.len() && name[k] == '\n';
        }
    }
    assert(!version.contains('\n')) by {
        if version.contains('\n') {
            let k = choose|k: int| 0 <= k < version.len() && version[k] == '\n';
        }
    }
    // The text's lines.
    assert(!text::spaces(2).contains('\n'));
    assert(!text::spaces(4).contains('\n'));
    assert(!"GEM"@.contains('\n'));
    assert(!"specs:"@.contains('\n'));
    assert(!"DEPENDENCIES"@.contains('\n'));
    assert(!" ("@.contains('\n'));
    assert(!")"@.contains('\n'));
    text::absent_from_concat(text::spaces(2), "specs:"@, '\n');
    text::absent_from_concat(name, " ("@, '\n');
    text::absent_from_concat(name + " ("@, version, '\n');
    text::absent_from_concat(name + " ("@ + version, ")"@, '\n');
    text::absent_from_concat(text::spaces(4), spec, '\n');
    text::absent_from_concat(name, tail, '\n');
    text::absent_from_concat(text::spaces(2), dep, '\n');
    assert(dep.last() == if tail.len() == 0 {
        name.last()
    } else {
        tail.last()
    });
    assert(!text::is_ws(name.last()));
    assert(forall|i: int| 0 <= i < ls.len() ==> text::plain_line(#[trigger] ls[i]));
    text::lines_of_text_of_lines(ls);
    // Trimmed lines.
    text::indented_line(2, "specs:"@);
    text::indented_line(4, spec);
    text::indented_line(2, dep);
    assert(text::trim(l0) == l0);
    assert(text::trim(l4) == l4);
    assert(text::trim(l3) == l3);
    // Words.
    text::words_through_word(name, seq![' '] + paren, e);
    assert(e + name =~= name);
    assert((seq![' '] + paren)[0] == ' ');
    assert((seq![' '] + paren).drop_first() =~= paren);
    text::words_through_word(paren, e, e);
    assert(paren + e =~= paren);
    assert(e + paren =~= paren);
    assert(text::words_acc(e, paren) == seq![paren]);
    assert(text::words(spec) =~= seq![name, paren]);
    text::words_through_word(name, tail, e);
    if tail.len() == 0 {
        assert(dep =~= name);
        assert(text::words_acc(tail, name) == seq![name]);
    } else {
        assert(text::words_acc(tail, name)[0] == name);
    }
    assert(text::words(dep)[0] == name);
    // Trimming.
    assert(paren[0] == '(');
    assert(paren.drop_first() =~= version + seq![')']);
    assert((version + seq![')'])[0] == version[0]);
    assert(text::trim_pair_start(version + seq![')'], '(', ')') == version + seq![')']);
    assert(text::trim_pair_start(paren, '(', ')') == version + seq![')']);
    assert((version + seq![')']).drop_last() =~= version);
    assert(text::trim_pair_end(version, '(', ')') == version);
    assert(text::trim_pair(paren, '(', ')') == version);
    assert(text::trim_char_start(name, '!') == name);
    assert(text::trim_char_end(name, '!') == name);
    // Line by line.
    let off = LockState { in_specs: false, in_dependencies: false };
    let specs = LockState { in_specs: true, in_dependencies: false };
    let deps = LockState { in_specs: false, in_dependencies: true };
    let pkg = bare_package(name, version, Ecosystem::Ruby, DependencyType::Transitive);
    let none_p = Seq::<PackageView>::empty();
    let none_n = Seq::<Seq<char>>::empty();
    assert(l0 != "specs:"@ && l0 != "DEPENDENCIES"@);
    assert(!text::ends_with(l0, ":"@)) by {
        if text::ends_with(l0, ":"@) {
            assert(l0.subrange(2, 3)[0] == ":"@[0]);
        }
    }
    assert(lock_line(l0, off) == (off, none_p, none_n));
    assert(lock_line(l1, off) == (specs, none_p, none_n));
    assert(spec != "specs:"@) by {
        if spec == "specs:"@ {
            assert(!text::is_ws(spec[name.len() as int]));
        }
    }
    assert(spec != "DEPENDENCIES"@) by {
        if spec == "DEPENDENCIES"@ {
            assert(!text::is_ws(spec[name.len() as int]));
        }
    }
    assert(l2[0] == ' ');
    assert(text::starts_with(l2, "    "@)) by {
        assert(l2.subrange(0, 4) =~= "    "@);
    }
    assert(!text::starts_with(l2, "      "@)) by {
        if text::starts_with(l2, "      "@) {
            assert(l2.subrange(0, 6)[4] == l2[4]);
            assert(l2[4] == name[0]);
        }
    }
    assert(lock_line(l2, specs) == (specs, seq![pkg], none_n));
    assert(lock_line(l3, specs) == (off, none_p, none_n));
    assert(lock_line(l4, off) == (deps, none_p, none_n));
    assert(dep != "specs:"@ && dep != "DEPENDENCIES"@) by {
        if tail.len() > 0 {
            assert(dep[name.len() as int] == ' ');
            if dep == "specs:"@ || dep == "DEPENDENCIES"@ {
                assert(!text::is_ws(dep[name.len() as int]));
            }
        } else {
            assert(dep =~= name);
        }
    }
    assert(l5[0] == ' ');
    assert(text::starts_with(l5, "  "@)) by {
        assert(l5.subrange(0, 2) =~= "  "@);
    }
    assert(text::words(dep).len() > 0);
    assert(lock_line(l5, deps) == (deps, none_p, seq![name]));
    // The gems.
    assert(ls.drop_first() =~= seq![l1, l2, l3, l4, l5]);
    assert(seq![l1, l2, l3, l4, l5].drop_first() =~= seq![l2, l3, l4, l5]);
    assert(seq![l2, l3, l4, l5].drop_first() =~= seq![l3, l4, l5]);
    assert(seq![l3, l4, l5].drop_first() =~= seq![l4, l5]);
    assert(seq![l4, l5].drop_first() =~= seq![l5]);
    assert(seq![l5].drop_first() =~= Seq::<Seq<char>>::empty());
    let end = lock_lines(Seq::<Seq<char>>::empty(), deps);
    assert(end == (none_p, none_n));
    assert(lock_lines(seq![l5], deps) == (none_p + none_p, seq![name] + none_n));
    assert(lock_lines(seq![l5], deps) =~~= (none_p, seq![name]));
    assert(lock_lines(seq![l4, l5], off) =~~= (none_p, seq![name]));
    assert(lock_lines(seq![l3, l4, l5], specs) =~~= (none_p, seq![name]));
    assert(lock_lines(seq![l2, l3, l4, l5], specs) =~~= (seq![pkg], seq![name]));
    assert(lock_lines(seq![l1, l2, l3, l4, l5], off) =~~= (seq![pkg], seq![name]));
    assert(lock_lines(ls, off) =~~= (seq![pkg], seq![name]));
    assert(seq![name].contains(name)) by {
        assert(seq![name][0] == name);
    }
    assert(seq![pkg].map_values(|p: PackageView| direct_if_named(p, seq![name])) =~= seq![
        bare_package(name, version, Ecosystem::Ruby, DependencyType::Direct),
    ]);
}

} // verus!
