//! Dart / Flutter: `pubspec.lock`.
use vstd::prelude::*;

use crate::model::{DependencyType, Ecosystem, Package, PackageView};
use crate::scanner::{bare_package, new_package, push_package};
use crate::text;

verus! {

/// What has been read of the `packages:` block so far.
pub struct PubspecState {
    pub in_packages: bool,
    pub name: Option<Seq<char>>,
    pub direct: bool,
    pub version: Option<Seq<char>>,
}

/// The package whose entry has been read, when it had both a name and a
/// version.
pub open spec fn pubspec_flush(st: PubspecState) -> Seq<PackageView> {
    match (st.name, st.version) {
        (Some(name), Some(version)) => seq![
            bare_package(
                name,
                version,
                Ecosystem::Dart,
                if st.direct {
                    DependencyType::Direct
                } else {
                    DependencyType::Transitive
                },
            ),
        ],
        _ => Seq::empty(),
    }
}

/// One line of pubspec.lock: `None` when it is a top-level key after the
/// `packages:` block (which ends it), else the state after it and the
/// package it completes.
pub open spec fn pubspec_line(line: Seq<char>, st: PubspecState) -> Option<
    (PubspecState, Seq<PackageView>),
> {
    if text::trim_end(line) == "packages:"@ {
        Some(
            (
                PubspecState {
                    in_packages: true,
                    name: st.name,
                    direct: st.direct,
                    version: st.version,
                },
                Seq::empty(),
            ),
        )
    } else if !st.in_packages {
        Some((st, Seq::empty()))
    } else if !text::starts_with(line, " "@) && text::trim(line).len() > 0 {
        None
    } else {
        let t = text::trim(line);
        if text::indent_bytes(line) == 2 && text::ends_with(t, ":"@) {
            Some(
                (
                    PubspecState {
                        in_packages: true,
                        name: Some(text::trim_char_end(t, ':')),
                        direct: false,
                        version: None,
                    },
                    pubspec_flush(st),
                ),
            )
        } else if text::indent_bytes(line) >= 4 {
            match text::strip_prefix(t, "dependency:"@) {
                Some(rest) => Some(
                    (
                        PubspecState {
                            in_packages: st.in_packages,
                            name: st.name,
                            direct: text::contains(rest, "direct"@),
                            version: st.version,
                        },
                        Seq::empty(),
                    ),
                ),
                None => match text::strip_prefix(t, "version:"@) {
                    Some(rest) => Some(
                        (
                            PubspecState {
                                in_packages: st.in_packages,
                                name: st.name,
                                direct: st.direct,
                                version: Some(text::trim_char(text::trim(rest), '"')),
                            },
                            Seq::empty(),
                        ),
                    ),
                    None => Some((st, Seq::empty())),
                },
            }
        } else {
            Some((st, Seq::empty()))
        }
    }
}

pub open spec fn pubspec_lines(ls: Seq<Seq<char>>, st: PubspecState) -> Seq<PackageView>
    decreases ls.len(),
{
    if ls.len() == 0 {
        pubspec_flush(st)
    } else {
        match pubspec_line(ls[0], st) {
            None => pubspec_flush(st),
            Some((next, found)) => found + pubspec_lines(ls.drop_first(), next),
        }
    }
}

/// The packages of a pubspec.lock, in order.
pub open spec fn pubspec_packages(raw: Seq<char>) -> Seq<PackageView> {
    pubspec_lines(
        text::lines(raw),
        PubspecState { in_packages: false, name: None, direct: false, version: None },
    )
}

pub open spec fn opt_chars(o: Option<Vec<char>>) -> Option<Seq<char>> {
    match o {
        Some(v) => Some(v@),
        None => None,
    }
}

fn flush(
    name: &Option<Vec<char>>,
    version: &Option<Vec<char>>,
    direct: bool,
    out: &mut Vec<Package>,
)
    ensures
        final(out).deep_view() == old(out).deep_view() + pubspec_flush(
            PubspecState {
                in_packages: true,
                name: opt_chars(*name),
                direct,
                version: opt_chars(*version),
            },
        ),
{
    match (name, version) {
        (Some(n), Some(v)) => {
            let dependency_type = if direct {
                DependencyType::Direct
            } else {
                DependencyType::Transitive
            };
            let p = new_package(n, v, Ecosystem::Dart, dependency_type);
            let ghost before = out.deep_view();
            push_package(out, p);
            assert(out.deep_view() =~= before + seq![p.deep_view()]);
        },
        _ => {
            assert(old(out).deep_view() + Seq::<PackageView>::empty() =~= old(out).deep_view());
        },
    }
}

/// Parse pubspec.lock, a stable subset of YAML:
///
/// ```text
/// packages:
///   http:
///     dependency: "direct main"
///     version: "1.2.0"
/// ```
pub fn parse_pubspec_lock(raw: &str) -> (packages: Vec<Package>)
    ensures
        packages.deep_view() == pubspec_packages(raw@),
{
    let chars = text::to_chars(raw);
    let lines = text::split_lines(&chars);
    let ghost ls = text::views(lines@);
    let mut packages: Vec<Package> = Vec::new();
    let mut in_packages = false;
    let mut current_name: Option<Vec<char>> = None;
    let mut current_direct = false;
    let mut current_version: Option<Vec<char>> = None;
    let mut i: usize = 0;
    assert(ls.skip(0) =~= ls);
    assert(packages.deep_view() =~= Seq::<PackageView>::empty());
    while i < lines.len()
        invariant_except_break
            i <= lines.len(),
            ls == text::views(lines@),
            ls == text::lines(raw@),
            pubspec_packages(raw@) == packages.deep_view() + pubspec_lines(
                ls.skip(i as int),
                PubspecState {
                    in_packages,
                    name: opt_chars(current_name),
                    direct: current_direct,
                    version: opt_chars(current_version),
                },
            ),
        ensures
            pubspec_packages(raw@) == packages.deep_view() + pubspec_flush(
                PubspecState {
                    in_packages,
                    name: opt_chars(current_name),
                    direct: current_direct,
                    version: opt_chars(current_version),
                },
            ),
        decreases lines.len() - i,
    {
        let ghost tail = ls.skip(i as int);
        assert(tail.drop_first() =~= ls.skip(i + 1));
        let ghost before = packages.deep_view();
        let line = &lines[i];
        let te = text::trim_end_chars(line);
        if text::eq_lit(&te, "packages:") {
            in_packages = true;
            assert(before + Seq::<PackageView>::empty() =~= before);
            i += 1;
            continue;
        }
        if !in_packages {
            assert(before + Seq::<PackageView>::empty() =~= before);
            i += 1;
            continue;
        }
        let t = text::trim_chars(line);
        if !text::starts_with_lit(line, " ") && t.len() > 0 {
            assert(tail[0] == line@);
            break;
        }
        let indent = text::indent_of(line);
        if indent == 2 && text::ends_with_lit(&t, ":") {
            flush(&current_name, &current_version, current_direct, &mut packages);
            current_name = Some(text::trim_char_end_chars(&t, ':'));
            current_direct = false;
            current_version = None;
            i += 1;
            continue;
        }
        if indent >= 4 {
            match text::strip_prefix_lit(&t, "dependency:") {
                Some(rest) => {
                    current_direct = text::contains_lit(&rest, "direct");
                },
                None => match text::strip_prefix_lit(&t, "version:") {
                    Some(rest) => {
                        let tr = text::trim_chars(&rest);
                        current_version = Some(text::trim_char_chars(&tr, '"'));
                    },
                    None => {},
                },
            }
        }
        assert(before + Seq::<PackageView>::empty() =~= before);
        i += 1;
    }
    let ghost st = PubspecState {
        in_packages,
        name: opt_chars(current_name),
        direct: current_direct,
        version: opt_chars(current_version),
    };
    assert(pubspec_flush(st) == pubspec_flush(PubspecState { in_packages: true, ..st }));
    flush(&current_name, &current_version, current_direct, &mut packages);
    packages
}


// ---------------------------------------------------------------------------
// Laws
// ---------------------------------------------------------------------------

/// One entry of a pubspec.lock, for any package name, dependency value
/// and version, gives that package, direct exactly when its dependency
/// value holds `direct` (`"direct main"`, `"direct dev"`,
/// `"direct overridden"`), transitive otherwise.
pub proof fn direct_entries_are_direct(name: Seq<char>, dep: Seq<char>, version: Seq<char>)
    requires
        name.len() > 0,
        !text::is_ws(name[0]),
        !text::is_ws(name.last()),
        name.last() != ':',
        !name.contains('\n'),
        dep.len() > 0,
        !text::is_ws(dep.last()),
        !dep.contains('\n'),
        version.len() > 0,
        version[0] != '"',
        version.last() != '"',
        !version.contains('\n'),
    ensures
        pubspec_packages(
            text::text_of_lines(
                seq![
                    "packages:"@,
                    text::spaces(2) + name + ":"@,
                    text::spaces(4) + "dependency:"@ + dep,
                    text::spaces(4) + "version: \""@ + version + "\""@,
                ],
            ),
        ) == seq![
            bare_package(
                name,
                version,
                Ecosystem::Dart,
                if text::contains(dep, "direct"@) {
                    DependencyType::Direct
                } else {
                    DependencyType::Transitive
                },
            ),
        ],
{
    reveal_strlit("packages:");
    reveal_strlit(":");
    reveal_strlit(" ");
    reveal_strlit("dependency:");
    reveal_strlit("version: \"");
    reveal_strlit("\"");
    reveal_strlit("version:");
    let l0 = "packages:"@;
    let head = name + ":"@;
    let dline = "dependency:"@ + dep;
    let quoted = "\""@ + version + "\""@;
    let vline = "version: \""@ + version + "\""@;
    let l1 = text::spaces(2) + head;
    let l2 = text::spaces(4) + dline;
    let l3 = text::spaces(4) + vline;
    let ls = seq![l0, l1, l2, l3];
    // The text's lines.
    assert(!l0.contains('\n')) by {
        if l0.contains('\n') {
            let k = choose|k: int| 0 <= k < l0.len() && l0[k] == '\n';
        }
    }
    assert(!text::spaces(2).contains('\n'));
    assert(!text::spaces(4).contains('\n'));
    assert(!":"@.contains('\n'));
    assert(!"dependency:"@.contains('\n'));
    assert(!"version: \""@.contains('\n'));
    assert(!"\""@.contains('\n'));
    text::absent_from_concat(name, ":"@, '\n');
    text::absent_from_concat(text::spaces(2), head, '\n');
    text::absent_from_concat("dependency:"@, dep, '\n');
    text::absent_from_concat(text::spaces(4), dline, '\n');
    text::absent_from_concat("version: \""@, version, '\n');
    text::absent_from_concat("version: \""@ + version, "\""@, '\n');
    text::absent_from_concat(text::spaces(4), vline, '\n');
    assert(text::is_ws('\r'));
    assert(forall|i: int| 0 <= i < ls.len() ==> text::plain_line(#[trigger] ls[i]));
    text::lines_of_text_of_lines(ls);
    // Line by line.
    text::indented_line(2, head);
    text::indented_line(4, dline);
    text::indented_line(4, vline);
    text::indented_line(1, quoted);
    assert(text::spaces(1) + quoted =~= " \""@ + version + "\""@) by {
        reveal_strlit(" \"");
    }
    let st0 = PubspecState { in_packages: false, name: None, direct: false, version: None };
    assert(text::trim_end(l0) == l0);
    let st1 = PubspecState { in_packages: true, name: None, direct: false, version: None };
    assert(pubspec_line(l0, st0) == Some((st1, Seq::<PackageView>::empty())));
    assert(text::trim_end(l1) == l1);
    assert(l1[0] == ' ');
    assert(l1 != l0);
    assert(text::starts_with(l1, " "@)) by {
        assert(l1.subrange(0, 1) =~= " "@);
    }
    assert(text::ends_with(head, ":"@)) by {
        assert(head.subrange(head.len() - 1, head.len() as int) =~= ":"@);
    }
    assert(head.drop_last() =~= name);
    assert(head.last() == ':');
    assert(text::trim_char_end(name, ':') == name);
    assert(text::trim_char_end(head, ':') == name);
    let st2 = PubspecState { in_packages: true, name: Some(name), direct: false, version: None };
    assert(pubspec_line(l1, st1) == Some((st2, Seq::<PackageView>::empty())));
    assert(text::trim_end(l2) == l2);
    assert(l2[0] == ' ');
    assert(l2 != l0);
    assert(text::starts_with(l2, " "@)) by {
        assert(l2.subrange(0, 1) =~= " "@);
    }
    assert(text::strip_prefix(dline, "dependency:"@) == Some(dep)) by {
        assert(dline.subrange(0, 11) =~= "dependency:"@);
        assert(dline.subrange(11, dline.len() as int) =~= dep);
    }
    let direct = text::contains(dep, "direct"@);
    let st3 = PubspecState { in_packages: true, name: Some(name), direct, version: None };
    assert(pubspec_line(l2, st2) == Some((st3, Seq::<PackageView>::empty())));
    assert(text::trim_end(l3) == l3);
    assert(l3[0] == ' ');
    assert(l3 != l0);
    assert(text::starts_with(l3, " "@)) by {
        assert(l3.subrange(0, 1) =~= " "@);
    }
    assert(text::strip_prefix(vline, "dependency:"@) is None) by {
        assert(vline[0] == 'v');
        if text::starts_with(vline, "dependency:"@) {
            assert(vline.subrange(0, 11)[0] == "dependency:"@[0]);
        }
    }
    let vrest = " \""@ + version + "\""@;
    assert(text::strip_prefix(vline, "version:"@) == Some(vrest)) by {
        reveal_strlit(" \"");
        assert(vline.subrange(0, 8) =~= "version:"@);
        assert(vline.subrange(8, vline.len() as int) =~= vrest);
    }
    assert(text::trim(vrest) == quoted);
    assert(quoted.drop_first() =~= version + "\""@);
    assert(quoted[0] == '"');
    assert((version + "\""@)[0] == version[0]);
    assert(text::trim_char_start(version + "\""@, '"') == version + "\""@);
    assert(text::trim_char_start(quoted, '"') == version + "\""@);
    assert((version + "\""@).drop_last() =~= version);
    assert((version + "\""@).last() == '"');
    assert(text::trim_char_end(version, '"') == version);
    assert(text::trim_char_end(version + "\""@, '"') == version);
    let st4 = PubspecState { in_packages: true, name: Some(name), direct, version: Some(version) };
    assert(pubspec_line(l3, st3) == Some((st4, Seq::<PackageView>::empty())));
    // The packages.
    assert(ls.drop_first() =~= seq![l1, l2, l3]);
    assert(seq![l1, l2, l3].drop_first() =~= seq![l2, l3]);
    assert(seq![l2, l3].drop_first() =~= seq![l3]);
    assert(seq![l3].drop_first() =~= Seq::<Seq<char>>::empty());
    assert(pubspec_lines(Seq::<Seq<char>>::empty(), st4) == pubspec_flush(st4));
    assert(Seq::<PackageView>::empty() + pubspec_flush(st4) =~= pubspec_flush(st4));
    assert(pubspec_lines(seq![l3], st3) =~= pubspec_flush(st4));
    assert(pubspec_lines(seq![l2, l3], st2) =~= pubspec_flush(st4));
    assert(pubspec_lines(seq![l1, l2, l3], st1) =~= pubspec_flush(st4));
    assert(pubspec_lines(ls, st0) =~= pubspec_flush(st4));
    assert(pubspec_packages(text::text_of_lines(ls)) == pubspec_lines(ls, st0));
    let stated = seq![
        "packages:"@,
        text::spaces(2) + name + ":"@,
        text::spaces(4) + "dependency:"@ + dep,
        text::spaces(4) + "version: \""@ + version + "\""@,
    ];
    assert(stated[1] =~= l1);
    assert(stated[2] =~= l2);
    assert(stated[3] =~= l3);
    assert(stated =~= ls);
    let t = if direct {
        DependencyType::Direct
    } else {
        DependencyType::Transitive
    };
    assert(pubspec_flush(st4) =~= seq![bare_package(name, version, Ecosystem::Dart, t)]);
}

} // verus!
