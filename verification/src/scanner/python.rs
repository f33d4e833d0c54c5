//! Python: poetry.lock, requirements.txt, pyproject.toml and wheel METADATA.
use vstd::prelude::*;

use crate::json::{self, JsonValue, json_document};
use crate::model::{DependencyType, Ecosystem, Package, PackageView};
use crate::scanner::java::lemma_find_in_range;
use crate::scanner::{bare_package, new_package, push_package};
use crate::text;

verus! {

/// A Python dependency with no license information yet.
pub open spec fn python_package(name: Seq<char>, version: Seq<char>) -> PackageView {
    bare_package(name, version, Ecosystem::Python, DependencyType::Transitive)
}

/// PyPI treats `-`, `_`, and `.` as equivalent and names as case-insensitive.
pub open spec fn normalized_char(c: char) -> char {
    if c == '-' || c == '.' {
        '_'
    } else {
        c
    }
}

pub open spec fn normalized_name(name: Seq<char>) -> Seq<char> {
    text::lowercase(name).map_values(|c: char| normalized_char(c))
}

/// A character that may appear in a PEP 508 package name.
pub open spec fn is_name_char(c: char) -> bool {
    text::unicode_alphanumeric(c) || c == '-' || c == '_' || c == '.'
}

/// The package name at the start of a PEP 508 requirement spec.
pub open spec fn requirement_name_of(s: Seq<char>) -> Seq<char>
    decreases s.len(),
{
    if s.len() > 0 && is_name_char(s[0]) {
        seq![s[0]] + requirement_name_of(s.drop_first())
    } else {
        Seq::empty()
    }
}

/// All double-quoted strings of `rest`, in order.
pub open spec fn quoted_strings(rest: Seq<char>) -> Seq<Seq<char>>
    decreases rest.len(),
{
    match text::find(rest, seq!['"']) {
        None => Seq::empty(),
        Some(start) => {
            proof {
                lemma_find_in_range(rest, seq!['"']);
            }
            let after = rest.subrange(start + 1, rest.len() as int);
            match text::find(after, seq!['"']) {
                None => Seq::empty(),
                Some(end) => {
                    proof {
                        lemma_find_in_range(after, seq!['"']);
                    }
                    seq![after.subrange(0, end)] + quoted_strings(
                        after.subrange(end + 1, after.len() as int),
                    )
                },
            }
        },
    }
}

fn normalize_chars(name: &[char]) -> (r: Vec<char>)
    ensures
        r@ == normalized_name(name@),
{
    let lower = text::to_lowercase(name);
    let mut r: Vec<char> = Vec::new();
    let mut i: usize = 0;
    while i < lower.len()
        invariant
            i <= lower.len(),
            r@ == lower@.take(i as int).map_values(|c: char| normalized_char(c)),
        decreases lower.len() - i,
    {
        let c = lower[i];
        r.push(if c == '-' || c == '.' { '_' } else { c });
        i += 1;
        assert(r@ =~= lower@.take(i as int).map_values(|c: char| normalized_char(c)));
    }
    assert(lower@.take(lower.len() as int) =~= lower@);
    r
}

/// PyPI treats `-`, `_`, and `.` as equivalent and names as case-insensitive.
pub fn normalize_name(name: &str) -> (r: String)
    ensures
        r@ == normalized_name(name@),
{
    let chars = text::to_chars(name);
    let n = normalize_chars(&chars);
    text::from_chars(&n)
}

fn requirement_name_chars(s: &[char]) -> (r: Vec<char>)
    ensures
        r@ == requirement_name_of(s@),
{
    let mut i: usize = 0;
    assert(s@.skip(0) =~= s@);
    while i < s.len() && (text::char_is_alphanumeric(s[i]) || s[i] == '-' || s[i] == '_' || s[i]
        == '.')
        invariant
            i <= s.len(),
            requirement_name_of(s@) == s@.take(i as int) + requirement_name_of(s@.skip(i as int)),
        decreases s.len() - i,
    {
        assert(s@.skip(i as int).drop_first() =~= s@.skip(i + 1));
        assert(s@.take(i + 1) =~= s@.take(i as int) + seq![s@[i as int]]);
        i += 1;
    }
    assert(s@.take(i as int) =~= s@.subrange(0, i as int));
    assert(requirement_name_of(s@.skip(i as int)) =~= Seq::<char>::empty());
    text::slice(s, 0, i)
}

/// Package name from a PEP 508 requirement spec ("requests>=2.31,<3").
pub fn requirement_name(spec: &str) -> (r: String)
    ensures
        r@ == requirement_name_of(spec@),
{
    let chars = text::to_chars(spec);
    let n = requirement_name_chars(&chars);
    text::from_chars(&n)
}

fn quoted_chars(line: &[char]) -> (r: Vec<Vec<char>>)
    ensures
        text::views(r@) == quoted_strings(line@),
{
    let mut out: Vec<Vec<char>> = Vec::new();
    let mut rest = text::copy(line);
    let mut quote: Vec<char> = Vec::new();
    quote.push('"');
    assert(quote@ =~= seq!['"']);
    assert(text::views(out@) =~= Seq::<Seq<char>>::empty());
    loop
        invariant
            quote@ == seq!['"'],
            quoted_strings(line@) == text::views(out@) + quoted_strings(rest@),
        ensures
            quoted_strings(rest@) == Seq::<Seq<char>>::empty(),
        decreases rest.len(),
    {
        let start = match text::find_chars(&rest, &quote) {
            None => break,
            Some(s) => s,
        };
        proof {
            lemma_find_in_range(rest@, quote@);
        }
        let after = text::slice(&rest, start + 1, rest.len());
        let end = match text::find_chars(&after, &quote) {
            None => break,
            Some(e) => e,
        };
        proof {
            lemma_find_in_range(after@, quote@);
        }
        let piece = text::slice(&after, 0, end);
        let ghost before = text::views(out@);
        let ghost pv = piece@;
        out.push(piece);
        assert(text::views(out@) =~= before + seq![pv]);
        rest = text::slice(&after, end + 1, after.len());
        assert(text::views(out@) + quoted_strings(rest@) =~= before + (seq![pv] + quoted_strings(
            rest@,
        )));
    }
    assert(text::views(out@) + Seq::<Seq<char>>::empty() =~= text::views(out@));
    out
}

/// All double-quoted strings on a line.
pub fn extract_quoted(line: &str) -> (r: Vec<String>)
    ensures
        r@.map_values(|s: String| s@) == quoted_strings(line@),
{
    let chars = text::to_chars(line);
    let pieces = quoted_chars(&chars);
    let mut out: Vec<String> = Vec::new();
    let mut i: usize = 0;
    while i < pieces.len()
        invariant
            i <= pieces.len(),
            out@.map_values(|s: String| s@) == text::views(pieces@).take(i as int),
        decreases pieces.len() - i,
    {
        let ghost before = out@;
        let s = text::from_chars(&pieces[i]);
        out.push(s);
        assert(out@.map_values(|s: String| s@) =~= before.map_values(|s: String| s@).push(s@));
        assert(text::views(pieces@).take(i + 1) =~= text::views(pieces@).take(i as int).push(
            pieces@[i as int]@,
        ));
        i += 1;
    }
    assert(text::views(pieces@).take(pieces.len() as int) =~= text::views(pieces@));
    out
}

// ---------------------------------------------------------------------------
// METADATA
// ---------------------------------------------------------------------------

/// The license of the METADATA header lines `ls`: the first non-empty
/// `License:` value other than `UNKNOWN`, else the first trove classifier
/// `License :: ... :: <name>` seen (`classifier`), reading up to the first
/// blank line.
pub open spec fn metadata_lines(ls: Seq<Seq<char>>, classifier: Option<Seq<char>>) -> Option<
    Seq<char>,
>
    decreases ls.len(),
{
    if ls.len() == 0 || ls[0].len() == 0 {
        classifier
    } else {
        let line = ls[0];
        let header = match text::strip_prefix(line, "License:"@) {
            Some(v) => {
                let v = text::trim(v);
                if v.len() > 0 && !text::eq_ignore_ascii_case(v, "unknown"@) {
                    Some(v)
                } else {
                    None
                }
            },
            None => None,
        };
        match header {
            Some(v) => Some(v),
            None => {
                let next = match text::strip_prefix(line, "Classifier: License ::"@) {
                    Some(v) => {
                        let last = text::trim(text::last_piece(v, "::"@));
                        if last.len() > 0 && classifier is None {
                            Some(last)
                        } else {
                            classifier
                        }
                    },
                    None => classifier,
                };
                metadata_lines(ls.drop_first(), next)
            },
        }
    }
}

pub open spec fn metadata_license(raw: Seq<char>) -> Option<Seq<char>> {
    metadata_lines(text::lines(raw), None)
}

/// License from a wheel's METADATA: prefers the `License:` header, falls
/// back to trove classifiers
/// (`Classifier: License :: OSI Approved :: MIT License`).
pub fn parse_metadata_license(raw: &str) -> (r: Option<String>)
    ensures
        crate::model::opt_view(r) == metadata_license(raw@),
{
    let chars = text::to_chars(raw);
    let lines = text::split_lines(&chars);
    let ghost ls = text::views(lines@);
    let mut classifier: Option<Vec<char>> = None;
    let unknown = text::to_chars("unknown");
    let mut i: usize = 0;
    assert(ls.skip(0) =~= ls);
    while i < lines.len()
        invariant
            i <= lines.len(),
            ls == text::views(lines@),
            ls == text::lines(raw@),
            unknown@ == "unknown"@,
            metadata_license(raw@) == metadata_lines(
                ls.skip(i as int),
                crate::scanner::dart::opt_chars(classifier),
            ),
        ensures
            metadata_license(raw@) == crate::scanner::dart::opt_chars(classifier),
        decreases lines.len() - i,
    {
        let ghost tail = ls.skip(i as int);
        assert(tail.drop_first() =~= ls.skip(i + 1));
        let line = &lines[i];
        if line.len() == 0 {
            assert(tail[0].len() == 0);
            break;
        }
        if let Some(v) = text::strip_prefix_lit(line, "License:") {
            let value = text::trim_chars(&v);
            if value.len() > 0 && !text::eq_ignore_ascii_case_chars(&value, &unknown) {
                return Some(text::from_chars(&value));
            }
        }
        if let Some(v) = text::strip_prefix_lit(line, "Classifier: License ::") {
            let piece = text::last_piece_lit(&v, "::");
            let last = text::trim_chars(&piece);
            if last.len() > 0 && classifier.is_none() {
                classifier = Some(last);
            }
        }
        i += 1;
    }
    match classifier {
        Some(c) => Some(text::from_chars(&c)),
        None => None,
    }
}

// ---------------------------------------------------------------------------
// poetry.lock
// ---------------------------------------------------------------------------

/// The package whose entry has been read, when it had a name and a version.
pub open spec fn poetry_flush(name: Option<Seq<char>>, version: Option<Seq<char>>) -> Seq<
    PackageView,
> {
    match (name, version) {
        (Some(n), Some(v)) => seq![python_package(n, v)],
        _ => Seq::empty(),
    }
}

pub open spec fn poetry_lines(
    ls: Seq<Seq<char>>,
    name: Option<Seq<char>>,
    version: Option<Seq<char>>,
) -> Seq<PackageView>
    decreases ls.len(),
{
    if ls.len() == 0 {
        poetry_flush(name, version)
    } else {
        let t = text::trim(ls[0]);
        if t == "[[package]]"@ {
            poetry_flush(name, version) + poetry_lines(ls.drop_first(), None, None)
        } else {
            match text::strip_prefix(t, "name = "@) {
                Some(r) => poetry_lines(ls.drop_first(), Some(text::trim_char(r, '"')), version),
                None => match text::strip_prefix(t, "version = "@) {
                    Some(r) => poetry_lines(ls.drop_first(), name, Some(text::trim_char(r, '"'))),
                    None => poetry_lines(ls.drop_first(), name, version),
                },
            }
        }
    }
}

/// The `[[package]]` entries of a poetry.lock, in order.
pub open spec fn poetry_packages(raw: Seq<char>) -> Seq<PackageView> {
    poetry_lines(text::lines(raw), None, None)
}

fn flush_poetry(name: &Option<Vec<char>>, version: &Option<Vec<char>>, out: &mut Vec<Package>)
    ensures
        final(out).deep_view() == old(out).deep_view() + poetry_flush(
            crate::scanner::dart::opt_chars(*name),
            crate::scanner::dart::opt_chars(*version),
        ),
{
    match (name, version) {
        (Some(n), Some(v)) => {
            let p = new_package(n, v, Ecosystem::Python, DependencyType::Transitive);
            let ghost before = out.deep_view();
            push_package(out, p);
            assert(out.deep_view() =~= before + seq![p.deep_view()]);
        },
        _ => {
            assert(old(out).deep_view() + Seq::<PackageView>::empty() =~= old(out).deep_view());
        },
    }
}

/// The `[[package]]` entries of a poetry.lock.
pub fn parse_poetry_lock(raw: &str) -> (packages: Vec<Package>)
    ensures
        packages.deep_view() == poetry_packages(raw@),
{
    let chars = text::to_chars(raw);
    let lines = text::split_lines(&chars);
    let ghost ls = text::views(lines@);
    let mut packages: Vec<Package> = Vec::new();
    let mut name: Option<Vec<char>> = None;
    let mut version: Option<Vec<char>> = None;
    let mut i: usize = 0;
    assert(ls.skip(0) =~= ls);
    assert(packages.deep_view() =~= Seq::<PackageView>::empty());
    while i < lines.len()
        invariant
            i <= lines.len(),
            ls == text::views(lines@),
            ls == text::lines(raw@),
            poetry_packages(raw@) == packages.deep_view() + poetry_lines(
                ls.skip(i as int),
                crate::scanner::dart::opt_chars(name),
                crate::scanner::dart::opt_chars(version),
            ),
        decreases lines.len() - i,
    {
        let ghost tail = ls.skip(i as int);
        assert(tail.drop_first() =~= ls.skip(i + 1));
        let ghost before = packages.deep_view();
        let t = text::trim_chars(&lines[i]);
        if text::eq_lit(&t, "[[package]]") {
            flush_poetry(&name, &version, &mut packages);
            name = None;
            version = None;
        } else if let Some(r) = text::strip_prefix_lit(&t, "name = ") {
            name = Some(text::trim_char_chars(&r, '"'));
        } else if let Some(r) = text::strip_prefix_lit(&t, "version = ") {
            version = Some(text::trim_char_chars(&r, '"'));
        }
        i += 1;
    }
    flush_poetry(&name, &version, &mut packages);
    assert(ls.skip(lines.len() as int) =~= Seq::<Seq<char>>::empty());
    packages
}


// ---------------------------------------------------------------------------
// requirements.txt
// ---------------------------------------------------------------------------

/// The prefix of `s` before its first `;`, space or `#`.
pub open spec fn until_marker(s: Seq<char>) -> Seq<char>
    decreases s.len(),
{
    if s.len() > 0 && s[0] != ';' && s[0] != ' ' && s[0] != '#' {
        seq![s[0]] + until_marker(s.drop_first())
    } else {
        Seq::empty()
    }
}

/// The package pinned on one requirements.txt line, if any: only
/// `name==version` lines count; comments, options and unpinned specs do not.
pub open spec fn requirement_line(line: Seq<char>) -> Seq<PackageView> {
    let t = text::trim(line);
    if t.len() == 0 || text::starts_with(t, "#"@) || text::starts_with(t, "-"@) {
        Seq::empty()
    } else {
        match text::split_once(t, "=="@) {
            None => Seq::empty(),
            Some((n, v)) => {
                let version = text::trim(until_marker(v));
                let name = requirement_name_of(text::trim(n));
                if name.len() > 0 && version.len() > 0 {
                    seq![python_package(name, version)]
                } else {
                    Seq::empty()
                }
            },
        }
    }
}

pub open spec fn requirement_lines(ls: Seq<Seq<char>>) -> Seq<PackageView>
    decreases ls.len(),
{
    if ls.len() == 0 {
        Seq::empty()
    } else {
        requirement_line(ls[0]) + requirement_lines(ls.drop_first())
    }
}

fn until_marker_chars(s: &[char]) -> (r: Vec<char>)
    ensures
        r@ == until_marker(s@),
{
    let mut i: usize = 0;
    assert(s@.skip(0) =~= s@);
    while i < s.len() && s[i] != ';' && s[i] != ' ' && s[i] != '#'
        invariant
            i <= s.len(),
            until_marker(s@) == s@.take(i as int) + until_marker(s@.skip(i as int)),
        decreases s.len() - i,
    {
        assert(s@.skip(i as int).drop_first() =~= s@.skip(i + 1));
        assert(s@.take(i + 1) =~= s@.take(i as int) + seq![s@[i as int]]);
        i += 1;
    }
    assert(until_marker(s@.skip(i as int)) =~= Seq::<char>::empty());
    assert(s@.take(i as int) =~= s@.subrange(0, i as int));
    text::slice(s, 0, i)
}

fn push_requirement_line(line: &[char], out: &mut Vec<Package>)
    ensures
        final(out).deep_view() == old(out).deep_view() + requirement_line(line@),
{
    assert(old(out).deep_view() + Seq::<PackageView>::empty() =~= old(out).deep_view());
    let t = text::trim_chars(line);
    if t.len() == 0 || text::starts_with_lit(&t, "#") || text::starts_with_lit(&t, "-") {
        return ;
    }
    let (n, v) = match text::split_once_lit(&t, "==") {
        None => return ,
        Some(p) => p,
    };
    let head = until_marker_chars(&v);
    let version = text::trim_chars(&head);
    let tn = text::trim_chars(&n);
    let name = requirement_name_chars(&tn);
    if name.len() > 0 && version.len() > 0 {
        let p = new_package(&name, &version, Ecosystem::Python, DependencyType::Transitive);
        let ghost before = out.deep_view();
        push_package(out, p);
        assert(out.deep_view() =~= before + seq![p.deep_view()]);
    }
}

/// Parse `requirements.txt`: only pinned `name==version` lines yield
/// packages; comments, options, and unpinned specs are skipped.
pub fn parse_requirements(raw: &str) -> (packages: Vec<Package>)
    ensures
        packages.deep_view() == requirement_lines(text::lines(raw@)),
{
    let chars = text::to_chars(raw);
    let lines = text::split_lines(&chars);
    let ghost ls = text::views(lines@);
    let mut packages: Vec<Package> = Vec::new();
    let mut i: usize = 0;
    assert(ls.skip(0) =~= ls);
    assert(packages.deep_view() =~= Seq::<PackageView>::empty());
    while i < lines.len()
        invariant
            i <= lines.len(),
            ls == text::views(lines@),
            ls == text::lines(raw@),
            requirement_lines(ls) == packages.deep_view() + requirement_lines(ls.skip(i as int)),
        decreases lines.len() - i,
    {
        let ghost tail = ls.skip(i as int);
        assert(tail.drop_first() =~= ls.skip(i + 1));
        let ghost before = packages.deep_view();
        push_requirement_line(&lines[i], &mut packages);
        assert(before + requirement_lines(tail) =~= packages.deep_view() + requirement_lines(
            ls.skip(i + 1),
        ));
        i += 1;
    }
    assert(ls.skip(lines.len() as int) =~= Seq::<Seq<char>>::empty());
    assert(packages.deep_view() + Seq::<PackageView>::empty() =~= packages.deep_view());
    packages
}

// ---------------------------------------------------------------------------
// pyproject.toml
// ---------------------------------------------------------------------------

/// Whether `s`, read with `quoted` telling whether a double-quoted string
/// is open, holds a `]` outside every double-quoted string: the end of a
/// TOML array, not a bracket of a requirement's extras.
pub open spec fn closes_array(s: Seq<char>, quoted: bool) -> bool
    decreases s.len(),
{
    if s.len() == 0 {
        false
    } else if s[0] == '"' {
        closes_array(s.drop_first(), !quoted)
    } else if s[0] == ']' && !quoted {
        true
    } else {
        closes_array(s.drop_first(), quoted)
    }
}

fn closes_array_chars(t: &[char]) -> (r: bool)
    ensures
        r == closes_array(t@, false),
{
    let mut quoted = false;
    let mut i: usize = 0;
    assert(t@.skip(0) =~= t@);
    while i < t.len()
        invariant
            i <= t.len(),
            closes_array(t@, false) == closes_array(t@.skip(i as int), quoted),
        decreases t.len() - i,
    {
        assert(t@.skip(i as int).drop_first() =~= t@.skip(i + 1));
        assert(t@.skip(i as int)[0] == t@[i as int]);
        if t[i] == '"' {
            quoted = !quoted;
        } else if t[i] == ']' && !quoted {
            return true;
        }
        i += 1;
    }
    false
}

/// The normalized names of the quoted requirement specs of a line.
pub open spec fn spec_names(t: Seq<char>) -> Seq<Seq<char>> {
    quoted_strings(t).map_values(|q: Seq<char>| normalized_name(requirement_name_of(q)))
}

/// One pyproject.toml line read in table `section`, inside (`in_deps`) or
/// outside a multi-line PEP 621 `dependencies` array (which a `]` outside
/// quotes closes): the table and state after it, and the direct dependency
/// names it adds.
pub open spec fn pyproject_line(line: Seq<char>, section: Seq<char>, in_deps: bool) -> (
    Seq<char>,
    bool,
    Seq<Seq<char>>,
) {
    let t = text::trim(line);
    if text::starts_with(t, "["@) {
        (text::trim_pair(t, '[', ']'), false, Seq::empty())
    } else if section == "project"@ && text::starts_with(t, "dependencies"@) && text::has_char(
        t,
        '[',
    ) {
        (section, !closes_array(t, false), spec_names(t))
    } else if in_deps {
        (section, !closes_array(t, false), spec_names(t))
    } else if section == "tool.poetry.dependencies"@ || section
        == "tool.poetry.dev-dependencies"@ {
        match text::split_once(t, "="@) {
            Some((name, _)) => {
                let n = text::trim(name);
                if n.len() > 0 && n != "python"@ {
                    (section, in_deps, seq![normalized_name(n)])
                } else {
                    (section, in_deps, Seq::empty())
                }
            },
            None => (section, in_deps, Seq::empty()),
        }
    } else {
        (section, in_deps, Seq::empty())
    }
}

pub open spec fn pyproject_lines(ls: Seq<Seq<char>>, section: Seq<char>, in_deps: bool) -> Seq<
    Seq<char>,
>
    decreases ls.len(),
{
    if ls.len() == 0 {
        Seq::empty()
    } else {
        let (s, d, names) = pyproject_line(ls[0], section, in_deps);
        names + pyproject_lines(ls.drop_first(), s, d)
    }
}

/// The direct dependency names of a pyproject.toml, normalized, in order:
/// the PEP 621 `[project] dependencies` array and Poetry's
/// `[tool.poetry.dependencies]` / `[tool.poetry.dev-dependencies]` tables.
pub open spec fn pyproject_direct(raw: Seq<char>) -> Seq<Seq<char>> {
    pyproject_lines(text::lines(raw), Seq::empty(), false)
}

fn push_spec_names(t: &[char], out: &mut Vec<String>)
    ensures
        final(out)@.map_values(|s: String| s@) == old(out)@.map_values(|s: String| s@)
            + spec_names(t@),
{
    let quoted = quoted_chars(t);
    let ghost qs = text::views(quoted@);
    let ghost start = out@.map_values(|s: String| s@);
    let mut k: usize = 0;
    while k < quoted.len()
        invariant
            k <= quoted.len(),
            qs == text::views(quoted@),
            qs == quoted_strings(t@),
            out@.map_values(|s: String| s@) == start + qs.take(k as int).map_values(
                |q: Seq<char>| normalized_name(requirement_name_of(q)),
            ),
        decreases quoted.len() - k,
    {
        let ghost before = out@;
        let rn = requirement_name_chars(&quoted[k]);
        let nn = normalize_chars(&rn);
        let s = text::from_chars(&nn);
        out.push(s);
        assert(out@.map_values(|s: String| s@) =~= before.map_values(|s: String| s@).push(s@));
        assert(qs.take(k + 1) =~= qs.take(k as int).push(qs[k as int]));
        assert(qs.take(k + 1).map_values(|q: Seq<char>| normalized_name(requirement_name_of(q)))
            =~= qs.take(k as int).map_values(
            |q: Seq<char>| normalized_name(requirement_name_of(q)),
        ).push(normalized_name(requirement_name_of(qs[k as int]))));
        k += 1;
    }
    assert(qs.take(quoted.len() as int) =~= qs);
}

/// Direct dependency names from `pyproject.toml`: both the PEP 621
/// `[project] dependencies` array and Poetry's
/// `[tool.poetry.dependencies]` table, normalized.
pub fn pyproject_direct_dependencies(raw: &str) -> (direct: Vec<String>)
    ensures
        direct@.map_values(|s: String| s@) == pyproject_direct(raw@),
{
    let chars = text::to_chars(raw);
    let lines = text::split_lines(&chars);
    let ghost ls = text::views(lines@);
    let mut direct: Vec<String> = Vec::new();
    let mut section: Vec<char> = Vec::new();
    let mut in_deps = false;
    let mut i: usize = 0;
    assert(ls.skip(0) =~= ls);
    assert(direct@.map_values(|s: String| s@) =~= Seq::<Seq<char>>::empty());
    while i < lines.len()
        invariant
            i <= lines.len(),
            ls == text::views(lines@),
            ls == text::lines(raw@),
            pyproject_direct(raw@) == direct@.map_values(|s: String| s@) + pyproject_lines(
                ls.skip(i as int),
                section@,
                in_deps,
            ),
        decreases lines.len() - i,
    {
        let ghost tail = ls.skip(i as int);
        assert(tail.drop_first() =~= ls.skip(i + 1));
        let ghost before = direct@.map_values(|s: String| s@);
        let t = text::trim_chars(&lines[i]);
        if text::starts_with_lit(&t, "[") {
            section = text::trim_pair_chars(&t, '[', ']');
            in_deps = false;
            assert(before + Seq::<Seq<char>>::empty() =~= before);
        } else if text::eq_lit(&section, "project") && text::starts_with_lit(&t, "dependencies")
            && text::has_char_exec(&t, '[') {
            in_deps = !closes_array_chars(&t);
            push_spec_names(&t, &mut direct);
        } else if in_deps {
            in_deps = !closes_array_chars(&t);
            push_spec_names(&t, &mut direct);
        } else if text::eq_lit(&section, "tool.poetry.dependencies") || text::eq_lit(
            &section,
            "tool.poetry.dev-dependencies",
        ) {
            match text::split_once_lit(&t, "=") {
                Some((name, _)) => {
                    let n = text::trim_chars(&name);
                    if n.len() > 0 && !text::eq_lit(&n, "python") {
                        let nn = normalize_chars(&n);
                        let s = text::from_chars(&nn);
                        let ghost b = direct@;
                        direct.push(s);
                        assert(direct@.map_values(|s: String| s@) =~= b.map_values(
                            |s: String| s@,
                        ).push(s@));
                    } else {
                        assert(before + Seq::<Seq<char>>::empty() =~= before);
                    }
                },
                None => {
                    assert(before + Seq::<Seq<char>>::empty() =~= before);
                },
            }
        } else {
            assert(before + Seq::<Seq<char>>::empty() =~= before);
        }
        i += 1;
    }
    assert(ls.skip(lines.len() as int) =~= Seq::<Seq<char>>::empty());
    assert(direct@.map_values(|s: String| s@) + Seq::<Seq<char>>::empty() =~= direct@.map_values(
        |s: String| s@,
    ));
    direct
}

// ---------------------------------------------------------------------------
// Declared dependencies of a project without a lockfile
// ---------------------------------------------------------------------------

/// What follows the package name of a PEP 508 requirement spec.
pub open spec fn after_name(s: Seq<char>) -> Seq<char>
    decreases s.len(),
{
    if s.len() > 0 && is_name_char(s[0]) {
        after_name(s.drop_first())
    } else {
        s
    }
}

/// `s` up to its first `;` (where an environment marker begins).
pub open spec fn before_semicolon(s: Seq<char>) -> Seq<char>
    decreases s.len(),
{
    if s.len() > 0 && s[0] != ';' {
        seq![s[0]] + before_semicolon(s.drop_first())
    } else {
        Seq::empty()
    }
}

/// The version specifier of a PEP 508 requirement spec: what follows the
/// name and its `[extras]`, up to an environment marker, trimmed; `*`
/// when there is none.
pub open spec fn version_specifier(q: Seq<char>) -> Seq<char> {
    let rest = after_name(q);
    let tail = if rest.len() > 0 && rest[0] == '[' {
        match text::find(rest, "]"@) {
            Some(i) => rest.subrange(i + 1, rest.len() as int),
            None => rest,
        }
    } else {
        rest
    };
    let v = text::trim(before_semicolon(tail));
    if v.len() == 0 {
        "*"@
    } else {
        v
    }
}

/// A dependency that pyproject.toml declares: direct, with its version
/// specifier standing for the version.
pub open spec fn declared_package(name: Seq<char>, version: Seq<char>) -> PackageView {
    bare_package(name, version, Ecosystem::Python, DependencyType::Direct)
}

/// The packages the quoted requirement specs `qs` declare, in order; a
/// spec without a name declares none.
pub open spec fn declared_specs(qs: Seq<Seq<char>>) -> Seq<PackageView>
    decreases qs.len(),
{
    if qs.len() == 0 {
        Seq::empty()
    } else {
        let q = qs.last();
        declared_specs(qs.drop_last()) + if requirement_name_of(q).len() > 0 {
            seq![declared_package(requirement_name_of(q), version_specifier(q))]
        } else {
            Seq::empty()
        }
    }
}

/// The version of a Poetry dependency entry's value: a quoted constraint,
/// or the `version` of an inline table; `*` when there is none.
pub open spec fn poetry_version(value: Seq<char>) -> Seq<char> {
    let v = text::trim(value);
    let found = if text::starts_with(v, "{"@) {
        match text::find(v, "version"@) {
            Some(i) => {
                let qs = quoted_strings(v.subrange(i, v.len() as int));
                if qs.len() > 0 {
                    qs[0]
                } else {
                    Seq::empty()
                }
            },
            None => Seq::empty(),
        }
    } else {
        text::trim_char(v, '"')
    };
    if found.len() == 0 {
        "*"@
    } else {
        found
    }
}

/// One pyproject.toml line, read as in [`pyproject_line`], with the
/// packages it declares.
pub open spec fn declared_line(line: Seq<char>, section: Seq<char>, in_deps: bool) -> (
    Seq<char>,
    bool,
    Seq<PackageView>,
) {
    let t = text::trim(line);
    if text::starts_with(t, "["@) {
        (text::trim_pair(t, '[', ']'), false, Seq::empty())
    } else if section == "project"@ && text::starts_with(t, "dependencies"@) && text::has_char(
        t,
        '[',
    ) {
        (section, !closes_array(t, false), declared_specs(quoted_strings(t)))
    } else if in_deps {
        (section, !closes_array(t, false), declared_specs(quoted_strings(t)))
    } else if section == "tool.poetry.dependencies"@ || section
        == "tool.poetry.dev-dependencies"@ {
        match text::split_once(t, "="@) {
            Some((name, value)) => {
                let n = text::trim(name);
                if n.len() > 0 && n != "python"@ {
                    (section, in_deps, seq![declared_package(n, poetry_version(value))])
                } else {
                    (section, in_deps, Seq::empty())
                }
            },
            None => (section, in_deps, Seq::empty()),
        }
    } else {
        (section, in_deps, Seq::empty())
    }
}

pub open spec fn declared_lines(ls: Seq<Seq<char>>, section: Seq<char>, in_deps: bool) -> Seq<
    PackageView,
>
    decreases ls.len(),
{
    if ls.len() == 0 {
        Seq::empty()
    } else {
        let (s, d, found) = declared_line(ls[0], section, in_deps);
        found + declared_lines(ls.drop_first(), s, d)
    }
}

/// The dependencies a pyproject.toml declares, in order: the PEP 621
/// `[project] dependencies` array and Poetry's dependency tables, each
/// direct, with its version specifier.
pub open spec fn pyproject_declared(raw: Seq<char>) -> Seq<PackageView> {
    declared_lines(text::lines(raw), Seq::empty(), false)
}

fn after_name_chars(s: &[char]) -> (r: Vec<char>)
    ensures
        r@ == after_name(s@),
{
    let mut i: usize = 0;
    assert(s@.skip(0) =~= s@);
    while i < s.len() && (text::char_is_alphanumeric(s[i]) || s[i] == '-' || s[i] == '_' || s[i]
        == '.')
        invariant
            i <= s.len(),
            after_name(s@) == after_name(s@.skip(i as int)),
        decreases s.len() - i,
    {
        assert(s@.skip(i as int).drop_first() =~= s@.skip(i + 1));
        i += 1;
    }
    assert(s@.subrange(i as int, s@.len() as int) =~= s@.skip(i as int));
    text::slice(s, i, s.len())
}

fn before_semicolon_chars(s: &[char]) -> (r: Vec<char>)
    ensures
        r@ == before_semicolon(s@),
{
    let mut i: usize = 0;
    assert(s@.skip(0) =~= s@);
    while i < s.len() && s[i] != ';'
        invariant
            i <= s.len(),
            before_semicolon(s@) == s@.take(i as int) + before_semicolon(s@.skip(i as int)),
        decreases s.len() - i,
    {
        assert(s@.skip(i as int).drop_first() =~= s@.skip(i + 1));
        assert(s@.take(i + 1) =~= s@.take(i as int) + seq![s@[i as int]]);
        i += 1;
    }
    assert(before_semicolon(s@.skip(i as int)) =~= Seq::<char>::empty());
    assert(s@.take(i as int) =~= s@.subrange(0, i as int));
    text::slice(s, 0, i)
}

fn star_if_empty(v: Vec<char>) -> (r: Vec<char>)
    ensures
        r@ == (if v@.len() == 0 {
            "*"@
        } else {
            v@
        }),
{
    if v.len() == 0 {
        let r = text::to_chars("*");
        r
    } else {
        v
    }
}

fn version_specifier_chars(q: &[char]) -> (r: Vec<char>)
    ensures
        r@ == version_specifier(q@),
{
    let rest = after_name_chars(q);
    let tail = if rest.len() > 0 && rest[0] == '[' {
        match text::find_lit(&rest, "]") {
            Some(i) => {
                proof {
                    lemma_find_in_range(rest@, "]"@);
                    reveal_strlit("]");
                }
                text::slice(&rest, i + 1, rest.len())
            },
            None => rest,
        }
    } else {
        rest
    };
    let v = text::trim_chars(&before_semicolon_chars(&tail));
    star_if_empty(v)
}

fn poetry_version_chars(value: &[char]) -> (r: Vec<char>)
    ensures
        r@ == poetry_version(value@),
{
    let v = text::trim_chars(value);
    let found: Vec<char> = if text::starts_with_lit(&v, "{") {
        match text::find_lit(&v, "version") {
            Some(i) => {
                proof {
                    lemma_find_in_range(v@, "version"@);
                }
                let tail = text::slice(&v, i, v.len());
                let qs = quoted_chars(&tail);
                if qs.len() > 0 {
                    assert(text::views(qs@)[0] == qs@[0]@);
                    text::copy(&qs[0])
                } else {
                    Vec::new()
                }
            },
            None => Vec::new(),
        }
    } else {
        text::trim_char_chars(&v, '"')
    };
    star_if_empty(found)
}

fn push_declared_specs(t: &[char], out: &mut Vec<Package>)
    ensures
        final(out).deep_view() == old(out).deep_view() + declared_specs(quoted_strings(t@)),
{
    let quoted = quoted_chars(t);
    let ghost qs = text::views(quoted@);
    let ghost start = out.deep_view();
    let mut k: usize = 0;
    assert(qs.take(0) =~= Seq::<Seq<char>>::empty());
    assert(start + Seq::<PackageView>::empty() =~= start);
    while k < quoted.len()
        invariant
            k <= quoted.len(),
            qs == text::views(quoted@),
            qs == quoted_strings(t@),
            out.deep_view() == start + declared_specs(qs.take(k as int)),
        decreases quoted.len() - k,
    {
        assert(qs.take(k + 1).drop_last() =~= qs.take(k as int));
        assert(qs.take(k + 1).last() == quoted@[k as int]@);
        let name = requirement_name_chars(&quoted[k]);
        let ghost before = out.deep_view();
        if name.len() > 0 {
            let version = version_specifier_chars(&quoted[k]);
            let p = new_package(&name, &version, Ecosystem::Python, DependencyType::Direct);
            push_package(out, p);
        } else {
            assert(before + Seq::<PackageView>::empty() =~= before);
        }
        assert(out.deep_view() =~= start + declared_specs(qs.take(k + 1)));
        k += 1;
    }
    assert(qs.take(quoted.len() as int) =~= qs);
}

/// The dependencies that a pyproject.toml declares, for a project without
/// a lockfile: the PEP 621 `[project] dependencies` entries and the Poetry
/// dependency tables, in order, each direct, with its version specifier
/// (`*` where none is given) in place of a version.
pub fn pyproject_packages(raw: &str) -> (r: Vec<Package>)
    ensures
        r.deep_view() == pyproject_declared(raw@),
{
    let chars = text::to_chars(raw);
    let lines = text::split_lines(&chars);
    let ghost ls = text::views(lines@);
    let mut out: Vec<Package> = Vec::new();
    let mut section: Vec<char> = Vec::new();
    let mut in_deps = false;
    let mut i: usize = 0;
    assert(ls.skip(0) =~= ls);
    assert(out.deep_view() =~= Seq::<PackageView>::empty());
    while i < lines.len()
        invariant
            i <= lines.len(),
            ls == text::views(lines@),
            ls == text::lines(raw@),
            pyproject_declared(raw@) == out.deep_view() + declared_lines(
                ls.skip(i as int),
                section@,
                in_deps,
            ),
        decreases lines.len() - i,
    {
        let ghost tail = ls.skip(i as int);
        assert(tail.drop_first() =~= ls.skip(i + 1));
        let ghost before = out.deep_view();
        let t = text::trim_chars(&lines[i]);
        if text::starts_with_lit(&t, "[") {
            section = text::trim_pair_chars(&t, '[', ']');
            in_deps = false;
            assert(before + Seq::<PackageView>::empty() =~= before);
        } else if text::eq_lit(&section, "project") && text::starts_with_lit(&t, "dependencies")
            && text::has_char_exec(&t, '[') {
            in_deps = !closes_array_chars(&t);
            push_declared_specs(&t, &mut out);
        } else if in_deps {
            in_deps = !closes_array_chars(&t);
            push_declared_specs(&t, &mut out);
        } else if text::eq_lit(&section, "tool.poetry.dependencies") || text::eq_lit(
            &section,
            "tool.poetry.dev-dependencies",
        ) {
            match text::split_once_lit(&t, "=") {
                Some((name, value)) => {
                    let n = text::trim_chars(&name);
                    if n.len() > 0 && !text::eq_lit(&n, "python") {
                        let version = poetry_version_chars(&value);
                        let p = new_package(&n, &version, Ecosystem::Python, DependencyType::Direct);
                        push_package(&mut out, p);
                    } else {
                        assert(before + Seq::<PackageView>::empty() =~= before);
                    }
                },
                None => {
                    assert(before + Seq::<PackageView>::empty() =~= before);
                },
            }
        } else {
            assert(before + Seq::<PackageView>::empty() =~= before);
        }
        i += 1;
    }
    assert(ls.skip(lines.len() as int) =~= Seq::<Seq<char>>::empty());
    assert(out.deep_view() + Seq::<PackageView>::empty() =~= out.deep_view());
    out
}

/// The Python packages of a project: those of its lockfile when it has
/// one (`locked`), else those its pyproject.toml declares (none without
/// one).
pub fn locked_or_declared(locked: Option<Vec<Package>>, pyproject: Option<&str>) -> (r: Vec<
    Package,
>)
    ensures
        r.deep_view() == match locked {
            Some(p) => p.deep_view(),
            None => match pyproject {
                Some(t) => pyproject_declared(t@),
                None => Seq::empty(),
            },
        },
{
    match locked {
        Some(p) => p,
        None => match pyproject {
            Some(t) => pyproject_packages(t),
            None => {
                let r: Vec<Package> = Vec::new();
                assert(r.deep_view() =~= Seq::<PackageView>::empty());
                r
            },
        },
    }
}

/// `p` marked direct when its normalized name is one of `direct`.
pub open spec fn marked_direct(p: PackageView, direct: Seq<Seq<char>>) -> PackageView {
    if direct.contains(normalized_name(p.name)) {
        crate::scanner::with_type(p, DependencyType::Direct)
    } else {
        p
    }
}

/// Mark the packages whose normalized names are listed in `direct` as
/// direct dependencies.
pub fn mark_direct(packages: &Vec<Package>, direct: &[String]) -> (r: Vec<Package>)
    ensures
        r.deep_view() == packages.deep_view().map_values(
            |p: PackageView| marked_direct(p, direct@.map_values(|s: String| s@)),
        ),
{
    let ghost d = direct@.map_values(|s: String| s@);
    let mut r: Vec<Package> = Vec::new();
    let mut i: usize = 0;
    while i < packages.len()
        invariant
            i <= packages.len(),
            d == direct@.map_values(|s: String| s@),
            r.deep_view() == packages.deep_view().take(i as int).map_values(
                |p: PackageView| marked_direct(p, d),
            ),
        decreases packages.len() - i,
    {
        let p = &packages[i];
        let name = text::to_chars(p.name.as_str());
        let n = normalize_chars(&name);
        let q = if crate::scanner::contains_string(direct, &n) {
            crate::scanner::retyped(p, DependencyType::Direct)
        } else {
            crate::scanner::retyped(p, p.dependency_type)
        };
        let ghost before = r.deep_view();
        push_package(&mut r, q);
        assert(packages.deep_view().take(i + 1) =~= packages.deep_view().take(i as int).push(
            p.deep_view(),
        ));
        i += 1;
    }
    assert(packages.deep_view().take(packages.len() as int) =~= packages.deep_view());
    r
}

// ---------------------------------------------------------------------------
// Pipfile.lock
// ---------------------------------------------------------------------------

/// `s` without every leading `==` (`str::trim_start_matches("==")`).
pub open spec fn without_pins(s: Seq<char>) -> Seq<char>
    decreases s.len(),
{
    if s.len() >= 2 && s[0] == '=' && s[1] == '=' {
        without_pins(s.subrange(2, s.len() as int))
    } else {
        s
    }
}

/// The package of one Pipfile.lock entry: its name and its pinned version
/// without the `==`.
pub open spec fn pipfile_entry(e: (String, JsonValue)) -> PackageView {
    python_package(
        e.0@,
        without_pins(
            match json::get_str(e.1, "version"@) {
                Some(v) => v,
                None => Seq::empty(),
            },
        ),
    )
}

/// The packages of one section of a Pipfile.lock, in key order.
pub open spec fn pipfile_section(v: JsonValue, key: Seq<char>) -> Seq<PackageView> {
    match json::get(v, key) {
        Some(JsonValue::Object(m)) => m@.map_values(|e: (String, JsonValue)| pipfile_entry(e)),
        _ => Seq::empty(),
    }
}

/// The packages of a Pipfile.lock (`default`, then `develop`), or the JSON
/// error message.
pub open spec fn pipfile_lock(raw: Seq<char>) -> Result<Seq<PackageView>, Seq<char>> {
    match json_document(raw) {
        Err(e) => Err(e),
        Ok(v) => Ok(pipfile_section(v, "default"@) + pipfile_section(v, "develop"@)),
    }
}

fn without_pins_chars(v: &[char]) -> (r: Vec<char>)
    ensures
        r@ == without_pins(v@),
{
    let mut i: usize = 0;
    assert(v@.skip(0) =~= v@);
    while i < v.len() && v.len() - i >= 2 && v[i] == '=' && v[i + 1] == '='
        invariant
            i <= v.len(),
            without_pins(v@) == without_pins(v@.skip(i as int)),
        decreases v.len() - i,
    {
        assert(v@.skip(i as int).subrange(2, v@.skip(i as int).len() as int) =~= v@.skip(i + 2));
        i += 2;
    }
    let r = text::slice(v, i, v.len());
    assert(r@ =~= v@.skip(i as int));
    r
}

fn push_pipfile_section(value: &JsonValue, key: &str, out: &mut Vec<Package>)
    ensures
        final(out).deep_view() == old(out).deep_view() + pipfile_section(*value, key@),
{
    match value.get(key) {
        Some(JsonValue::Object(m)) => {
            let ghost start = out.deep_view();
            let mut i: usize = 0;
            assert(start + m@.take(0).map_values(|e: (String, JsonValue)| pipfile_entry(e))
                =~= start);
            while i < m.len()
                invariant
                    i <= m.len(),
                    out.deep_view() == start + m@.take(i as int).map_values(
                        |e: (String, JsonValue)| pipfile_entry(e),
                    ),
                decreases m.len() - i,
            {
                let name = text::to_chars(m[i].0.as_str());
                let raw_version = match m[i].1.get_str("version") {
                    Some(v) => text::to_chars(v.as_str()),
                    None => Vec::new(),
                };
                let version = without_pins_chars(&raw_version);
                let p = new_package(&name, &version, Ecosystem::Python, DependencyType::Transitive);
                let ghost before = out.deep_view();
                push_package(out, p);
                assert(p.deep_view() == pipfile_entry(m@[i as int]));
                assert(m@.take(i + 1).map_values(|e: (String, JsonValue)| pipfile_entry(e))
                    =~= m@.take(i as int).map_values(
                    |e: (String, JsonValue)| pipfile_entry(e),
                ).push(pipfile_entry(m@[i as int])));
                i += 1;
            }
            assert(m@.take(m.len() as int) =~= m@);
        },
        _ => {
            assert(old(out).deep_view() + Seq::<PackageView>::empty() =~= old(out).deep_view());
        },
    }
}

/// The packages of a Pipfile.lock.
pub fn parse_pipfile_lock(raw: &str) -> (r: Result<Vec<Package>, String>)
    ensures
        match r {
            Ok(p) => pipfile_lock(raw@) == Ok::<Seq<PackageView>, Seq<char>>(p.deep_view()),
            Err(e) => pipfile_lock(raw@) == Err::<Seq<PackageView>, Seq<char>>(e@),
        },
{
    let value = match json::parse_json(raw) {
        Ok(v) => v,
        Err(e) => return Err(e),
    };
    let mut packages: Vec<Package> = Vec::new();
    assert(packages.deep_view() =~= Seq::<PackageView>::empty());
    push_pipfile_section(&value, "default", &mut packages);
    push_pipfile_section(&value, "develop", &mut packages);
    assert(packages.deep_view() =~= pipfile_section(value, "default"@) + pipfile_section(
        value,
        "develop"@,
    ));
    Ok(packages)
}

/// The license of the first METADATA text among `texts` (one per
/// site-packages directory, in search order) that names one.
pub open spec fn first_metadata_license(texts: Seq<Option<Seq<char>>>) -> Option<Seq<char>>
    decreases texts.len(),
{
    if texts.len() == 0 {
        None
    } else {
        match texts[0] {
            Some(t) => match metadata_license(t) {
                Some(l) => Some(l),
                None => first_metadata_license(texts.drop_first()),
            },
            None => first_metadata_license(texts.drop_first()),
        }
    }
}

/// The direct dependencies that a pyproject.toml names, none without one.
pub open spec fn python_direct(pyproject: Option<Seq<char>>) -> Seq<Seq<char>> {
    match pyproject {
        Some(raw) => pyproject_direct(raw),
        None => Seq::empty(),
    }
}

/// One scanned package: marked direct when pyproject.toml names it, and
/// given the license of its installed METADATA when it has none.
pub open spec fn scanned_package(
    p: PackageView,
    direct: Seq<Seq<char>>,
    texts: Seq<Option<Seq<char>>>,
) -> PackageView {
    let q = marked_direct(p, direct);
    if q.license is None {
        match first_metadata_license(texts) {
            Some(l) => PackageView {
                license: Some(l),
                license_source: crate::model::LicenseSource::Declared,
                ..q
            },
            None => q,
        }
    } else {
        q
    }
}

/// The METADATA texts given for package `k`, none when there are none.
pub open spec fn metadata_for(metadata: Seq<Vec<Option<String>>>, k: int) -> Seq<Option<Seq<char>>> {
    if 0 <= k < metadata.len() {
        metadata[k]@.map_values(|o: Option<String>| crate::model::opt_view(o))
    } else {
        Seq::empty()
    }
}

fn first_metadata_license_exec(texts: &Vec<Option<String>>) -> (r: Option<String>)
    ensures
        crate::model::opt_view(r) == first_metadata_license(
            texts@.map_values(|o: Option<String>| crate::model::opt_view(o)),
        ),
{
    let ghost tv = texts@.map_values(|o: Option<String>| crate::model::opt_view(o));
    let mut i: usize = 0;
    assert(tv.skip(0) =~= tv);
    while i < texts.len()
        invariant
            i <= texts.len(),
            tv == texts@.map_values(|o: Option<String>| crate::model::opt_view(o)),
            first_metadata_license(tv) == first_metadata_license(tv.skip(i as int)),
        decreases texts.len() - i,
    {
        assert(tv.skip(i as int).drop_first() =~= tv.skip(i + 1));
        assert(tv.skip(i as int)[0] == crate::model::opt_view(texts@[i as int]));
        match &texts[i] {
            Some(t) => match parse_metadata_license(t.as_str()) {
                Some(l) => {
                    return Some(l);
                },
                None => {},
            },
            None => {},
        }
        i += 1;
    }
    None
}

/// The Python dependencies of a project, from the packages of its lockfile:
/// those that `pyproject` (the text of pyproject.toml, where there is one)
/// names are direct, and a package without a license takes the first one
/// found among `metadata[k]`, the texts of its installed METADATA files in
/// each site-packages directory in search order (`None` where missing).
pub fn scan(
    packages: &Vec<Package>,
    pyproject: Option<&str>,
    metadata: &[Vec<Option<String>>],
) -> (r: Vec<Package>)
    ensures
        r.deep_view().len() == packages.deep_view().len(),
        forall|k: int|
            0 <= k < packages.len() ==> #[trigger] r.deep_view()[k] == scanned_package(
                packages.deep_view()[k],
                python_direct(
                    match pyproject {
                        Some(t) => Some(t@),
                        None => None,
                    },
                ),
                metadata_for(metadata@, k),
            ),
{
    let direct: Vec<String> = match pyproject {
        Some(raw) => pyproject_direct_dependencies(raw),
        None => Vec::new(),
    };
    let ghost d = python_direct(
        match pyproject {
            Some(t) => Some(t@),
            None => None,
        },
    );
    assert(direct@.map_values(|s: String| s@) =~= d);
    let marked = mark_direct(packages, direct.as_slice());
    let mut r: Vec<Package> = Vec::new();
    let mut k: usize = 0;
    while k < marked.len()
        invariant
            k <= marked.len(),
            marked.deep_view().len() == packages.deep_view().len(),
            forall|m: int|
                0 <= m < packages.len() ==> #[trigger] marked.deep_view()[m] == marked_direct(
                    packages.deep_view()[m],
                    d,
                ),
            r.deep_view().len() == k,
            forall|m: int|
                0 <= m < k ==> #[trigger] r.deep_view()[m] == scanned_package(
                    packages.deep_view()[m],
                    d,
                    metadata_for(metadata@, m),
                ),
        decreases marked.len() - k,
    {
        let p = &marked[k];
        assert(marked.deep_view()[k as int] == marked_direct(packages.deep_view()[k as int], d));
        let found = if p.license.is_none() && k < metadata.len() {
            first_metadata_license_exec(&metadata[k])
        } else {
            None
        };
        let q = match found {
            Some(l) => Package {
                name: p.name.clone(),
                version: p.version.clone(),
                license: Some(l),
                license_source: crate::model::LicenseSource::Declared,
                ecosystem: p.ecosystem,
                dependency_type: p.dependency_type,
            },
            None => crate::scanner::retyped(p, p.dependency_type),
        };
        assert(q.deep_view() == scanned_package(
            packages.deep_view()[k as int],
            d,
            metadata_for(metadata@, k as int),
        ));
        let ghost before = r.deep_view();
        push_package(&mut r, q);
        assert(r.deep_view()[k as int] == q.deep_view());
        assert(forall|m: int| 0 <= m < k ==> r.deep_view()[m] == before[m]);
        k += 1;
    }
    r
}


// ---------------------------------------------------------------------------
// Laws
// ---------------------------------------------------------------------------

/// A version as requirements.txt pins it: not empty, and without the `;`
/// that starts an environment marker, a space or the `#` of a comment.
pub open spec fn plain_version(v: Seq<char>) -> bool {
    v.len() > 0 && !v.contains(';') && !v.contains(' ') && !v.contains('#')
}

proof fn lemma_until_marker_plain(s: Seq<char>, c: char)
    requires
        c == ';' || c == ' ' || c == '#',
    ensures
        !until_marker(s).contains(c),
    decreases s.len(),
{
    if s.len() > 0 && s[0] != ';' && s[0] != ' ' && s[0] != '#' {
        lemma_until_marker_plain(s.drop_first(), c);
        let r = until_marker(s);
        let t = until_marker(s.drop_first());
        assert(r == seq![s[0]] + t);
        if r.contains(c) {
            let k = choose|k: int| 0 <= k < r.len() && r[k] == c;
            if k > 0 {
                assert(t[k - 1] == c);
                assert(t.contains(t[k - 1]));
            }
        }
    }
}

proof fn lemma_trim_start_absent(s: Seq<char>, c: char)
    requires
        !s.contains(c),
    ensures
        !text::trim_start(s).contains(c),
    decreases s.len(),
{
    if s.len() > 0 && text::is_ws(s[0]) {
        assert(!s.drop_first().contains(c)) by {
            if s.drop_first().contains(c) {
                let k = choose|k: int| 0 <= k < s.drop_first().len() && s.drop_first()[k] == c;
                assert(s[k + 1] == c);
                assert(s.contains(s[k + 1]));
            }
        }
        lemma_trim_start_absent(s.drop_first(), c);
    }
}

proof fn lemma_trim_end_absent(s: Seq<char>, c: char)
    requires
        !s.contains(c),
    ensures
        !text::trim_end(s).contains(c),
    decreases s.len(),
{
    if s.len() > 0 && text::is_ws(s.last()) {
        assert(!s.drop_last().contains(c)) by {
            if s.drop_last().contains(c) {
                let k = choose|k: int| 0 <= k < s.drop_last().len() && s.drop_last()[k] == c;
                assert(s[k] == c);
                assert(s.contains(s[k]));
            }
        }
        lemma_trim_end_absent(s.drop_last(), c);
    }
}

proof fn lemma_requirement_line_plain(line: Seq<char>)
    ensures
        forall|i: int|
            0 <= i < requirement_line(line).len() ==> plain_version(
                #[trigger] requirement_line(line)[i].version,
            ),
{
    let t = text::trim(line);
    if !(t.len() == 0 || text::starts_with(t, "#"@) || text::starts_with(t, "-"@)) {
        if let Some((n, v)) = text::split_once(t, "=="@) {
            let u = until_marker(v);
            lemma_until_marker_plain(v, ';');
            lemma_until_marker_plain(v, ' ');
            lemma_until_marker_plain(v, '#');
            lemma_trim_start_absent(u, ';');
            lemma_trim_start_absent(u, ' ');
            lemma_trim_start_absent(u, '#');
            lemma_trim_end_absent(text::trim_start(u), ';');
            lemma_trim_end_absent(text::trim_start(u), ' ');
            lemma_trim_end_absent(text::trim_start(u), '#');
        }
    }
}

proof fn lemma_requirement_lines_plain(ls: Seq<Seq<char>>)
    ensures
        forall|i: int|
            0 <= i < requirement_lines(ls).len() ==> plain_version(
                #[trigger] requirement_lines(ls)[i].version,
            ),
    decreases ls.len(),
{
    if ls.len() > 0 {
        lemma_requirement_line_plain(ls[0]);
        lemma_requirement_lines_plain(ls.drop_first());
        let a = requirement_line(ls[0]);
        let b = requirement_lines(ls.drop_first());
        assert(requirement_lines(ls) == a + b);
        assert forall|i: int| 0 <= i < requirement_lines(ls).len() implies plain_version(
            #[trigger] requirement_lines(ls)[i].version,
        ) by {
            if i < a.len() {
                assert(requirement_lines(ls)[i] == a[i]);
            } else {
                assert(requirement_lines(ls)[i] == b[i - a.len()]);
            }
        }
    }
}

/// Every version read from requirements.txt ends before the first `;`,
/// space or `#` that follows `==`: an environment marker or a comment is
/// cut off whether or not a space precedes it, and no version is empty.
pub proof fn requirement_versions_hold_no_marker(raw: Seq<char>)
    ensures
        forall|i: int|
            0 <= i < requirement_lines(text::lines(raw)).len() ==> plain_version(
                #[trigger] requirement_lines(text::lines(raw))[i].version,
            ),
{
    lemma_requirement_lines_plain(text::lines(raw));
}

/// `c` ends a pinned version: `;` (an environment marker), a space or
/// `#` (a comment).
pub open spec fn ends_pin(c: char) -> bool {
    c == ';' || c == ' ' || c == '#'
}

proof fn lemma_until_marker_split(v: Seq<char>)
    ensures
        v == until_marker(v) + v.skip(until_marker(v).len() as int),
        v.skip(until_marker(v).len() as int).len() == 0 || ends_pin(
            v.skip(until_marker(v).len() as int)[0],
        ),
        forall|i: int| 0 <= i < until_marker(v).len() ==> !ends_pin(#[trigger] until_marker(v)[i]),
    decreases v.len(),
{
    if v.len() > 0 && !ends_pin(v[0]) {
        lemma_until_marker_split(v.drop_first());
        let u = until_marker(v.drop_first());
        assert(until_marker(v) == seq![v[0]] + u);
        assert(v.skip(until_marker(v).len() as int) =~= v.drop_first().skip(u.len() as int));
        assert(v =~= seq![v[0]] + v.drop_first());
        assert forall|i: int| 0 <= i < until_marker(v).len() implies !ends_pin(
            #[trigger] until_marker(v)[i],
        ) by {
            if i > 0 {
                assert(until_marker(v)[i] == u[i - 1]);
            }
        }
    } else {
        assert(v.skip(0) =~= v);
        assert(until_marker(v) =~= Seq::<char>::empty());
        assert(Seq::<char>::empty() + v =~= v);
    }
}

/// The version pinned on a requirements.txt line is what follows its first
/// `==`, up to the first `;`, space or `#` (or the line's end), trimmed.
pub proof fn requirement_version_is_the_pin(line: Seq<char>)
    ensures
        forall|i: int|
            0 <= i < requirement_line(line).len() ==> exists|n: Seq<char>, w: Seq<char>, r: Seq<char>|
                {
                    &&& text::split_once(text::trim(line), "=="@) == Some((n, w + r))
                    &&& forall|j: int| 0 <= j < w.len() ==> !ends_pin(#[trigger] w[j])
                    &&& (r.len() == 0 || ends_pin(r[0]))
                    &&& #[trigger] requirement_line(line)[i].version == text::trim(w)
                },
{
    let t = text::trim(line);
    if requirement_line(line).len() > 0 {
        let (n, v) = text::split_once(t, "=="@)->Some_0;
        lemma_until_marker_split(v);
        let w = until_marker(v);
        let r = v.skip(w.len() as int);
        assert(requirement_line(line).len() == 1);
        assert(requirement_line(line)[0].version == text::trim(w));
        assert(text::split_once(t, "=="@) == Some((n, w + r)));
    }
}

} // verus!
