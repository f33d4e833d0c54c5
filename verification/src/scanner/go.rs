//! Go modules: `go.mod`.
use vstd::prelude::*;

use crate::model::{DependencyType, Ecosystem, Package, PackageView};
use crate::scanner::{bare_package, new_package, push_package};
use crate::text;

verus! {

/// A module required on the line `line`: transitive when the line is
/// marked `// indirect`.
pub open spec fn go_package(name: Seq<char>, version: Seq<char>, line: Seq<char>) -> PackageView {
    bare_package(
        name,
        version,
        Ecosystem::Go,
        if text::contains(line, "// indirect"@) {
            DependencyType::Transitive
        } else {
            DependencyType::Direct
        },
    )
}

/// The module named by the first two words of `parts`, if there are two.
pub open spec fn go_require(parts: Seq<Seq<char>>, line: Seq<char>) -> Seq<PackageView> {
    if parts.len() >= 2 {
        seq![go_package(parts[0], parts[1], line)]
    } else {
        Seq::empty()
    }
}

/// One line of a go.mod read inside (`in_require`) or outside a
/// `require ( ... )` block: the state after it and the modules it requires.
pub open spec fn go_line(line: Seq<char>, in_require: bool) -> (bool, Seq<PackageView>) {
    let t = text::trim(line);
    if text::starts_with(t, "require ("@) {
        (true, Seq::empty())
    } else if in_require && t == ")"@ {
        (false, Seq::empty())
    } else if text::starts_with(t, "require "@) && !in_require {
        (in_require, go_require(text::words(t.subrange("require "@.len() as int, t.len() as int)), t))
    } else if in_require && t.len() > 0 && !text::starts_with(t, "//"@) {
        (in_require, go_require(text::words(t), t))
    } else {
        (in_require, Seq::empty())
    }
}

pub open spec fn go_lines(ls: Seq<Seq<char>>, in_require: bool) -> Seq<PackageView>
    decreases ls.len(),
{
    if ls.len() == 0 {
        Seq::empty()
    } else {
        let (next, found) = go_line(ls[0], in_require);
        found + go_lines(ls.drop_first(), next)
    }
}

/// The modules a go.mod requires: single `require` lines and the lines
/// of `require ( ... )` blocks, in order.
pub open spec fn go_mod_packages(raw: Seq<char>) -> Seq<PackageView> {
    go_lines(text::lines(raw), false)
}

/// Escape a module path the way the Go module cache does: every uppercase
/// letter becomes `!` followed by its lowercase form.
pub open spec fn escaped_module_path(module: Seq<char>) -> Seq<char>
    decreases module.len(),
{
    if module.len() == 0 {
        Seq::empty()
    } else {
        let c = module.last();
        escaped_module_path(module.drop_last()) + if 'A' <= c <= 'Z' {
            seq!['!', text::ascii_lower_char(c)]
        } else {
            seq![c]
        }
    }
}

fn push_require(out: &mut Vec<Package>, parts: &Vec<Vec<char>>, line: &[char])
    ensures
        final(out).deep_view() == old(out).deep_view() + go_require(text::views(parts@), line@),
{
    if parts.len() >= 2 {
        let dependency_type = if text::contains_lit(line, "// indirect") {
            DependencyType::Transitive
        } else {
            DependencyType::Direct
        };
        let p = new_package(&parts[0], &parts[1], Ecosystem::Go, dependency_type);
        let ghost before = out.deep_view();
        push_package(out, p);
        assert(out.deep_view() =~= before + go_require(text::views(parts@), line@));
    } else {
        assert(old(out).deep_view() + go_require(text::views(parts@), line@) =~= old(
            out,
        ).deep_view());
    }
}

fn read_go_line(line: &[char], in_require: bool, out: &mut Vec<Package>) -> (next: bool)
    ensures
        next == go_line(line@, in_require).0,
        final(out).deep_view() == old(out).deep_view() + go_line(line@, in_require).1,
{
    let t = text::trim_chars(line);
    if text::starts_with_lit(&t, "require (") {
        assert(old(out).deep_view() + Seq::<PackageView>::empty() =~= old(out).deep_view());
        return true;
    }
    if in_require && text::eq_lit(&t, ")") {
        assert(old(out).deep_view() + Seq::<PackageView>::empty() =~= old(out).deep_view());
        return false;
    }
    if text::starts_with_lit(&t, "require ") && !in_require {
        let n = "require ".unicode_len();
        let rest = text::slice(&t, n, t.len());
        let parts = text::split_words(&rest);
        push_require(out, &parts, &t);
    } else if in_require && t.len() > 0 && !text::starts_with_lit(&t, "//") {
        let parts = text::split_words(&t);
        push_require(out, &parts, &t);
    } else {
        assert(old(out).deep_view() + Seq::<PackageView>::empty() =~= old(out).deep_view());
    }
    in_require
}

/// Parse the `require` directives of a go.mod.
pub fn parse_go_mod(raw: &str) -> (packages: Vec<Package>)
    ensures
        packages.deep_view() == go_mod_packages(raw@),
{
    let chars = text::to_chars(raw);
    let lines = text::split_lines(&chars);
    let ghost ls = text::views(lines@);
    let mut packages: Vec<Package> = Vec::new();
    let mut in_require = false;
    let mut i: usize = 0;
    assert(ls.skip(0) =~= ls);
    assert(packages.deep_view() =~= Seq::<PackageView>::empty());
    while i < lines.len()
        invariant
            i <= lines.len(),
            ls == text::views(lines@),
            ls == text::lines(raw@),
            go_mod_packages(raw@) == packages.deep_view() + go_lines(ls.skip(i as int), in_require),
        decreases lines.len() - i,
    {
        let ghost tail = ls.skip(i as int);
        assert(tail.drop_first() =~= ls.skip(i + 1));
        in_require = read_go_line(&lines[i], in_require, &mut packages);
        i += 1;
    }
    assert(ls.skip(lines.len() as int) =~= Seq::<Seq<char>>::empty());
    assert(packages.deep_view() + Seq::<PackageView>::empty() =~= packages.deep_view());
    packages
}

/// Escape a module path the way the Go module cache does: every uppercase
/// letter becomes `!` followed by its lowercase form (github.com/Azure ->
/// github.com/!azure).
pub fn escape_module_path(module: &str) -> (r: String)
    ensures
        r@ == escaped_module_path(module@),
{
    let chars = text::to_chars(module);
    let mut out = String::new();
    let mut i: usize = 0;
    while i < chars.len()
        invariant
            i <= chars.len(),
            chars@ == module@,
            out@ == escaped_module_path(chars@.take(i as int)),
        decreases chars.len() - i,
    {
        let c = chars[i];
        assert(chars@.take(i + 1).drop_last() =~= chars@.take(i as int));
        if 'A' <= c && c <= 'Z' {
            text::push_char(&mut out, '!');
            text::push_char(&mut out, text::ascii_lower(c));
        } else {
            text::push_char(&mut out, c);
        }
        i += 1;
        assert(out@ =~= escaped_module_path(chars@.take(i as int)));
    }
    assert(chars@.take(chars.len() as int) =~= chars@);
    out
}

/// The module cache directory name of `module` at `version`:
/// `<escaped module path>@<version>`.
pub fn module_cache_entry(module: &str, version: &str) -> (r: String)
    ensures
        r@ == escaped_module_path(module@) + "@"@ + version@,
{
    let mut out = escape_module_path(module);
    out.append("@");
    out.append(version);
    out
}



proof fn lemma_lower_shift(c: char)
    requires
        'A' <= c <= 'Z',
    ensures
        text::ascii_lower_char(c) as int == c as int + 32,
        'a' <= text::ascii_lower_char(c) <= 'z',
{
}

proof fn lemma_escaped_len(m: Seq<char>)
    ensures
        escaped_module_path(m).len() >= m.len(),
    decreases m.len(),
{
    if m.len() > 0 {
        lemma_escaped_len(m.drop_last());
    }
}

proof fn lemma_escaped_last(m: Seq<char>)
    requires
        m.len() > 0,
        !m.contains('!'),
    ensures
        escaped_module_path(m).len() > 0,
        escaped_module_path(m).last() != '!',
{
    let c = m.last();
    assert(m[m.len() - 1] == c);
    if 'A' <= c <= 'Z' {
        lemma_lower_shift(c);
    }
}

/// An escaped module path holds no ASCII uppercase letter.
pub proof fn escaped_paths_have_no_uppercase(m: Seq<char>)
    ensures
        forall|i: int|
            0 <= i < escaped_module_path(m).len() ==> !('A' <= #[trigger] escaped_module_path(
                m,
            )[i] <= 'Z'),
    decreases m.len(),
{
    if m.len() > 0 {
        escaped_paths_have_no_uppercase(m.drop_last());
        let c = m.last();
        if 'A' <= c <= 'Z' {
            lemma_lower_shift(c);
        }
        let e0 = escaped_module_path(m.drop_last());
        let e = escaped_module_path(m);
        assert forall|i: int| 0 <= i < e.len() implies !('A' <= #[trigger] e[i] <= 'Z') by {
            if i < e0.len() {
                assert(e[i] == e0[i]);
            }
        }
    }
}

/// Two module paths (which never hold `!`) that escape to the same cache
/// directory name are the same path.
pub proof fn escaping_is_injective(a: Seq<char>, b: Seq<char>)
    requires
        !a.contains('!'),
        !b.contains('!'),
        escaped_module_path(a) == escaped_module_path(b),
    ensures
        a == b,
    decreases a.len(),
{
    let ea = escaped_module_path(a);
    let eb = escaped_module_path(b);
    lemma_escaped_len(a);
    lemma_escaped_len(b);
    if a.len() == 0 || b.len() == 0 {
        if a.len() > 0 || b.len() > 0 {
            assert(ea.len() == 0 || eb.len() == 0);
            assert(false);
        }
        assert(a =~= b);
    } else {
        let ta = a.drop_last();
        let tb = b.drop_last();
        let ca = a.last();
        let cb = b.last();
        assert(!ta.contains('!')) by {
            if ta.contains('!') {
                let k = choose|k: int| 0 <= k < ta.len() && ta[k] == '!';
                assert(a[k] == '!');
            }
        }
        assert(!tb.contains('!')) by {
            if tb.contains('!') {
                let k = choose|k: int| 0 <= k < tb.len() && tb[k] == '!';
                assert(b[k] == '!');
            }
        }
        assert(a[a.len() - 1] == ca && b[b.len() - 1] == cb);
        let pa = escaped_module_path(ta);
        let pb = escaped_module_path(tb);
        let ua = 'A' <= ca <= 'Z';
        let ub = 'A' <= cb <= 'Z';
        if ua {
            lemma_lower_shift(ca);
        }
        if ub {
            lemma_lower_shift(cb);
        }
        if ua && !ub {
            assert(eb.last() == cb);
            assert(ea[ea.len() - 2] == '!');
            assert(pb.len() > 0);
            lemma_escaped_last(tb);
            assert(eb[eb.len() - 2] == pb.last());
            assert(false);
        } else if ub && !ua {
            assert(ea.last() == ca);
            assert(eb[eb.len() - 2] == '!');
            assert(pa.len() > 0);
            lemma_escaped_last(ta);
            assert(ea[ea.len() - 2] == pa.last());
            assert(false);
        }
        assert(ea.last() == eb.last());
        assert(ca == cb);
        assert(pa =~= ea.subrange(0, pa.len() as int));
        assert(pb =~= eb.subrange(0, pb.len() as int));
        assert(pa.len() == pb.len());
        escaping_is_injective(ta, tb);
        assert(a =~= ta.push(ca));
        assert(b =~= tb.push(cb));
    }
}


/// The number of ASCII uppercase letters in `m`.
pub open spec fn uppercase_count(m: Seq<char>) -> nat
    decreases m.len(),
{
    if m.len() == 0 {
        0
    } else {
        uppercase_count(m.drop_last()) + if 'A' <= m.last() <= 'Z' {
            1nat
        } else {
            0nat
        }
    }
}

/// Undo the module cache's escaping: each `!` and the letter after it
/// become that letter in uppercase.
pub open spec fn unescaped_module_path(e: Seq<char>) -> Seq<char>
    decreases e.len(),
{
    if e.len() == 0 {
        Seq::empty()
    } else if e.len() >= 2 && e[e.len() - 2] == '!' {
        unescaped_module_path(e.take(e.len() - 2)) + seq![text::ascii_upper_char(e.last())]
    } else {
        unescaped_module_path(e.drop_last()) + seq![e.last()]
    }
}

/// An escaped module path is one character longer than the path for each
/// ASCII uppercase letter in it.
pub proof fn escaping_adds_one_per_uppercase_letter(m: Seq<char>)
    ensures
        escaped_module_path(m).len() == m.len() + uppercase_count(m),
    decreases m.len(),
{
    if m.len() > 0 {
        escaping_adds_one_per_uppercase_letter(m.drop_last());
    }
}

/// Unescaping gives back every module path (which never holds `!`).
pub proof fn unescaping_undoes_escaping(m: Seq<char>)
    requires
        !m.contains('!'),
    ensures
        unescaped_module_path(escaped_module_path(m)) == m,
    decreases m.len(),
{
    if m.len() > 0 {
        let t = m.drop_last();
        let c = m.last();
        assert(m[m.len() - 1] == c);
        assert(!t.contains('!')) by {
            if t.contains('!') {
                let k = choose|k: int| 0 <= k < t.len() && t[k] == '!';
                assert(m[k] == '!');
            }
        }
        unescaping_undoes_escaping(t);
        let p = escaped_module_path(t);
        let e = escaped_module_path(m);
        if 'A' <= c <= 'Z' {
            lemma_lower_shift(c);
            assert(e =~= p + seq!['!', text::ascii_lower_char(c)]);
            assert(e.take(e.len() - 2) =~= p);
            assert(e.last() == text::ascii_lower_char(c));
            assert(text::ascii_upper_char(text::ascii_lower_char(c)) as int == c as int);
            assert(text::ascii_upper_char(text::ascii_lower_char(c)) == c);
        } else {
            assert(e =~= p + seq![c]);
            assert(e.drop_last() =~= p);
            if p.len() > 0 {
                lemma_escaped_last(t);
                assert(e[e.len() - 2] == p.last());
            }
        }
        assert(t.push(c) =~= m);
    }
}

} // verus!
