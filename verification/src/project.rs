//! The name under which a scanned project is reported.
use vstd::prelude::*;

use crate::json::{self, json_document};
use crate::model::opt_view;
use crate::text;

verus! {

/// The value of a `name = "..."` line, quotes trimmed, when it is not empty.
pub open spec fn name_value(line: Seq<char>) -> Option<Seq<char>> {
    match text::strip_prefix(line, "name"@) {
        Some(rest) => match text::strip_prefix(text::trim_start(rest), "="@) {
            Some(v) => {
                let value = text::trim_char(text::trim(v), '"');
                if value.len() > 0 {
                    Some(value)
                } else {
                    None
                }
            },
            None => None,
        },
        None => None,
    }
}

/// The first package name among the lines `ls`, where `in_package` says
/// whether the lines begin inside the `[package]` table.
pub open spec fn package_name_in(ls: Seq<Seq<char>>, in_package: bool) -> Option<Seq<char>>
    decreases ls.len(),
{
    if ls.len() == 0 {
        None
    } else {
        let line = text::trim(ls[0]);
        if text::starts_with(line, "["@) {
            package_name_in(ls.drop_first(), line == "[package]"@)
        } else if in_package && name_value(line) is Some {
            name_value(line)
        } else {
            package_name_in(ls.drop_first(), in_package)
        }
    }
}

/// The `name` of the `[package]` table of a Cargo.toml.
pub open spec fn cargo_toml_name(raw: Seq<char>) -> Option<Seq<char>> {
    package_name_in(text::lines(raw), false)
}

fn name_value_exec(line: &[char]) -> (r: Option<Vec<char>>)
    ensures
        match r {
            Some(v) => name_value(line@) == Some(v@),
            None => name_value(line@) is None,
        },
{
    let rest = match text::strip_prefix_lit(line, "name") {
        Some(r) => r,
        None => return None,
    };
    let rest = text::trim_start_chars(&rest);
    let v = match text::strip_prefix_lit(&rest, "=") {
        Some(v) => v,
        None => return None,
    };
    let value = text::trim_char_chars(&text::trim_chars(&v), '"');
    if value.len() > 0 {
        Some(value)
    } else {
        None
    }
}

/// Minimal TOML scan: the `name = "..."` of the `[package]` section.
pub fn cargo_toml_package_name(raw: &str) -> (r: Option<String>)
    ensures
        opt_view(r) == cargo_toml_name(raw@),
{
    let chars = text::to_chars(raw);
    let lines = text::split_lines(&chars);
    let ghost ls = text::views(lines@);
    let mut in_package = false;
    let mut i: usize = 0;
    assert(ls.skip(0) =~= ls);
    while i < lines.len()
        invariant
            i <= lines.len(),
            ls == text::views(lines@),
            ls == text::lines(raw@),
            cargo_toml_name(raw@) == package_name_in(ls.skip(i as int), in_package),
        decreases lines.len() - i,
    {
        assert(ls.skip(i as int).drop_first() =~= ls.skip(i + 1));
        assert(ls.skip(i as int)[0] == lines@[i as int]@);
        let line = text::trim_chars(&lines[i]);
        if text::starts_with_lit(&line, "[") {
            in_package = text::eq_lit(&line, "[package]");
        } else if in_package {
            match name_value_exec(&line) {
                Some(v) => {
                    return Some(text::from_chars(&v));
                },
                None => {},
            }
        }
        i += 1;
    }
    None
}

/// The trimmed `name` of a package.json, when it parses and the name is
/// not blank.
pub open spec fn manifest_name(raw: Seq<char>) -> Option<Seq<char>> {
    match json_document(raw) {
        Ok(v) => match json::get_str(v, "name"@) {
            Some(n) => if text::trim(n).len() > 0 {
                Some(text::trim(n))
            } else {
                None
            },
            None => None,
        },
        Err(_) => None,
    }
}

/// The project name: the package.json name, then the Cargo.toml package
/// name, then the directory's name, then `unknown-project`.
pub open spec fn project_name_of(
    package_json: Option<Seq<char>>,
    cargo_toml: Option<Seq<char>>,
    dir_name: Option<Seq<char>>,
) -> Seq<char> {
    let from_manifest = match package_json {
        Some(raw) => manifest_name(raw),
        None => None,
    };
    let from_cargo = match cargo_toml {
        Some(raw) => cargo_toml_name(raw),
        None => None,
    };
    match from_manifest {
        Some(n) => n,
        None => match from_cargo {
            Some(n) => n,
            None => match dir_name {
                Some(d) => d,
                None => "unknown-project"@,
            },
        },
    }
}

/// Best-effort project name from the text of the project's package.json
/// and Cargo.toml (`None` where a file is missing or unreadable) and the
/// name of its directory (`None` where it has none).
pub fn detect_project_name(
    package_json: Option<&str>,
    cargo_toml: Option<&str>,
    dir_name: Option<&str>,
) -> (r: String)
    ensures
        r@ == project_name_of(
            match package_json {
                Some(s) => Some(s@),
                None => None,
            },
            match cargo_toml {
                Some(s) => Some(s@),
                None => None,
            },
            match dir_name {
                Some(s) => Some(s@),
                None => None,
            },
        ),
{
    match package_json {
        Some(raw) => match json::parse_json(raw) {
            Ok(v) => match v.get_str("name") {
                Some(n) => {
                    let t = text::trim_chars(&text::to_chars(n.as_str()));
                    if t.len() > 0 {
                        return text::from_chars(&t);
                    }
                },
                None => {},
            },
            Err(_) => {},
        },
        None => {},
    }
    match cargo_toml {
        Some(raw) => match cargo_toml_package_name(raw) {
            Some(n) => {
                return n;
            },
            None => {},
        },
        None => {},
    }
    match dir_name {
        Some(d) => d.to_owned(),
        None => String::from_str("unknown-project"),
    }
}

} // verus!
