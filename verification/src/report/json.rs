//! JSON rendering: the wire format that the Node.js wrapper parses from
//! the binary's stdout.
//!
//! Objects are written field by field, in the order of the model's fields,
//! with camelCase keys; enums are written as the strings the format uses
//! for them. Each string value is written by serde_json.
use vstd::prelude::*;

use crate::model::{
    ClassifiedPackage, CommercialUse, DependencyType, Ecosystem, LicenseCategory, LicenseSource,
    Report, RiskLevel, Summary,
};
use crate::text;
use crate::util::{decimal, decimal_chars};

verus! {

/// A lowercase hexadecimal digit.
pub open spec fn hex_digit(n: nat) -> char {
    if n < 10 {
        (n + 48) as char
    } else {
        (n + 87) as char
    }
}

/// How serde_json writes one character inside a JSON string: `"` and `\`
/// behind a backslash, the five control characters that have a short
/// escape as that escape, the other control characters below U+0020 as
/// `\u00` and two lowercase hex digits, and every other character as it
/// is.
pub open spec fn json_escaped_char(c: char) -> Seq<char> {
    if c == '"' {
        seq!['\\', '"']
    } else if c == '\\' {
        seq!['\\', '\\']
    } else if c == '\x08' {
        seq!['\\', 'b']
    } else if c == '\t' {
        seq!['\\', 't']
    } else if c == '\n' {
        seq!['\\', 'n']
    } else if c == '\x0c' {
        seq!['\\', 'f']
    } else if c == '\r' {
        seq!['\\', 'r']
    } else if (c as u32) < 0x20 {
        seq!['\\', 'u', '0', '0', hex_digit((c as u32 / 16) as nat), hex_digit((c as u32 % 16) as nat)]
    } else {
        seq![c]
    }
}

/// The characters of `s`, each written as in a JSON string.
pub open spec fn json_escaped(s: Seq<char>) -> Seq<char>
    decreases s.len(),
{
    if s.len() == 0 {
        Seq::empty()
    } else {
        json_escaped(s.drop_last()) + json_escaped_char(s.last())
    }
}

/// The JSON string literal of `s`: its escaped characters between double
/// quotes.
#[verifier::opaque]
pub open spec fn json_string_literal(s: Seq<char>) -> Seq<char> {
    seq!['"'] + json_escaped(s) + seq!['"']
}

/// `serde_json::to_string(s)` of a string: serde_json writes the string
/// literal of `s` (see [`json_string_literal`]) into a byte vector, which
/// cannot fail; were it to report an error, its message is returned.
#[verifier::external_body]
fn quoted(s: &str) -> (r: String)
    ensures
        r@ == json_string_literal(s@),
{
    match serde_json::to_string(s) {
        Ok(t) => t,
        Err(e) => e.to_string(),
    }
}

pub open spec fn ecosystem_json(e: Ecosystem) -> Seq<char> {
    match e {
        Ecosystem::Npm => "\"npm\""@,
        Ecosystem::Cargo => "\"cargo\""@,
        Ecosystem::Go => "\"go\""@,
        Ecosystem::Python => "\"python\""@,
        Ecosystem::Ruby => "\"ruby\""@,
        Ecosystem::Php => "\"php\""@,
        Ecosystem::Java => "\"java\""@,
        Ecosystem::Dart => "\"dart\""@,
        Ecosystem::Cpp => "\"cpp\""@,
    }
}

fn ecosystem_str(e: Ecosystem) -> (r: &'static str)
    ensures
        r@ == ecosystem_json(e),
{
    match e {
        Ecosystem::Npm => "\"npm\"",
        Ecosystem::Cargo => "\"cargo\"",
        Ecosystem::Go => "\"go\"",
        Ecosystem::Python => "\"python\"",
        Ecosystem::Ruby => "\"ruby\"",
        Ecosystem::Php => "\"php\"",
        Ecosystem::Java => "\"java\"",
        Ecosystem::Dart => "\"dart\"",
        Ecosystem::Cpp => "\"cpp\"",
    }
}

pub open spec fn dependency_type_json(t: DependencyType) -> Seq<char> {
    match t {
        DependencyType::Direct => "\"direct\""@,
        DependencyType::Transitive => "\"transitive\""@,
    }
}

fn dependency_type_str(t: DependencyType) -> (r: &'static str)
    ensures
        r@ == dependency_type_json(t),
{
    match t {
        DependencyType::Direct => "\"direct\"",
        DependencyType::Transitive => "\"transitive\"",
    }
}

pub open spec fn category_json(c: LicenseCategory) -> Seq<char> {
    match c {
        LicenseCategory::Permissive => "\"Permissive\""@,
        LicenseCategory::WeakCopyleft => "\"WeakCopyleft\""@,
        LicenseCategory::StrongCopyleft => "\"StrongCopyleft\""@,
        LicenseCategory::Unknown => "\"Unknown\""@,
    }
}

fn category_str(c: LicenseCategory) -> (r: &'static str)
    ensures
        r@ == category_json(c),
{
    match c {
        LicenseCategory::Permissive => "\"Permissive\"",
        LicenseCategory::WeakCopyleft => "\"WeakCopyleft\"",
        LicenseCategory::StrongCopyleft => "\"StrongCopyleft\"",
        LicenseCategory::Unknown => "\"Unknown\"",
    }
}

pub open spec fn risk_level_json(l: RiskLevel) -> Seq<char> {
    match l {
        RiskLevel::Low => "\"low\""@,
        RiskLevel::Medium => "\"medium\""@,
        RiskLevel::High => "\"high\""@,
    }
}

fn risk_level_str(l: RiskLevel) -> (r: &'static str)
    ensures
        r@ == risk_level_json(l),
{
    match l {
        RiskLevel::Low => "\"low\"",
        RiskLevel::Medium => "\"medium\"",
        RiskLevel::High => "\"high\"",
    }
}

pub open spec fn commercial_use_json(c: CommercialUse) -> Seq<char> {
    match c {
        CommercialUse::Yes => "\"yes\""@,
        CommercialUse::Caution => "\"caution\""@,
        CommercialUse::Restricted => "\"restricted\""@,
        CommercialUse::Review => "\"review\""@,
    }
}

fn commercial_use_str(c: CommercialUse) -> (r: &'static str)
    ensures
        r@ == commercial_use_json(c),
{
    match c {
        CommercialUse::Yes => "\"yes\"",
        CommercialUse::Caution => "\"caution\"",
        CommercialUse::Restricted => "\"restricted\"",
        CommercialUse::Review => "\"review\"",
    }
}

/// `declared`, `licenseFile`, or `none`.
pub open spec fn license_source_json(s: LicenseSource) -> Seq<char> {
    match s {
        LicenseSource::Declared => "\"declared\""@,
        LicenseSource::LicenseFile => "\"licenseFile\""@,
        LicenseSource::NotFound => "\"none\""@,
    }
}

fn license_source_str(s: LicenseSource) -> (r: &'static str)
    ensures
        r@ == license_source_json(s),
{
    match s {
        LicenseSource::Declared => "\"declared\"",
        LicenseSource::LicenseFile => "\"licenseFile\"",
        LicenseSource::NotFound => "\"none\"",
    }
}

/// One member of an object: what comes before it, its key, the separator
/// after the key, and its value.
pub open spec fn member(lead: Seq<char>, key: Seq<char>, colon: Seq<char>, value: Seq<char>) -> Seq<
    char,
> {
    lead + key + colon + value
}

/// The members of a package object, `sep` coming before every key but the
/// first (`,` in compact form; `,\n` and the indentation in pretty form)
/// and `colon` between a key and its value.
pub open spec fn package_members(p: ClassifiedPackage, first: Seq<char>, sep: Seq<char>, colon: Seq<char>) -> Seq<
    char,
> {
    member(first, "\"name\""@, colon, json_string_literal(p.name@))
        + member(sep, "\"version\""@, colon, json_string_literal(p.version@))
        + member(sep, "\"license\""@, colon, json_string_literal(p.license@))
        + member(sep, "\"licenseSource\""@, colon, license_source_json(p.license_source))
        + member(sep, "\"ecosystem\""@, colon, ecosystem_json(p.ecosystem))
        + member(sep, "\"dependencyType\""@, colon, dependency_type_json(p.dependency_type))
        + member(sep, "\"category\""@, colon, category_json(p.category))
        + member(sep, "\"riskScore\""@, colon, decimal(p.risk_score as nat))
        + member(sep, "\"riskLevel\""@, colon, risk_level_json(p.risk_level))
        + member(sep, "\"commercialUse\""@, colon, commercial_use_json(p.commercial_use))
}

/// The members of a summary object.
pub open spec fn summary_members(s: Summary, first: Seq<char>, sep: Seq<char>, colon: Seq<char>) -> Seq<
    char,
> {
    member(first, "\"total\""@, colon, decimal(s.total as nat))
        + member(sep, "\"permissive\""@, colon, decimal(s.permissive as nat))
        + member(sep, "\"weakCopyleft\""@, colon, decimal(s.weak_copyleft as nat))
        + member(sep, "\"strongCopyleft\""@, colon, decimal(s.strong_copyleft as nat))
        + member(sep, "\"unknown\""@, colon, decimal(s.unknown as nat))
}

/// A package as a compact JSON object.
pub open spec fn package_json(p: ClassifiedPackage) -> Seq<char> {
    "{"@ + package_members(p, ""@, ","@, ":"@) + "}"@
}

/// Packages as compact JSON objects separated by commas.
pub open spec fn packages_json(ps: Seq<ClassifiedPackage>) -> Seq<char>
    decreases ps.len(),
{
    if ps.len() == 0 {
        Seq::empty()
    } else if ps.len() == 1 {
        package_json(ps[0])
    } else {
        packages_json(ps.drop_last()) + ","@ + package_json(ps.last())
    }
}

/// A report as compact JSON.
pub open spec fn report_json(r: Report) -> Seq<char> {
    "{\"project\":"@ + json_string_literal(r.project@) + ",\"scannedAt\":"@ + json_string_literal(
        r.scanned_at@,
    ) + ",\"path\":"@ + json_string_literal(r.path@) + ",\"summary\":{"@ + summary_members(
        r.summary,
        ""@,
        ","@,
        ":"@,
    ) + "},\"packages\":["@ + packages_json(r.packages@) + "]}"@
}

/// A package as a pretty JSON object, as an element of the report's
/// `packages` array.
pub open spec fn package_pretty(p: ClassifiedPackage) -> Seq<char> {
    "    {"@ + package_members(p, "\n      "@, ",\n      "@, ": "@) + "\n    }"@
}

/// Packages as pretty JSON objects, one per line group.
pub open spec fn packages_pretty(ps: Seq<ClassifiedPackage>) -> Seq<char>
    decreases ps.len(),
{
    if ps.len() == 0 {
        Seq::empty()
    } else if ps.len() == 1 {
        package_pretty(ps[0])
    } else {
        packages_pretty(ps.drop_last()) + ",\n"@ + package_pretty(ps.last())
    }
}

/// A report as pretty JSON, indented by two spaces per level.
pub open spec fn report_pretty(r: Report) -> Seq<char> {
    "{\n  \"project\": "@ + json_string_literal(r.project@) + ",\n  \"scannedAt\": "@
        + json_string_literal(r.scanned_at@) + ",\n  \"path\": "@ + json_string_literal(r.path@)
        + ",\n  \"summary\": {"@ + summary_members(r.summary, "\n    "@, ",\n    "@, ": "@)
        + "\n  },\n  \"packages\": "@ + (if r.packages@.len() == 0 {
        "[]"@
    } else {
        "[\n"@ + packages_pretty(r.packages@) + "\n  ]"@
    }) + "\n}"@
}

fn push_decimal(out: &mut String, n: u128)
    ensures
        final(out)@ == old(out)@ + decimal(n as nat),
{
    let d = decimal_chars(n);
    text::push_all(out, &d);
}

fn push_quoted(out: &mut String, s: &String)
    ensures
        final(out)@ == old(out)@ + json_string_literal(s@),
{
    let q = quoted(s.as_str());
    out.append(q.as_str());
}

/// Append a member whose value is `value`.
fn push_member(out: &mut String, lead: &str, key: &str, colon: &str, value: &str)
    ensures
        final(out)@ == old(out)@ + member(lead@, key@, colon@, value@),
{
    out.append(lead);
    out.append(key);
    out.append(colon);
    out.append(value);
    assert(final(out)@ =~= old(out)@ + member(lead@, key@, colon@, value@));
}

/// Append a member whose value is the JSON string literal of `value`.
fn push_string_member(out: &mut String, lead: &str, key: &str, colon: &str, value: &String)
    ensures
        final(out)@ == old(out)@ + member(lead@, key@, colon@, json_string_literal(value@)),
{
    out.append(lead);
    out.append(key);
    out.append(colon);
    push_quoted(out, value);
    assert(final(out)@ =~= old(out)@ + member(lead@, key@, colon@, json_string_literal(value@)));
}

/// Append a member whose value is the number `n`.
fn push_number_member(out: &mut String, lead: &str, key: &str, colon: &str, n: u128)
    ensures
        final(out)@ == old(out)@ + member(lead@, key@, colon@, decimal(n as nat)),
{
    out.append(lead);
    out.append(key);
    out.append(colon);
    push_decimal(out, n);
    assert(final(out)@ =~= old(out)@ + member(lead@, key@, colon@, decimal(n as nat)));
}

fn push_package_members(
    out: &mut String,
    p: &ClassifiedPackage,
    first: &str,
    sep: &str,
    colon: &str,
)
    ensures
        final(out)@ == old(out)@ + package_members(*p, first@, sep@, colon@),
{
    let ghost start = out@;
    push_string_member(out, first, "\"name\"", colon, &p.name);
    push_string_member(out, sep, "\"version\"", colon, &p.version);
    push_string_member(out, sep, "\"license\"", colon, &p.license);
    push_member(out, sep, "\"licenseSource\"", colon, license_source_str(p.license_source));
    push_member(out, sep, "\"ecosystem\"", colon, ecosystem_str(p.ecosystem));
    push_member(out, sep, "\"dependencyType\"", colon, dependency_type_str(p.dependency_type));
    push_member(out, sep, "\"category\"", colon, category_str(p.category));
    push_number_member(out, sep, "\"riskScore\"", colon, p.risk_score as u128);
    push_member(out, sep, "\"riskLevel\"", colon, risk_level_str(p.risk_level));
    push_member(out, sep, "\"commercialUse\"", colon, commercial_use_str(p.commercial_use));
    assert(out@ =~= start + package_members(*p, first@, sep@, colon@));
}

fn push_summary_members(out: &mut String, s: &Summary, first: &str, sep: &str, colon: &str)
    ensures
        final(out)@ == old(out)@ + summary_members(*s, first@, sep@, colon@),
{
    let ghost start = out@;
    push_number_member(out, first, "\"total\"", colon, s.total as u128);
    push_number_member(out, sep, "\"permissive\"", colon, s.permissive as u128);
    push_number_member(out, sep, "\"weakCopyleft\"", colon, s.weak_copyleft as u128);
    push_number_member(out, sep, "\"strongCopyleft\"", colon, s.strong_copyleft as u128);
    push_number_member(out, sep, "\"unknown\"", colon, s.unknown as u128);
    assert(out@ =~= start + summary_members(*s, first@, sep@, colon@));
}

/// Serialize a report as compact JSON. This is the wire format the Node.js
/// wrapper parses from the binary's stdout. Serializing a report cannot
/// fail: the result is always `Ok`.
#[verifier::rlimit(40)]
pub fn render(report: &Report) -> (r: Result<String, String>)
    ensures
        match r {
            Ok(t) => t@ == report_json(*report),
            Err(_) => false,
        },
{
    let mut out = String::new();
    out.append("{\"project\":");
    push_quoted(&mut out, &report.project);
    out.append(",\"scannedAt\":");
    push_quoted(&mut out, &report.scanned_at);
    out.append(",\"path\":");
    push_quoted(&mut out, &report.path);
    out.append(",\"summary\":{");
    push_summary_members(&mut out, &report.summary, "", ",", ":");
    out.append("},\"packages\":[");
    let ghost head = out@;
    let ps = &report.packages;
    let mut i: usize = 0;
    assert(ps@.take(0) =~= Seq::<ClassifiedPackage>::empty());
    while i < ps.len()
        invariant
            i <= ps.len(),
            out@ == head + packages_json(ps@.take(i as int)),
        decreases ps.len() - i,
    {
        assert(ps@.take(i + 1).drop_last() =~= ps@.take(i as int));
        if i > 0 {
            out.append(",");
        }
        out.append("{");
        push_package_members(&mut out, &ps[i], "", ",", ":");
        out.append("}");
        proof {
            if i == 0 {
                assert(ps@.take(1) =~= seq![ps@[0]]);
            }
        }
        assert(out@ =~= head + packages_json(ps@.take(i + 1)));
        i += 1;
    }
    assert(ps@.take(ps.len() as int) =~= ps@);
    out.append("]}");
    assert(out@ =~= report_json(*report));
    Ok(out)
}

/// Serialize a report as pretty-printed JSON for human consumption.
/// Serializing a report cannot fail: the result is always `Ok`.
#[verifier::rlimit(40)]
pub fn render_pretty(report: &Report) -> (r: Result<String, String>)
    ensures
        match r {
            Ok(t) => t@ == report_pretty(*report),
            Err(_) => false,
        },
{
    let mut out = String::new();
    out.append("{\n  \"project\": ");
    push_quoted(&mut out, &report.project);
    out.append(",\n  \"scannedAt\": ");
    push_quoted(&mut out, &report.scanned_at);
    out.append(",\n  \"path\": ");
    push_quoted(&mut out, &report.path);
    out.append(",\n  \"summary\": {");
    push_summary_members(&mut out, &report.summary, "\n    ", ",\n    ", ": ");
    out.append("\n  },\n  \"packages\": ");
    let ps = &report.packages;
    if ps.len() == 0 {
        out.append("[]");
    } else {
        out.append("[\n");
        let ghost head = out@;
        let mut i: usize = 0;
        assert(ps@.take(0) =~= Seq::<ClassifiedPackage>::empty());
        while i < ps.len()
            invariant
                i <= ps.len(),
                out@ == head + packages_pretty(ps@.take(i as int)),
            decreases ps.len() - i,
        {
            assert(ps@.take(i + 1).drop_last() =~= ps@.take(i as int));
            if i > 0 {
                out.append(",\n");
            }
            out.append("    {");
            push_package_members(&mut out, &ps[i], "\n      ", ",\n      ", ": ");
            out.append("\n    }");
            proof {
                if i == 0 {
                    assert(ps@.take(1) =~= seq![ps@[0]]);
                }
            }
            assert(out@ =~= head + packages_pretty(ps@.take(i + 1)));
            i += 1;
        }
        assert(ps@.take(ps.len() as int) =~= ps@);
        out.append("\n  ]");
    }
    out.append("\n}");
    assert(out@ =~= report_pretty(*report));
    Ok(out)
}

} // verus!
