//! CSV rendering.
use vstd::prelude::*;

use crate::model::{
    ClassifiedPackage, Report, commercial_use_name, commercial_use_name_spec, dependency_type_name,
    dependency_type_name_spec, ecosystem_name, ecosystem_name_spec, license_category_name,
    license_category_name_spec, license_source_name, license_source_name_spec, risk_level_name,
    risk_level_name_spec,
};
use crate::text;
use crate::util::{decimal, decimal_chars};

verus! {

pub open spec fn csv_header() -> Seq<char> {
    "Package,Version,License,Ecosystem,Type,Category,Risk Score,Risk Level,Commercial Use,Source\n"@
}

/// One CSV row: quoted text fields, the bare risk score.
pub open spec fn csv_row(p: ClassifiedPackage) -> Seq<char> {
    "\""@ + p.name@ + "\",\""@ + p.version@ + "\",\""@ + p.license@ + "\",\""@ + ecosystem_name_spec(
        p.ecosystem,
    ) + "\",\""@ + dependency_type_name_spec(p.dependency_type) + "\",\""@
        + license_category_name_spec(p.category) + "\","@ + decimal(p.risk_score as nat) + ",\""@
        + risk_level_name_spec(p.risk_level) + "\",\""@ + commercial_use_name_spec(p.commercial_use)
        + "\",\""@ + license_source_name_spec(p.license_source) + "\"\n"@
}

pub open spec fn csv_rows(pkgs: Seq<ClassifiedPackage>) -> Seq<char>
    decreases pkgs.len(),
{
    if pkgs.len() == 0 {
        Seq::empty()
    } else {
        csv_rows(pkgs.drop_last()) + csv_row(pkgs.last())
    }
}

/// The CSV text of a report: a header line, then one line per package.
pub open spec fn csv_text(report: Report) -> Seq<char> {
    csv_header() + csv_rows(report.packages@)
}

fn push_row(out: &mut String, p: &ClassifiedPackage)
    ensures
        final(out)@ == old(out)@ + csv_row(*p),
{
    out.append("\"");
    out.append(p.name.as_str());
    out.append("\",\"");
    out.append(p.version.as_str());
    out.append("\",\"");
    out.append(p.license.as_str());
    out.append("\",\"");
    out.append(ecosystem_name(p.ecosystem));
    out.append("\",\"");
    out.append(dependency_type_name(p.dependency_type));
    out.append("\",\"");
    out.append(license_category_name(p.category));
    out.append("\",");
    let digits = decimal_chars(p.risk_score as u128);
    text::push_all(out, &digits);
    out.append(",\"");
    out.append(risk_level_name(p.risk_level));
    out.append("\",\"");
    out.append(commercial_use_name(p.commercial_use));
    out.append("\",\"");
    out.append(license_source_name(p.license_source));
    out.append("\"\n");
    assert(final(out)@ =~= old(out)@ + csv_row(*p));
}

/// Render a CSV report.
pub fn render(report: &Report) -> (r: String)
    ensures
        r@ == csv_text(*report),
{
    let mut out = String::new();
    out.append(
        "Package,Version,License,Ecosystem,Type,Category,Risk Score,Risk Level,Commercial Use,Source\n",
    );
    let mut i: usize = 0;
    while i < report.packages.len()
        invariant
            i <= report.packages.len(),
            out@ == csv_header() + csv_rows(report.packages@.take(i as int)),
        decreases report.packages.len() - i,
    {
        push_row(&mut out, &report.packages[i]);
        assert(report.packages@.take(i + 1).drop_last() =~= report.packages@.take(i as int));
        i += 1;
    }
    assert(report.packages@.take(report.packages.len() as int) =~= report.packages@);
    out
}

} // verus!
