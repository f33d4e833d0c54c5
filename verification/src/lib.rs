//! dep-lens core: scans dependency manifests, classifies licenses,
//! assigns commercial risk scores, and renders reports.
pub mod cli;
pub mod json;
pub mod license;
pub mod model;
pub mod order;
pub mod project;
pub mod report;
pub mod scanner;
pub mod text;
pub mod util;

use vstd::prelude::*;

use license::classifier::{classification_holds, classify};
use license::risk::{assess, assessment_of};
use model::{ClassifiedPackage, LicenseCategory, Package, PackageView, Report, Summary};

verus! {

/// Placeholder license string for packages with no usable declaration.
pub const UNKNOWN_LICENSE: &'static str = "UNKNOWN";

/// `name` matches an entry of the ignore list, ignoring ASCII case.
pub open spec fn is_ignored(name: Seq<char>, ignore: Seq<String>) -> bool {
    exists|i: int| 0 <= i < ignore.len() && text::eq_ignore_ascii_case(#[trigger] ignore[i]@, name)
}

/// The packages that the ignore list leaves in, in their order.
pub open spec fn kept_packages(pkgs: Seq<PackageView>, ignore: Seq<String>) -> Seq<PackageView>
    decreases pkgs.len(),
{
    if pkgs.len() == 0 {
        Seq::empty()
    } else {
        let rest = kept_packages(pkgs.drop_last(), ignore);
        if is_ignored(pkgs.last().name, ignore) {
            rest
        } else {
            rest.push(pkgs.last())
        }
    }
}

/// The license string a report shows for a package: its license, or the
/// `UNKNOWN` placeholder.
pub open spec fn shown_license(license: Option<Seq<char>>) -> Seq<char> {
    match license {
        Some(l) => l,
        None => UNKNOWN_LICENSE@,
    }
}

/// `c` is the classified form of the raw package `p`.
pub open spec fn classified_from(c: ClassifiedPackage, p: PackageView) -> bool {
    let a = assessment_of(c.category, shown_license(p.license));
    &&& c.name@ == p.name
    &&& c.version@ == p.version
    &&& c.license@ == shown_license(p.license)
    &&& c.license_source == p.license_source
    &&& c.ecosystem == p.ecosystem
    &&& c.dependency_type == p.dependency_type
    &&& classification_holds(p.license, c.category)
    &&& c.risk_score == a.score
    &&& c.risk_level == a.level
    &&& c.commercial_use == a.commercial_use
}

/// How many of `pkgs` fall in `category`.
pub open spec fn count_category(pkgs: Seq<ClassifiedPackage>, category: LicenseCategory) -> nat
    decreases pkgs.len(),
{
    if pkgs.len() == 0 {
        0
    } else {
        count_category(pkgs.drop_last(), category) + if pkgs.last().category == category {
            1nat
        } else {
            0nat
        }
    }
}

/// The summary that `pkgs` yields.
pub open spec fn summary_of(pkgs: Seq<ClassifiedPackage>) -> Summary {
    Summary {
        total: pkgs.len() as usize,
        permissive: count_category(pkgs, LicenseCategory::Permissive) as usize,
        weak_copyleft: count_category(pkgs, LicenseCategory::WeakCopyleft) as usize,
        strong_copyleft: count_category(pkgs, LicenseCategory::StrongCopyleft) as usize,
        unknown: count_category(pkgs, LicenseCategory::Unknown) as usize,
    }
}

/// The report built from `packages` and `ignore`, with the given header.
pub open spec fn report_holds(
    r: Report,
    project: Seq<char>,
    path: Seq<char>,
    scanned_at: Seq<char>,
    packages: Seq<PackageView>,
    ignore: Seq<String>,
) -> bool {
    let kept = kept_packages(packages, ignore);
    &&& r.project@ == project
    &&& r.path@ == path
    &&& r.scanned_at@ == scanned_at
    &&& r.packages@.len() == kept.len()
    &&& forall|k: int| 0 <= k < kept.len() ==> classified_from(#[trigger] r.packages@[k], kept[k])
    &&& r.summary == summary_of(r.packages@)
}

proof fn lemma_count_bounded(pkgs: Seq<ClassifiedPackage>, category: LicenseCategory)
    ensures
        count_category(pkgs, category) <= pkgs.len(),
    decreases pkgs.len(),
{
    if pkgs.len() > 0 {
        lemma_count_bounded(pkgs.drop_last(), category);
    }
}

fn is_ignored_exec(name: &String, ignore: &[String]) -> (b: bool)
    ensures
        b == is_ignored(name@, ignore@),
{
    let n = text::to_chars(name.as_str());
    let mut i: usize = 0;
    while i < ignore.len()
        invariant
            i <= ignore.len(),
            n@ == name@,
            forall|k: int| 0 <= k < i ==> !text::eq_ignore_ascii_case(#[trigger] ignore@[k]@, name@),
        decreases ignore.len() - i,
    {
        let entry = text::to_chars(ignore[i].as_str());
        if text::eq_ignore_ascii_case_chars(&entry, &n) {
            assert(text::eq_ignore_ascii_case(ignore@[i as int]@, name@));
            return true;
        }
        i += 1;
    }
    false
}

fn classify_package(pkg: &Package) -> (c: ClassifiedPackage)
    ensures
        classified_from(c, pkg.deep_view()),
{
    let category = match &pkg.license {
        Some(l) => classify(Some(l.as_str())),
        None => classify(None),
    };
    let license_str = match &pkg.license {
        Some(l) => l.clone(),
        None => String::from_str(UNKNOWN_LICENSE),
    };
    let assessment = assess(category, license_str.as_str());
    ClassifiedPackage {
        name: pkg.name.clone(),
        version: pkg.version.clone(),
        license: license_str,
        license_source: pkg.license_source,
        ecosystem: pkg.ecosystem,
        dependency_type: pkg.dependency_type,
        category,
        risk_score: assessment.score,
        risk_level: assessment.level,
        commercial_use: assessment.commercial_use,
    }
}

/// Classify raw packages, drop ignored names, and assemble the final report.
/// `scanned_at` is injected by the caller so this function stays deterministic.
pub fn build_report(
    project: &str,
    path: &str,
    scanned_at: &str,
    packages: Vec<Package>,
    ignore: &[String],
) -> (r: Report)
    ensures
        report_holds(r, project@, path@, scanned_at@, packages.deep_view(), ignore@),
{
    let ghost pkgs = packages.deep_view();
    let mut classified: Vec<ClassifiedPackage> = Vec::new();
    let mut summary = Summary {
        total: 0,
        permissive: 0,
        weak_copyleft: 0,
        strong_copyleft: 0,
        unknown: 0,
    };
    let mut i: usize = 0;
    while i < packages.len()
        invariant
            i <= packages.len(),
            pkgs == packages.deep_view(),
            classified@.len() == kept_packages(pkgs.take(i as int), ignore@).len(),
            classified@.len() <= i,
            forall|k: int|
                0 <= k < classified@.len() ==> classified_from(
                    #[trigger] classified@[k],
                    kept_packages(pkgs.take(i as int), ignore@)[k],
                ),
            summary == summary_of(classified@),
        decreases packages.len() - i,
    {
        let ghost before = classified@;
        assert(pkgs.take(i + 1).drop_last() =~= pkgs.take(i as int));
        assert(pkgs.take(i + 1).last() == packages@[i as int].deep_view());
        let pkg = &packages[i];
        if !is_ignored_exec(&pkg.name, ignore) {
            let c = classify_package(pkg);
            let cat = c.category;
            classified.push(c);
            assert(classified@.drop_last() =~= before);
            proof {
                lemma_count_bounded(before, LicenseCategory::Permissive);
                lemma_count_bounded(before, LicenseCategory::WeakCopyleft);
                lemma_count_bounded(before, LicenseCategory::StrongCopyleft);
                lemma_count_bounded(before, LicenseCategory::Unknown);
            }
            summary.total = summary.total + 1;
            match cat {
                LicenseCategory::Permissive => summary.permissive = summary.permissive + 1,
                LicenseCategory::WeakCopyleft => summary.weak_copyleft = summary.weak_copyleft + 1,
                LicenseCategory::StrongCopyleft => summary.strong_copyleft = summary.strong_copyleft
                    + 1,
                LicenseCategory::Unknown => summary.unknown = summary.unknown + 1,
            }
        }
        i += 1;
    }
    assert(pkgs.take(packages.len() as int) =~= pkgs);
    Report {
        project: String::from_str(project),
        scanned_at: String::from_str(scanned_at),
        path: String::from_str(path),
        summary,
        packages: classified,
    }
}

/// The summary counts of every report add up: each kept package lands in
/// exactly one category, so the four category counts sum to the total.
pub proof fn summary_counts_add_up(pkgs: Seq<ClassifiedPackage>)
    ensures
        count_category(pkgs, LicenseCategory::Permissive) + count_category(
            pkgs,
            LicenseCategory::WeakCopyleft,
        ) + count_category(pkgs, LicenseCategory::StrongCopyleft) + count_category(
            pkgs,
            LicenseCategory::Unknown,
        ) == pkgs.len(),
    decreases pkgs.len(),
{
    if pkgs.len() > 0 {
        summary_counts_add_up(pkgs.drop_last());
    }
}

} // verus!
