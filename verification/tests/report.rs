use dep_lens_core::build_report;
use dep_lens_core::model::{
    CommercialUse, DependencyType, Ecosystem, LicenseCategory, LicenseSource, Package, RiskLevel,
};
use dep_lens_core::UNKNOWN_LICENSE;

fn raw(name: &str, license: Option<&str>) -> Package {
    Package {
        name: name.to_string(),
        version: "1.0.0".to_string(),
        license: license.map(str::to_string),
        license_source: if license.is_some() {
            LicenseSource::Declared
        } else {
            LicenseSource::NotFound
        },
        ecosystem: Ecosystem::Npm,
        dependency_type: DependencyType::Direct,
    }
}

#[test]
fn builds_summary_counts() {
    let report = build_report(
        "proj",
        "/tmp/proj",
        "2026-06-12T00:00:00Z",
        vec![
            raw("a", Some("MIT")),
            raw("b", Some("LGPL-3.0")),
            raw("c", Some("AGPL-3.0")),
            raw("d", None),
        ],
        &[],
    );
    assert_eq!(report.summary.total, 4);
    assert_eq!(report.summary.permissive, 1);
    assert_eq!(report.summary.weak_copyleft, 1);
    assert_eq!(report.summary.strong_copyleft, 1);
    assert_eq!(report.summary.unknown, 1);
}

#[test]
fn ignore_list_filters_packages_case_insensitively() {
    let report = build_report(
        "proj",
        "/tmp/proj",
        "2026-06-12T00:00:00Z",
        vec![raw("Alpha", Some("GPL-3.0")), raw("beta", Some("MIT"))],
        &["alpha".to_string()],
    );
    assert_eq!(report.summary.total, 1);
    assert_eq!(report.packages[0].name, "beta");
    assert_eq!(report.summary.strong_copyleft, 0);
}

#[test]
fn missing_license_becomes_unknown_placeholder() {
    let report = build_report(
        "proj",
        "/tmp/proj",
        "2026-06-12T00:00:00Z",
        vec![raw("a", None)],
        &[],
    );
    let pkg = &report.packages[0];
    assert_eq!(pkg.license, UNKNOWN_LICENSE);
    assert_eq!(pkg.category, LicenseCategory::Unknown);
    assert_eq!(pkg.risk_level, RiskLevel::Medium);
    assert_eq!(pkg.commercial_use, CommercialUse::Review);
}

#[test]
fn risk_fields_propagate() {
    let report = build_report(
        "proj",
        "/tmp/proj",
        "2026-06-12T00:00:00Z",
        vec![raw("agpl-pkg", Some("AGPL-3.0"))],
        &[],
    );
    assert_eq!(report.packages[0].risk_score, 100);
    assert_eq!(report.packages[0].risk_level, RiskLevel::High);
    assert_eq!(report.packages[0].commercial_use, CommercialUse::Restricted);
}

#[test]
fn report_keeps_metadata_and_order() {
    let report = build_report(
        "proj",
        "/tmp/proj",
        "2026-06-12T00:00:00Z",
        vec![raw("z", Some("MIT")), raw("a", Some("  ")), raw("m", Some("GPL-2.0"))],
        &["Q".to_string()],
    );
    assert_eq!(report.project, "proj");
    assert_eq!(report.path, "/tmp/proj");
    assert_eq!(report.scanned_at, "2026-06-12T00:00:00Z");
    let names: Vec<&str> = report.packages.iter().map(|p| p.name.as_str()).collect();
    assert_eq!(names, vec!["z", "a", "m"]);
    assert_eq!(report.packages[1].license, "  ");
    assert_eq!(report.packages[1].category, LicenseCategory::Unknown);
    assert_eq!(report.packages[1].risk_score, 60);
    assert_eq!(report.packages[2].license_source, LicenseSource::Declared);
    assert_eq!(report.packages[2].ecosystem, Ecosystem::Npm);
    assert_eq!(report.packages[2].dependency_type, DependencyType::Direct);
}

#[test]
fn summary_counts_add_up_on_a_mixed_list() {
    let report = build_report(
        "p",
        "/p",
        "t",
        vec![
            raw("a", Some("MIT")),
            raw("b", Some("MPL-2.0")),
            raw("c", Some("GPL-3.0")),
            raw("d", Some("Proprietary")),
            raw("e", Some("ISC")),
        ],
        &["B".to_string(), "nothing".to_string()],
    );
    let s = report.summary;
    assert_eq!(s.total, 4);
    assert_eq!(s.permissive + s.weak_copyleft + s.strong_copyleft + s.unknown, s.total);
    assert_eq!(s.weak_copyleft, 0);
}
