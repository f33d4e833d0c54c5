use dep_lens_core::model::{DependencyType, Ecosystem, LicenseSource, Package};
use dep_lens_core::scanner::npm::{
    collect_packages, needs_license_file_fallback, parse_manifest, with_license_file,
};

#[test]
fn parses_string_license() {
    let pkg = parse_manifest(r#"{"name":"a","version":"1.0.0","license":"MIT"}"#).unwrap();
    assert_eq!(pkg.name, "a");
    assert_eq!(pkg.version, "1.0.0");
    assert_eq!(pkg.license.as_deref(), Some("MIT"));
    assert_eq!(pkg.ecosystem, Ecosystem::Npm);
}

#[test]
fn parses_object_license() {
    let pkg = parse_manifest(
        r#"{"name":"b","version":"2.0.0","license":{"type":"Apache-2.0","url":"x"}}"#,
    )
    .unwrap();
    assert_eq!(pkg.license.as_deref(), Some("Apache-2.0"));
}

#[test]
fn parses_legacy_licenses_array() {
    let pkg = parse_manifest(
        r#"{"name":"c","version":"3.0.0","licenses":[{"type":"MIT"},{"type":"GPL-2.0"}]}"#,
    )
    .unwrap();
    assert_eq!(pkg.license.as_deref(), Some("MIT OR GPL-2.0"));
}

#[test]
fn missing_license_is_none() {
    let pkg = parse_manifest(r#"{"name":"d","version":"1.0.0"}"#).unwrap();
    assert_eq!(pkg.license, None);
    assert_eq!(pkg.license_source, LicenseSource::NotFound);
}

#[test]
fn declared_license_sets_declared_source() {
    let pkg = parse_manifest(r#"{"name":"d","version":"1.0.0","license":"MIT"}"#).unwrap();
    assert_eq!(pkg.license_source, LicenseSource::Declared);
}

#[test]
fn invalid_json_is_skipped() {
    assert!(parse_manifest("not json").is_none());
    assert!(parse_manifest(r#"{"version":"1.0.0"}"#).is_none());
}

#[test]
fn manifest_defaults_and_trimming() {
    let pkg = parse_manifest(r#"{"name":"  spaced  ","license":"  ISC "}"#).unwrap();
    assert_eq!(pkg.name, "spaced");
    assert_eq!(pkg.version, "0.0.0");
    assert_eq!(pkg.license.as_deref(), Some("ISC"));
    assert!(parse_manifest(r#"{"name":"   "}"#).is_none());
    let blank = parse_manifest(r#"{"name":"e","license":"  ","licenses":[{"type":" "},{"type":"BSD"}]}"#)
        .unwrap();
    assert_eq!(blank.license.as_deref(), Some("BSD"));
}

#[test]
fn fallback_is_needed_for_missing_or_placeholder_licenses() {
    assert!(needs_license_file_fallback(None));
    assert!(needs_license_file_fallback(Some("SEE LICENSE IN LICENSE.txt")));
    assert!(needs_license_file_fallback(Some("  see license in file")));
    assert!(!needs_license_file_fallback(Some("MIT")));
}

fn pkg(name: &str, version: &str, license: Option<&str>) -> Package {
    Package {
        name: name.to_string(),
        version: version.to_string(),
        license: license.map(str::to_string),
        license_source: if license.is_some() {
            LicenseSource::Declared
        } else {
            LicenseSource::NotFound
        },
        ecosystem: Ecosystem::Npm,
        dependency_type: DependencyType::Transitive,
    }
}

#[test]
fn license_file_result_replaces_the_declaration() {
    let p = with_license_file(&pkg("see-pkg", "1.0.0", Some("SEE LICENSE IN LICENSE.txt")), "GPL-3.0");
    assert_eq!(p.license.as_deref(), Some("GPL-3.0"));
    assert_eq!(p.license_source, LicenseSource::LicenseFile);
    assert_eq!(p.name, "see-pkg");
}

#[test]
fn collected_packages_are_unique_and_sorted() {
    let found = vec![
        pkg("alpha", "1.0.0", Some("MIT")),
        pkg("@scope/beta", "2.0.0", Some("GPL-3.0")),
        pkg("gamma", "0.1.0", Some("ISC")),
        pkg("alpha", "1.0.0", Some("Apache-2.0")),
        pkg("alpha", "0.9.0", None),
    ];
    let packages = collect_packages(found);
    let keys: Vec<(&str, &str)> = packages
        .iter()
        .map(|p| (p.name.as_str(), p.version.as_str()))
        .collect();
    assert_eq!(
        keys,
        vec![
            ("@scope/beta", "2.0.0"),
            ("alpha", "0.9.0"),
            ("alpha", "1.0.0"),
            ("gamma", "0.1.0")
        ]
    );
    assert_eq!(packages[2].license.as_deref(), Some("MIT"));
}
