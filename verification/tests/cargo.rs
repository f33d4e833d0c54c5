use dep_lens_core::model::{DependencyType, Ecosystem, LicenseSource};
use dep_lens_core::scanner::cargo::{
    license_file_locations, parse_metadata, parse_metadata_with_license_files,
};

const FIXTURE: &str = r#"{
    "packages": [
        {"id": "registry+serde@1.0.0", "name": "serde", "version": "1.0.0", "license": "MIT OR Apache-2.0"},
        {"id": "registry+left-pad@0.9.0", "name": "left-pad", "version": "0.9.0", "license": null},
        {"id": "path+my-app@0.1.0", "name": "my-app", "version": "0.1.0", "license": "GPL-3.0"}
    ],
    "workspace_members": ["path+my-app@0.1.0"]
}"#;

#[test]
fn parses_packages_and_excludes_workspace_members() {
    let packages = parse_metadata(FIXTURE).unwrap();
    let names: Vec<&str> = packages.iter().map(|p| p.name.as_str()).collect();
    assert_eq!(names, vec!["left-pad", "serde"]);
}

#[test]
fn captures_license_and_ecosystem() {
    let packages = parse_metadata(FIXTURE).unwrap();
    let serde_pkg = packages.iter().find(|p| p.name == "serde").unwrap();
    assert_eq!(serde_pkg.license.as_deref(), Some("MIT OR Apache-2.0"));
    assert_eq!(serde_pkg.ecosystem, Ecosystem::Cargo);
    let left_pad = packages.iter().find(|p| p.name == "left-pad").unwrap();
    assert_eq!(left_pad.license, None);
}

#[test]
fn rejects_invalid_json() {
    assert!(parse_metadata("nope").is_err());
}

#[test]
fn empty_metadata_yields_empty_list() {
    assert!(
        parse_metadata(r#"{"packages": [], "workspace_members": []}"#)
            .unwrap()
            .is_empty()
    );
}

const GRAPH: &str = r#"{
    "packages": [
        {"id": "b@2", "name": "b", "version": "2.0.0", "license": "  ", "license_file": "LICENSE", "manifest_path": "/reg/b/Cargo.toml"},
        {"id": "a@1", "name": "a", "license": " MIT "},
        {"id": "app", "name": "app", "version": "0.1.0"},
        {"id": "c@3", "name": "c", "version": "3.0.0", "license_file": "COPYING"},
        {"id": "x", "version": "9"}
    ],
    "workspace_members": ["app"],
    "resolve": {"nodes": [
        {"id": "app", "dependencies": ["b@2"]},
        {"id": "b@2", "dependencies": ["a@1"]}
    ]}
}"#;

#[test]
fn members_dependencies_are_direct_and_defaults_apply() {
    let packages = parse_metadata(GRAPH).unwrap();
    let names: Vec<&str> = packages.iter().map(|p| p.name.as_str()).collect();
    assert_eq!(names, vec!["a", "b", "c"]);
    assert_eq!(packages[0].version, "0.0.0");
    assert_eq!(packages[0].license.as_deref(), Some("MIT"));
    assert_eq!(packages[0].license_source, LicenseSource::Declared);
    assert_eq!(packages[0].dependency_type, DependencyType::Transitive);
    assert_eq!(packages[1].dependency_type, DependencyType::Direct);
    assert_eq!(packages[1].license, None);
    assert_eq!(packages[1].license_source, LicenseSource::NotFound);
}

#[test]
fn license_files_fill_in_undeclared_licenses() {
    let locations = license_file_locations(GRAPH).unwrap();
    assert_eq!(locations.len(), 5);
    assert_eq!(
        locations[0],
        Some(("/reg/b/Cargo.toml".to_string(), "LICENSE".to_string()))
    );
    assert_eq!(locations[1], None);
    assert_eq!(locations[2], None);
    assert_eq!(locations[3], None);
    let texts = vec![
        Some("Apache License\nVersion 2.0, January 2004".to_string()),
        None,
        None,
        Some("All rights reserved.".to_string()),
    ];
    let packages = parse_metadata_with_license_files(GRAPH, &texts).unwrap();
    let b = packages.iter().find(|p| p.name == "b").unwrap();
    assert_eq!(b.license.as_deref(), Some("Apache-2.0"));
    assert_eq!(b.license_source, LicenseSource::LicenseFile);
    let c = packages.iter().find(|p| p.name == "c").unwrap();
    assert_eq!(c.license, None);
    assert_eq!(c.license_source, LicenseSource::NotFound);
}

#[test]
fn metadata_errors_carry_a_prefix() {
    let err = parse_metadata("nope").unwrap_err();
    assert!(err.starts_with("invalid cargo metadata JSON: "), "{err}");
    assert!(license_file_locations("[").unwrap_err().starts_with("invalid cargo metadata JSON: "));
}
