use dep_lens_core::model::{DependencyType, Ecosystem, LicenseSource};
use dep_lens_core::scanner::cpp::{parse_conanfile, parse_vcpkg_manifest};

#[test]
fn parses_vcpkg_string_and_object_dependencies() {
    let raw = r#"{
        "name": "demo",
        "dependencies": [
            "fmt",
            {"name": "boost-asio", "version>=": "1.84.0"},
            {"name": "zlib", "platform": "!windows"}
        ]
    }"#;
    let packages = parse_vcpkg_manifest(raw).unwrap();
    let names: Vec<&str> = packages.iter().map(|p| p.name.as_str()).collect();
    assert_eq!(names, vec!["fmt", "boost-asio", "zlib"]);
    assert_eq!(packages[1].version, "1.84.0");
    assert_eq!(packages[0].version, "unpinned");
    assert_eq!(packages[0].ecosystem, Ecosystem::Cpp);
}

#[test]
fn parses_conanfile_requires() {
    let raw = "[requires]\nzlib/1.3\nfmt/10.2.1@user/stable\n\n[generators]\nCMakeDeps\n\n[tool_requires]\ncmake/3.28.1\n";
    let packages = parse_conanfile(raw);
    let names: Vec<&str> = packages.iter().map(|p| p.name.as_str()).collect();
    assert_eq!(names, vec!["zlib", "fmt", "cmake"]);
    assert_eq!(packages[0].version, "1.3");
    assert_eq!(packages[1].version, "10.2.1");
}

#[test]
fn rejects_invalid_vcpkg_json() {
    assert!(parse_vcpkg_manifest("nope").is_err());
}

#[test]
fn vcpkg_error_names_the_manifest() {
    let err = parse_vcpkg_manifest("{").unwrap_err();
    assert!(err.starts_with("invalid vcpkg.json: "), "{err}");
    assert!(err.len() > "invalid vcpkg.json: ".len());
}

#[test]
fn vcpkg_without_dependencies_and_odd_entries() {
    assert!(parse_vcpkg_manifest(r#"{"name": "x"}"#).unwrap().is_empty());
    let packages =
        parse_vcpkg_manifest(r#"{"dependencies": [1, {"version>=": "2"}, "curl"]}"#).unwrap();
    assert_eq!(packages.len(), 1);
    assert_eq!(packages[0].name, "curl");
    assert_eq!(packages[0].license, None);
    assert_eq!(packages[0].license_source, LicenseSource::NotFound);
    assert_eq!(packages[0].dependency_type, DependencyType::Direct);
}
