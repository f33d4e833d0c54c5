use dep_lens_core::model::{DependencyType, Ecosystem};
use dep_lens_core::scanner::dart::parse_pubspec_lock;

const LOCK: &str = "packages:\n  http:\n    dependency: \"direct main\"\n    description:\n      name: http\n      sha256: \"abc\"\n    source: hosted\n    version: \"1.2.0\"\n  meta:\n    dependency: transitive\n    description:\n      name: meta\n    source: hosted\n    version: \"1.11.0\"\nsdks:\n  dart: \">=3.0.0 <4.0.0\"\n";

#[test]
fn parses_packages_with_dependency_kind() {
    let packages = parse_pubspec_lock(LOCK);
    let names: Vec<&str> = packages.iter().map(|p| p.name.as_str()).collect();
    assert_eq!(names, vec!["http", "meta"]);
    assert_eq!(packages[0].version, "1.2.0");
    assert_eq!(packages[0].dependency_type, DependencyType::Direct);
    assert_eq!(packages[1].dependency_type, DependencyType::Transitive);
    assert_eq!(packages[0].ecosystem, Ecosystem::Dart);
}

#[test]
fn stops_at_sdks_section() {
    let packages = parse_pubspec_lock(LOCK);
    assert_eq!(packages.len(), 2);
}

#[test]
fn empty_lockfile_yields_nothing() {
    assert!(parse_pubspec_lock("sdks:\n  dart: \">=3.0.0\"\n").is_empty());
}

#[test]
fn package_without_version_is_dropped() {
    let lock = "packages:\n  a:\n    dependency: \"direct dev\"\n  b:\n    version: \"2.0.0\"\n";
    let packages = parse_pubspec_lock(lock);
    assert_eq!(packages.len(), 1);
    assert_eq!(packages[0].name, "b");
    assert_eq!(packages[0].version, "2.0.0");
    assert_eq!(packages[0].dependency_type, DependencyType::Transitive);
}
