use dep_lens_core::model::{DependencyType, Ecosystem, LicenseSource};
use dep_lens_core::scanner::mark_named_direct;
use dep_lens_core::scanner::php::{composer_direct_dependencies, parse_lockfile};

const LOCK: &str = r#"{
    "packages": [
        {"name": "monolog/monolog", "version": "3.5.0", "license": ["MIT"]},
        {"name": "symfony/polyfill", "version": "1.28.0", "license": ["MIT", "Apache-2.0"]},
        {"version": "1.0"},
        {"name": "acme/closed", "license": []}
    ],
    "packages-dev": [
        {"name": "phpunit/phpunit", "version": "10.5.0", "license": "BSD-3-Clause"}
    ]
}"#;

#[test]
fn composer_lock_lists_runtime_then_dev_packages() {
    let packages = parse_lockfile(LOCK).unwrap();
    let names: Vec<&str> = packages.iter().map(|p| p.name.as_str()).collect();
    assert_eq!(
        names,
        vec!["monolog/monolog", "symfony/polyfill", "acme/closed", "phpunit/phpunit"]
    );
    assert_eq!(packages[1].license.as_deref(), Some("MIT OR Apache-2.0"));
    assert_eq!(packages[2].version, "0.0.0");
    assert_eq!(packages[2].license, None);
    assert_eq!(packages[2].license_source, LicenseSource::NotFound);
    assert_eq!(packages[3].license.as_deref(), Some("BSD-3-Clause"));
    assert_eq!(packages[3].ecosystem, Ecosystem::Php);
    assert!(parse_lockfile("{").is_err());
}

#[test]
fn composer_json_requirements_mark_direct_packages() {
    let direct = composer_direct_dependencies(
        r#"{"require": {"php": ">=8.1", "monolog/monolog": "^3.0"}, "require-dev": {"phpunit/phpunit": "^10"}}"#,
    );
    let packages = parse_lockfile(LOCK).unwrap();
    let marked = mark_named_direct(&packages, &direct);
    assert_eq!(marked[0].dependency_type, DependencyType::Direct);
    assert_eq!(marked[1].dependency_type, DependencyType::Transitive);
    assert_eq!(marked[3].dependency_type, DependencyType::Direct);
    assert!(composer_direct_dependencies("not json").is_empty());
}
