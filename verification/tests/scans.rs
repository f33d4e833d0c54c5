use dep_lens_core::model::{DependencyType, Ecosystem, LicenseSource, Package};
use dep_lens_core::scanner::java::m2_pom_path;
use dep_lens_core::scanner::{apply_license_files, java, npm, php, python, ruby};

fn texts(list: &[Option<&str>]) -> Vec<Option<String>> {
    list.iter().map(|t| t.map(str::to_string)).collect()
}

const MIT_TEXT: &str = "MIT License\n\nPermission is hereby granted, free of charge...";

#[test]
fn npm_scan_uses_license_files_dedups_and_sorts() {
    let visited = vec![
        (r#"{"name":"alpha","version":"1.0.0","license":"MIT"}"#.to_string(), texts(&[])),
        (
            r#"{"name":"file-only","version":"1.0.0"}"#.to_string(),
            texts(&[None, Some(MIT_TEXT)]),
        ),
        (
            r#"{"name":"see-pkg","version":"1.0.0","license":"SEE LICENSE IN LICENSE.txt"}"#
                .to_string(),
            texts(&[None, None, Some("GNU GENERAL PUBLIC LICENSE\nVersion 3, 29 June 2007")]),
        ),
        (
            r#"{"name":"opaque","version":"1.0.0"}"#.to_string(),
            texts(&[Some("All rights reserved.")]),
        ),
        ("not json".to_string(), texts(&[])),
        (
            r#"{"name":"@scope/beta","version":"2.0.0","license":"GPL-3.0"}"#.to_string(),
            texts(&[Some(MIT_TEXT)]),
        ),
        (r#"{"name":"alpha","version":"1.0.0","license":"ISC"}"#.to_string(), texts(&[])),
    ];
    let packages = npm::scan(&visited);
    let names: Vec<&str> = packages.iter().map(|p| p.name.as_str()).collect();
    assert_eq!(names, vec!["@scope/beta", "alpha", "file-only", "opaque", "see-pkg"]);
    assert_eq!(packages[0].license.as_deref(), Some("GPL-3.0"));
    assert_eq!(packages[1].license.as_deref(), Some("MIT"));
    assert_eq!(packages[2].license.as_deref(), Some("MIT"));
    assert_eq!(packages[2].license_source, LicenseSource::LicenseFile);
    assert_eq!(packages[3].license, None);
    assert_eq!(packages[3].license_source, LicenseSource::NotFound);
    assert_eq!(packages[4].license.as_deref(), Some("GPL-3.0"));
    assert_eq!(packages[4].license_source, LicenseSource::LicenseFile);
    assert!(npm::scan(&[]).is_empty());
}

fn pkg(name: &str, version: &str, license: Option<&str>, ecosystem: Ecosystem) -> Package {
    Package {
        name: name.to_string(),
        version: version.to_string(),
        license: license.map(str::to_string),
        license_source: if license.is_some() {
            LicenseSource::Declared
        } else {
            LicenseSource::NotFound
        },
        ecosystem,
        dependency_type: DependencyType::Transitive,
    }
}

#[test]
fn python_scan_marks_direct_and_reads_metadata() {
    let packages = vec![
        pkg("Requests", "2.31.0", None, Ecosystem::Python),
        pkg("idna", "3.6", Some("BSD"), Ecosystem::Python),
        pkg("six", "1.16.0", None, Ecosystem::Python),
    ];
    let metadata = vec![
        texts(&[None, Some("Name: requests\nLicense: Apache-2.0\n")]),
        texts(&[Some("License: MIT\n")]),
        texts(&[Some("Name: six\n")]),
    ];
    let pyproject = "[project]\ndependencies = [\"requests>=2\"]\n";
    let scanned = python::scan(&packages, Some(pyproject), &metadata);
    assert_eq!(scanned[0].dependency_type, DependencyType::Direct);
    assert_eq!(scanned[0].license.as_deref(), Some("Apache-2.0"));
    assert_eq!(scanned[0].license_source, LicenseSource::Declared);
    assert_eq!(scanned[1].license.as_deref(), Some("BSD"));
    assert_eq!(scanned[1].dependency_type, DependencyType::Transitive);
    assert_eq!(scanned[2].license, None);
    let plain = python::scan(&packages, None, &[]);
    assert_eq!(plain[0].dependency_type, DependencyType::Transitive);
    assert_eq!(plain[0].license, None);
}

#[test]
fn php_scan_marks_required_packages() {
    let lock = r#"{"packages": [{"name": "a/b", "version": "1.0"}, {"name": "c/d", "version": "2.0"}]}"#;
    let scanned = php::scan(lock, Some(r#"{"require": {"c/d": "^2"}}"#)).unwrap();
    assert_eq!(scanned[0].dependency_type, DependencyType::Transitive);
    assert_eq!(scanned[1].dependency_type, DependencyType::Direct);
    let unmarked = php::scan(lock, Some("not json")).unwrap();
    assert_eq!(unmarked[1].dependency_type, DependencyType::Transitive);
    assert!(php::scan("{", None).is_err());
}

#[test]
fn java_scan_fills_licenses_sorts_and_dedups() {
    let packages = vec![
        pkg("org.b:b", "1.0", None, Ecosystem::Java),
        pkg("org.a:a", "2.0", None, Ecosystem::Java),
        pkg("org.b:b", "1.0", None, Ecosystem::Java),
        pkg("org.c:c", "1.0", Some("MIT"), Ecosystem::Java),
    ];
    let poms = texts(&[
        Some("<licenses><license><name>EPL-2.0</name></license></licenses>"),
        None,
        None,
        Some("<licenses><license><name>GPL-3.0</name></license></licenses>"),
    ]);
    let scanned = java::scan(&packages, &poms);
    let names: Vec<&str> = scanned.iter().map(|p| p.name.as_str()).collect();
    assert_eq!(names, vec!["org.a:a", "org.b:b", "org.c:c"]);
    assert_eq!(scanned[0].license, None);
    assert_eq!(scanned[1].license.as_deref(), Some("EPL-2.0"));
    assert_eq!(scanned[1].license_source, LicenseSource::Declared);
    assert_eq!(scanned[2].license.as_deref(), Some("MIT"));
}

#[test]
fn ruby_scan_prefers_gemspec_then_license_files() {
    let packages = vec![
        pkg("rails", "7.1.0", None, Ecosystem::Ruby),
        pkg("rake", "13.1.0", None, Ecosystem::Ruby),
        pkg("missing", "1.0.0", None, Ecosystem::Ruby),
    ];
    let gems = vec![
        vec![(Some("s.license = \"MIT\".freeze\n".to_string()), texts(&[]))],
        vec![
            (None, texts(&[None])),
            (Some("s.name = \"rake\"".to_string()), texts(&[Some(MIT_TEXT)])),
        ],
        vec![(None, texts(&[]))],
    ];
    let scanned = ruby::scan(&packages, &gems);
    assert_eq!(scanned[0].license.as_deref(), Some("MIT"));
    assert_eq!(scanned[0].license_source, LicenseSource::Declared);
    assert_eq!(scanned[1].license.as_deref(), Some("MIT"));
    assert_eq!(scanned[1].license_source, LicenseSource::LicenseFile);
    assert_eq!(scanned[2].license, None);
}

#[test]
fn finds_license_in_fake_module_cache() {
    assert_eq!(
        dep_lens_core::scanner::go::module_cache_entry("github.com/pkg/errors", "v0.9.1"),
        "github.com/pkg/errors@v0.9.1"
    );
    let packages = vec![
        pkg("github.com/pkg/errors", "v0.9.1", None, Ecosystem::Go),
        pkg("github.com/missing/mod", "v1.0.0", None, Ecosystem::Go),
    ];
    let found = vec![
        texts(&[Some(
            "Redistribution and use in source and binary forms, with or without modification...",
        )]),
        vec![],
    ];
    let scanned = apply_license_files(&packages, &found, false);
    assert_eq!(scanned[0].license.as_deref(), Some("BSD-2-Clause"));
    assert_eq!(scanned[0].license_source, LicenseSource::LicenseFile);
    assert_eq!(scanned[1].license, None);
}

fn visit(manifest: &str, license_files: &[Option<&str>]) -> (String, Vec<Option<String>>) {
    (manifest.to_string(), texts(license_files))
}

#[test]
fn license_file_fallback_detects_mit() {
    // node_modules/file-only holds package.json and LICENSE.
    let visited = vec![visit(
        r#"{"name":"file-only","version":"1.0.0"}"#,
        &[Some("MIT License\n\nPermission is hereby granted, free of charge...")],
    )];
    let packages = npm::scan(&visited);
    let pkg = packages.iter().find(|p| p.name == "file-only").unwrap();
    assert_eq!(pkg.license.as_deref(), Some("MIT"));
    assert_eq!(pkg.license_source, LicenseSource::LicenseFile);
}

#[test]
fn see_license_placeholder_triggers_file_fallback() {
    // node_modules/see-pkg holds package.json and LICENSE.txt (third name probed).
    let visited = vec![visit(
        r#"{"name":"see-pkg","version":"1.0.0","license":"SEE LICENSE IN LICENSE.txt"}"#,
        &[None, None, Some("GNU GENERAL PUBLIC LICENSE\nVersion 3, 29 June 2007")],
    )];
    let packages = npm::scan(&visited);
    let pkg = packages.iter().find(|p| p.name == "see-pkg").unwrap();
    assert_eq!(pkg.license.as_deref(), Some("GPL-3.0"));
    assert_eq!(pkg.license_source, LicenseSource::LicenseFile);
}

#[test]
fn unidentifiable_license_file_keeps_placeholder() {
    let visited = vec![visit(
        r#"{"name":"opaque","version":"1.0.0"}"#,
        &[Some("All rights reserved.")],
    )];
    let packages = npm::scan(&visited);
    let pkg = packages.iter().find(|p| p.name == "opaque").unwrap();
    assert_eq!(pkg.license, None);
    assert_eq!(pkg.license_source, LicenseSource::NotFound);
}

#[test]
fn scans_flat_scoped_and_nested_packages() {
    // Walk order: alpha, its nested gamma and alpha-dup, then @scope/beta.
    let visited = vec![
        visit(r#"{"name":"alpha","version":"1.0.0","license":"MIT"}"#, &[]),
        visit(r#"{"name":"gamma","version":"0.1.0","license":"ISC"}"#, &[]),
        visit(r#"{"name":"alpha","version":"1.0.0","license":"MIT"}"#, &[]),
        visit(r#"{"name":"@scope/beta","version":"2.0.0","license":"GPL-3.0"}"#, &[]),
    ];
    let packages = npm::scan(&visited);
    let names: Vec<&str> = packages.iter().map(|p| p.name.as_str()).collect();
    assert_eq!(names, vec!["@scope/beta", "alpha", "gamma"]);
}

#[test]
fn missing_node_modules_yields_empty_list() {
    assert!(npm::scan(&[]).is_empty());
}

#[test]
fn detects_license_from_vendor_bundle() {
    let packages = vec![
        pkg("rails", "7.1.0", None, Ecosystem::Ruby),
        pkg("rake", "13.1.0", None, Ecosystem::Ruby),
        pkg("missing", "1.0.0", None, Ecosystem::Ruby),
    ];
    // One gem home: specifications/rails-7.1.0.gemspec and gems/rake-13.1.0/MIT-LICENSE.
    let mit_license_slot = |text: &str| {
        let mut t = vec![None; 23];
        t.push(Some(text.to_string()));
        t
    };
    let gems = vec![
        vec![(Some("s.license = \"MIT\".freeze\n".to_string()), vec![])],
        vec![(None, mit_license_slot("MIT License\n\nPermission is hereby granted, free of charge..."))],
        vec![(None, vec![])],
    ];
    let scanned = ruby::scan(&packages, &gems);
    assert_eq!(scanned[0].license.as_deref(), Some("MIT"));
    assert_eq!(scanned[0].license_source, LicenseSource::Declared);
    assert_eq!(scanned[1].license.as_deref(), Some("MIT"));
    assert_eq!(scanned[1].license_source, LicenseSource::LicenseFile);
    assert_eq!(scanned[2].license, None);
}

#[test]
fn reads_license_from_fake_m2() {
    assert_eq!(
        m2_pom_path("com.google.guava:guava", "33.0.0-jre").unwrap().join("/"),
        "com/google/guava/guava/33.0.0-jre/guava-33.0.0-jre.pom"
    );
    let packages = vec![
        pkg("com.google.guava:guava", "33.0.0-jre", None, Ecosystem::Java),
        pkg("org.missing:artifact", "1.0", None, Ecosystem::Java),
    ];
    let poms = texts(&[
        Some("<project><licenses><license><name>Apache License, Version 2.0</name></license></licenses></project>"),
        None,
    ]);
    let scanned = java::scan(&packages, &poms);
    assert_eq!(scanned[0].license.as_deref(), Some("Apache License, Version 2.0"));
    assert_eq!(scanned[1].license, None);
}

#[test]
fn finds_vcpkg_copyright_in_installed_tree() {
    let packages = dep_lens_core::scanner::cpp::parse_vcpkg_manifest(
        r#"{"dependencies": ["fmt", "missing"]}"#,
    )
    .unwrap();
    // vcpkg_installed/x64-linux/share/fmt/copyright exists; nothing for "missing".
    let copyrights = vec![
        texts(&[Some("MIT License\n\nPermission is hereby granted, free of charge...")]),
        texts(&[None]),
    ];
    let scanned = apply_license_files(&packages, &copyrights, true);
    assert_eq!(scanned[0].license.as_deref(), Some("MIT"));
    assert_eq!(scanned[0].license_source, LicenseSource::LicenseFile);
    assert_eq!(scanned[1].license, None);
}
