use dep_lens_core::model::{DependencyType, Ecosystem, LicenseSource};
use dep_lens_core::scanner::python::{
    extract_quoted, locked_or_declared, pyproject_packages, mark_direct, normalize_name, parse_metadata_license, parse_pipfile_lock,
    parse_poetry_lock, parse_requirements, pyproject_direct_dependencies, requirement_name,
};

#[test]
fn parses_poetry_lock_packages() {
    let raw = "[[package]]\nname = \"requests\"\nversion = \"2.31.0\"\n\n[[package]]\nname = \"flask\"\nversion = \"3.0.0\"\n";
    let packages = parse_poetry_lock(raw);
    let names: Vec<&str> = packages.iter().map(|p| p.name.as_str()).collect();
    assert_eq!(names, vec!["requests", "flask"]);
    assert_eq!(packages[0].version, "2.31.0");
    assert_eq!(packages[0].ecosystem, Ecosystem::Python);
}

#[test]
fn parses_requirements_txt() {
    let raw = "# comment\nrequests==2.31.0\nflask==3.0.0 ; python_version >= \"3.8\"\n-r other.txt\nunpinned>=1.0\n";
    let packages = parse_requirements(raw);
    let names: Vec<&str> = packages.iter().map(|p| p.name.as_str()).collect();
    assert_eq!(names, vec!["requests", "flask"]);
    assert_eq!(packages[1].version, "3.0.0");
}

#[test]
fn metadata_license_header_wins() {
    let raw = "Metadata-Version: 2.1\nName: requests\nLicense: Apache-2.0\nClassifier: License :: OSI Approved :: MIT License\n\nBody text";
    assert_eq!(parse_metadata_license(raw), Some("Apache-2.0".to_string()));
}

#[test]
fn metadata_falls_back_to_classifier() {
    let raw = "Metadata-Version: 2.1\nName: flask\nLicense: UNKNOWN\nClassifier: License :: OSI Approved :: BSD License\n\nBody";
    assert_eq!(parse_metadata_license(raw), Some("BSD License".to_string()));
}

#[test]
fn metadata_without_license_yields_none() {
    let raw = "Metadata-Version: 2.1\nName: opaque\n\nLicense: MIT appears after blank line so ignored";
    assert_eq!(parse_metadata_license(raw), None);
}

#[test]
fn normalizes_pypi_names() {
    assert_eq!(normalize_name("Flask-SQLAlchemy"), "flask_sqlalchemy");
    assert_eq!(normalize_name("zope.interface"), "zope_interface");
}

#[test]
fn requirement_name_strips_version_spec() {
    assert_eq!(requirement_name("requests>=2.31,<3"), "requests");
    assert_eq!(requirement_name("Flask[async]==3.0"), "Flask");
}

#[test]
fn extracts_every_quoted_string() {
    assert_eq!(
        extract_quoted(r#"dependencies = ["a>=1", "b", "unterminated"#),
        vec!["a>=1".to_string(), "b".to_string()]
    );
    assert!(extract_quoted("no quotes").is_empty());
}

#[test]
fn pipfile_lock_reads_default_and_develop() {
    let raw = r#"{"_meta": {}, "default": {"requests": {"version": "==2.31.0"}, "idna": {}}, "develop": {"pytest": {"version": "==8.0.0"}}}"#;
    let packages = parse_pipfile_lock(raw).unwrap();
    let keys: Vec<(&str, &str)> = packages
        .iter()
        .map(|p| (p.name.as_str(), p.version.as_str()))
        .collect();
    assert_eq!(keys, vec![("idna", ""), ("requests", "2.31.0"), ("pytest", "8.0.0")]);
    assert_eq!(packages[0].dependency_type, DependencyType::Transitive);
    assert!(parse_pipfile_lock("{").is_err());
}

#[test]
fn pyproject_direct_dependencies_cover_both_layouts() {
    let raw = "[project]\nname = \"app\"\ndependencies = [\n  \"Requests>=2\",\n  \"flask[async]\",\n]\n\n[tool.poetry.dependencies]\npython = \"^3.11\"\nZope.Interface = \"*\"\n";
    let direct = pyproject_direct_dependencies(raw);
    assert_eq!(direct, vec!["requests", "flask", "zope_interface"]);
    let packages = parse_requirements("requests==2.31.0\nidna==3.6\n");
    let marked = mark_direct(&packages, &direct);
    assert_eq!(marked[0].dependency_type, DependencyType::Direct);
    assert_eq!(marked[1].dependency_type, DependencyType::Transitive);
    assert_eq!(marked[1].license_source, LicenseSource::NotFound);
}

#[test]
fn pyproject_without_lockfile_lists_declared_dependencies() {
    let raw = "[project]\nname = \"demo\"\ndependencies = [\n  \"requests>=2.31\",\n  \"Flask[async]==3.0 ; python_version >= '3.8'\",\n  \"rich\",\n]\n\n[tool.poetry.dependencies]\npython = \"^3.11\"\nclick = \"^8.1\"\nhttpx = { version = \"^0.27\", extras = [\"http2\"] }\nlocal = { path = \"../local\" }\n";
    let packages = pyproject_packages(raw);
    let got: Vec<(&str, &str)> = packages
        .iter()
        .map(|p| (p.name.as_str(), p.version.as_str()))
        .collect();
    assert_eq!(
        got,
        vec![
            ("requests", ">=2.31"),
            ("Flask", "==3.0"),
            ("rich", "*"),
            ("click", "^8.1"),
            ("httpx", "^0.27"),
            ("local", "*"),
        ]
    );
    for p in &packages {
        assert_eq!(p.dependency_type, DependencyType::Direct);
        assert_eq!(p.ecosystem, Ecosystem::Python);
        assert_eq!(p.license, None);
        assert_eq!(p.license_source, LicenseSource::NotFound);
    }
    let one_line = pyproject_packages("[project]\ndependencies = [\"requests>=2.31\", \"idna\"]\n");
    assert_eq!(one_line.len(), 2);
    assert_eq!(one_line[0].version, ">=2.31");
    assert!(pyproject_packages("[tool.other]\ndependencies = [\"x\"]\n").is_empty());
}

#[test]
fn lockfile_packages_win_over_declarations() {
    let pyproject = "[project]\ndependencies = [\"requests>=2.31\"]\n";
    let declared = locked_or_declared(None, Some(pyproject));
    assert_eq!(declared.len(), 1);
    assert_eq!(declared[0].name, "requests");
    assert_eq!(declared[0].version, ">=2.31");
    let locked = locked_or_declared(Some(parse_requirements("idna==3.6\n")), Some(pyproject));
    assert_eq!(locked.len(), 1);
    assert_eq!(locked[0].name, "idna");
    assert!(locked_or_declared(Some(Vec::new()), Some(pyproject)).is_empty());
    assert!(locked_or_declared(None, None).is_empty());
}

#[test]
fn bracketed_extras_do_not_close_the_dependency_array() {
    let raw = "[project]\ndependencies = [\n  \"flask[async]>=3\",\n  \"Rich\",\n]\nother = [\"x\"]\n";
    assert_eq!(pyproject_direct_dependencies(raw), vec!["flask", "rich"]);
    let packages = pyproject_packages(raw);
    let names: Vec<&str> = packages.iter().map(|p| p.name.as_str()).collect();
    assert_eq!(names, vec!["flask", "Rich"]);
    assert_eq!(packages[0].version, ">=3");
    assert_eq!(packages[1].version, "*");
}
