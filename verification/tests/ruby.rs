use dep_lens_core::model::DependencyType;
use dep_lens_core::scanner::ruby::{parse_gemspec_license, parse_lockfile};

const LOCKFILE: &str = "GEM\n  remote: https://rubygems.org/\n  specs:\n    rails (7.1.0)\n      rake (>= 12.2)\n    rake (13.1.0)\n\nPLATFORMS\n  ruby\n\nDEPENDENCIES\n  rails\n\nBUNDLED WITH\n   2.5.4\n";

#[test]
fn parses_specs_and_direct_dependencies() {
    let packages = parse_lockfile(LOCKFILE);
    let names: Vec<&str> = packages.iter().map(|p| p.name.as_str()).collect();
    assert_eq!(names, vec!["rails", "rake"]);
    assert_eq!(packages[0].version, "7.1.0");
    assert_eq!(packages[0].dependency_type, DependencyType::Direct);
    assert_eq!(packages[1].dependency_type, DependencyType::Transitive);
}

#[test]
fn parses_gemspec_single_license() {
    let raw = "Gem::Specification.new do |s|\n  s.name = \"rails\".freeze\n  s.license = \"MIT\".freeze\nend\n";
    assert_eq!(parse_gemspec_license(raw), Some("MIT".to_string()));
}

#[test]
fn parses_gemspec_license_array() {
    let raw = "  s.licenses = [\"Ruby\".freeze, \"BSD-2-Clause\".freeze]\n";
    assert_eq!(
        parse_gemspec_license(raw),
        Some("Ruby OR BSD-2-Clause".to_string())
    );
}

#[test]
fn gemspec_without_license_yields_none() {
    assert_eq!(parse_gemspec_license("s.name = \"x\""), None);
}

#[test]
fn bang_marked_dependencies_are_direct() {
    let lock = "GEM\n  specs:\n    local (0.1.0)\n    other (1.0)\n\nDEPENDENCIES\n  local!\n";
    let packages = parse_lockfile(lock);
    assert_eq!(packages.len(), 2);
    assert_eq!(packages[0].dependency_type, DependencyType::Direct);
    assert_eq!(packages[1].dependency_type, DependencyType::Transitive);
    assert_eq!(packages[1].version, "1.0");
}

#[test]
fn gemspec_skips_empty_quoted_values() {
    assert_eq!(parse_gemspec_license("s.licenses = [\"\", \"MIT\"]"), Some("MIT".to_string()));
    assert_eq!(parse_gemspec_license("s.license = nil\ns.license = \"ISC\""), Some("ISC".to_string()));
}
