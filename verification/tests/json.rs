use dep_lens_core::model::{
    ClassifiedPackage, CommercialUse, DependencyType, Ecosystem, LicenseCategory, LicenseSource,
    Report, RiskLevel, Summary,
};
use dep_lens_core::report::json::{render, render_pretty};

fn sample_report() -> Report {
    Report {
        project: "sample".to_string(),
        scanned_at: "2026-06-12T00:00:00Z".to_string(),
        path: "/tmp/sample".to_string(),
        summary: Summary {
            total: 1,
            permissive: 1,
            weak_copyleft: 0,
            strong_copyleft: 0,
            unknown: 0,
        },
        packages: vec![ClassifiedPackage {
            name: "alpha".to_string(),
            version: "1.0.0".to_string(),
            license: "MIT".to_string(),
            license_source: LicenseSource::Declared,
            ecosystem: Ecosystem::Npm,
            dependency_type: DependencyType::Direct,
            category: LicenseCategory::Permissive,
            risk_score: 0,
            risk_level: RiskLevel::Low,
            commercial_use: CommercialUse::Yes,
        }],
    }
}

#[test]
fn uses_camel_case_keys() {
    let json = render(&sample_report()).unwrap();
    assert!(json.contains("\"scannedAt\""));
    assert!(json.contains("\"riskScore\""));
    assert!(json.contains("\"riskLevel\""));
    assert!(json.contains("\"commercialUse\""));
    assert!(json.contains("\"weakCopyleft\""));
    assert!(json.contains("\"strongCopyleft\""));
    assert!(json.contains("\"licenseSource\":\"declared\""));
}

#[test]
fn enums_serialize_as_expected_strings() {
    let json = render(&sample_report()).unwrap();
    assert!(json.contains("\"category\":\"Permissive\""));
    assert!(json.contains("\"riskLevel\":\"low\""));
    assert!(json.contains("\"commercialUse\":\"yes\""));
    assert!(json.contains("\"ecosystem\":\"npm\""));
}

#[test]
fn compact_json_is_exact_and_parses_back() {
    let json = render(&sample_report()).unwrap();
    assert_eq!(
        json,
        "{\"project\":\"sample\",\"scannedAt\":\"2026-06-12T00:00:00Z\",\"path\":\"/tmp/sample\",\
         \"summary\":{\"total\":1,\"permissive\":1,\"weakCopyleft\":0,\"strongCopyleft\":0,\"unknown\":0},\
         \"packages\":[{\"name\":\"alpha\",\"version\":\"1.0.0\",\"license\":\"MIT\",\
         \"licenseSource\":\"declared\",\"ecosystem\":\"npm\",\"dependencyType\":\"direct\",\
         \"category\":\"Permissive\",\"riskScore\":0,\"riskLevel\":\"low\",\"commercialUse\":\"yes\"}]}"
    );
    let value: serde_json::Value = serde_json::from_str(&json).unwrap();
    assert_eq!(value["packages"][0]["name"], "alpha");
    assert_eq!(value["summary"]["total"], 1);
}

#[test]
fn strings_are_escaped_by_serde_json() {
    let mut report = sample_report();
    report.project = "quote\" back\\ new\nline tab\t é".to_string();
    report.packages[0].license_source = LicenseSource::NotFound;
    report.packages[0].ecosystem = Ecosystem::Cpp;
    report.packages[0].category = LicenseCategory::WeakCopyleft;
    report.packages[0].risk_score = 55;
    let json = render(&report).unwrap();
    assert!(json.starts_with(
        "{\"project\":\"quote\\\" back\\\\ new\\nline tab\\t é\","
    ));
    assert!(json.contains("\"licenseSource\":\"none\""));
    assert!(json.contains("\"ecosystem\":\"cpp\""));
    assert!(json.contains("\"category\":\"WeakCopyleft\""));
    assert!(json.contains("\"riskScore\":55"));
    let value: serde_json::Value = serde_json::from_str(&json).unwrap();
    assert_eq!(value["project"], "quote\" back\\ new\nline tab\t é");
}

#[test]
fn pretty_json_indents_two_spaces() {
    let pretty = render_pretty(&sample_report()).unwrap();
    assert!(pretty.starts_with("{\n  \"project\": \"sample\",\n  \"scannedAt\": "));
    assert!(pretty.contains("\n  \"summary\": {\n    \"total\": 1,\n    \"permissive\": 1,"));
    assert!(pretty.contains("\n  \"packages\": [\n    {\n      \"name\": \"alpha\",\n"));
    assert!(pretty.ends_with("\"commercialUse\": \"yes\"\n    }\n  ]\n}"));
    let value: serde_json::Value = serde_json::from_str(&pretty).unwrap();
    let compact: serde_json::Value = serde_json::from_str(&render(&sample_report()).unwrap()).unwrap();
    assert_eq!(value, compact);
    let mut empty = sample_report();
    empty.packages.clear();
    assert!(render_pretty(&empty).unwrap().ends_with("\"packages\": []\n}"));
    assert!(render(&empty).unwrap().ends_with("\"packages\":[]}"));
}

#[test]
fn strings_are_escaped_as_json_literals() {
    let mut report = sample_report();
    report.project = "a\"b\\c\u{1}\u{8}\t\n\u{c}\r\u{1f}\u{7f}é".to_string();
    let json = render(&report).unwrap();
    assert!(json.starts_with(
        "{\"project\":\"a\\\"b\\\\c\\u0001\\b\\t\\n\\f\\r\\u001f\u{7f}é\",\"scannedAt\":"
    ));
    let pretty = render_pretty(&report).unwrap();
    assert!(pretty.contains("\"project\": \"a\\\"b\\\\c\\u0001\\b\\t\\n\\f\\r\\u001f\u{7f}é\""));
}
