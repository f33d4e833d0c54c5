use dep_lens_core::model::{
    ClassifiedPackage, CommercialUse, DependencyType, Ecosystem, LicenseCategory, LicenseSource,
    Report, RiskLevel, Summary,
};
use dep_lens_core::report::html::{escape, render};

fn sample_report() -> Report {
    Report {
        project: "x<y>&\"z\"".to_string(),
        scanned_at: "2026-06-12T00:00:00Z".to_string(),
        path: "/tmp/x".to_string(),
        summary: Summary {
            total: 2,
            permissive: 1,
            weak_copyleft: 0,
            strong_copyleft: 1,
            unknown: 0,
        },
        packages: vec![
            ClassifiedPackage {
                name: "<script>alert(1)</script>".to_string(),
                version: "1.0.0".to_string(),
                license: "MIT".to_string(),
                license_source: LicenseSource::Declared,
                ecosystem: Ecosystem::Npm,
                dependency_type: DependencyType::Direct,
                category: LicenseCategory::Permissive,
                risk_score: 0,
                risk_level: RiskLevel::Low,
                commercial_use: CommercialUse::Yes,
            },
            ClassifiedPackage {
                name: "gplware".to_string(),
                version: "2.0.0".to_string(),
                license: "GPL-3.0".to_string(),
                license_source: LicenseSource::LicenseFile,
                ecosystem: Ecosystem::Cargo,
                dependency_type: DependencyType::Transitive,
                category: LicenseCategory::StrongCopyleft,
                risk_score: 90,
                risk_level: RiskLevel::High,
                commercial_use: CommercialUse::Restricted,
            },
        ],
    }
}

fn summary_report(total: usize, permissive: usize) -> Report {
    Report {
        project: "p".to_string(),
        scanned_at: "t".to_string(),
        path: "/p".to_string(),
        summary: Summary {
            total,
            permissive,
            weak_copyleft: 0,
            strong_copyleft: 0,
            unknown: total.saturating_sub(permissive),
        },
        packages: Vec::new(),
    }
}

#[test]
fn escapes_html_in_package_names_and_project() {
    let html = render(&sample_report(), "en");
    assert!(!html.contains("<script>alert(1)</script>"));
    assert!(html.contains("&lt;script&gt;alert(1)&lt;/script&gt;"));
    assert!(html.contains("x&lt;y&gt;&amp;&quot;z&quot;"));
}

#[test]
fn contains_summary_counts_and_packages() {
    let html = render(&sample_report(), "en");
    assert!(html.contains("Total packages: 2"));
    assert!(html.contains("gplware"));
    assert!(html.contains("Strong Copyleft"));
    assert!(html.contains("50.0"));
}

#[test]
fn supports_turkish_localization() {
    let html = render(&sample_report(), "tr");
    assert!(html.contains("dep-lens lisans raporu"));
    assert!(html.contains("Toplam paket: 2"));
}

#[test]
fn escape_replaces_each_special_character() {
    assert_eq!(escape("a&b<c>d\"e'f"), "a&amp;b&lt;c&gt;d&quot;e&#39;f");
    assert_eq!(escape("plain"), "plain");
    assert_eq!(escape(""), "");
    assert!(!escape("<<>>").contains('<'));
    assert!(!escape("<<>>").contains('>'));
}

#[test]
fn rows_carry_search_text_type_and_source() {
    let html = render(&sample_report(), "en");
    assert!(html.contains(
        "<tr data-category=\"strong\" data-search=\"gplware gpl-3.0 strong copyleft\">"
    ));
    assert!(html.contains("<td>cargo</td>"));
    assert!(html.contains("<td>transitive</td>"));
    assert!(html.contains("<td>High</td><td>Restricted</td><td>license file</td></tr>"));
    assert!(html.contains("<td class=\"num\" data-value=\"90\">90</td>"));
    assert!(html.starts_with("<!DOCTYPE html>\n<html lang=\"en\">"));
    assert!(html.ends_with("</html>\n"));
}

#[test]
fn percentages_round_like_one_decimal_formatting() {
    for (total, part) in [
        (3usize, 1usize), (3, 2), (7, 1), (8, 1), (6, 1), (16, 1), (40, 1), (1999, 1), (1999, 3),
        (200, 1), (0, 0), (2000, 1), (2000, 3), (2000, 7), (2000, 9), (99_991, 7), (123_456, 789),
        (4_000_000_000, 3), (5, 7),
    ] {
        let html = render(&summary_report(total, part), "en");
        let expected = if total == 0 {
            "0.0".to_string()
        } else {
            format!("{:.1}", part as f64 * 100.0 / total as f64)
        };
        let card = format!(
            "<span class=\"card-label\">Permissive</span><span class=\"card-pct\">{expected}%</span>"
        );
        assert!(html.contains(&card), "{part}/{total}: {expected}");
    }
}

#[test]
fn unknown_language_falls_back_to_english() {
    let html = render(&sample_report(), "de");
    assert!(html.contains("<html lang=\"de\">"));
    assert!(html.contains("dep-lens license report"));
}

fn row_slugs(page: &str) -> Vec<String> {
    let opening = "<tr data-category=\"";
    page.match_indices(opening)
        .map(|(i, _)| {
            let rest = &page[i + opening.len()..];
            rest[..rest.find('"').unwrap()].to_string()
        })
        .collect()
}

#[test]
fn one_row_per_package_in_report_order() {
    let report = sample_report();
    for lang in ["en", "tr", "de"] {
        let page = render(&report, lang);
        assert_eq!(row_slugs(&page), vec!["permissive", "strong"]);
    }
    let mut empty = sample_report();
    empty.packages.clear();
    assert!(row_slugs(&render(&empty, "en")).is_empty());
}
