use dep_lens_core::model::{DependencyType, Ecosystem, LicenseSource, Package};
use dep_lens_core::order::{dedup_adjacent_packages, dedup_first, sort_packages};

fn pkg(name: &str, version: &str, license: &str) -> Package {
    Package {
        name: name.to_string(),
        version: version.to_string(),
        license: Some(license.to_string()),
        license_source: LicenseSource::Declared,
        ecosystem: Ecosystem::Java,
        dependency_type: DependencyType::Direct,
    }
}

fn keys(ps: &[Package]) -> Vec<(String, String, String)> {
    ps.iter()
        .map(|p| (p.name.clone(), p.version.clone(), p.license.clone().unwrap()))
        .collect()
}

#[test]
fn sorting_is_stable_and_byte_ordered() {
    let sorted = sort_packages(vec![
        pkg("b", "1", "x"),
        pkg("B", "1", "y"),
        pkg("a", "2", "z"),
        pkg("a", "10", "w"),
        pkg("b", "1", "v"),
        pkg("é", "1", "u"),
    ]);
    let got: Vec<(String, String)> =
        sorted.iter().map(|p| (p.name.clone(), p.version.clone())).collect();
    let mut expected = got.clone();
    expected.sort();
    assert_eq!(got, expected);
    assert_eq!(sorted[0].name, "B");
    assert_eq!(sorted[1].version, "10");
    assert_eq!(sorted[3].license.as_deref(), Some("x"));
    assert_eq!(sorted[4].license.as_deref(), Some("v"));
    assert_eq!(sorted[5].name, "é");
}

#[test]
fn first_occurrence_of_each_key_is_kept() {
    let kept = dedup_first(vec![
        pkg("a", "1", "first"),
        pkg("b", "1", "b"),
        pkg("a", "1", "second"),
        pkg("a", "2", "other"),
    ]);
    assert_eq!(
        keys(&kept),
        vec![
            ("a".to_string(), "1".to_string(), "first".to_string()),
            ("b".to_string(), "1".to_string(), "b".to_string()),
            ("a".to_string(), "2".to_string(), "other".to_string()),
        ]
    );
}

#[test]
fn sorted_then_deduplicated_lists_hold_each_coordinate_once() {
    let list = dedup_adjacent_packages(sort_packages(vec![
        pkg("g:a", "1", "x"),
        pkg("g:b", "1", "y"),
        pkg("g:a", "1", "z"),
        pkg("g:a", "2", "w"),
    ]));
    assert_eq!(
        keys(&list),
        vec![
            ("g:a".to_string(), "1".to_string(), "x".to_string()),
            ("g:a".to_string(), "2".to_string(), "w".to_string()),
            ("g:b".to_string(), "1".to_string(), "y".to_string()),
        ]
    );
}
