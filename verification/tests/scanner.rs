use dep_lens_core::model::{DependencyType, Ecosystem, LicenseSource, Package};
use dep_lens_core::scanner::{apply_found_licenses, identify_first};

fn pkg(name: &str, license: Option<&str>) -> Package {
    Package {
        name: name.to_string(),
        version: "1.0.0".to_string(),
        license: license.map(str::to_string),
        license_source: if license.is_some() {
            LicenseSource::Declared
        } else {
            LicenseSource::NotFound
        },
        ecosystem: Ecosystem::Go,
        dependency_type: DependencyType::Direct,
    }
}

#[test]
fn first_recognised_license_file_wins() {
    let texts = vec![
        None,
        Some("All rights reserved.".to_string()),
        Some("MIT License\n\nPermission is hereby granted, free of charge...".to_string()),
        Some("GNU GENERAL PUBLIC LICENSE Version 3".to_string()),
    ];
    assert_eq!(identify_first(&texts), Some("MIT".to_string()));
    assert_eq!(identify_first(&[]), None);
    assert_eq!(identify_first(&[Some("nothing".to_string())]), None);
}

#[test]
fn found_licenses_are_applied_by_position() {
    let packages = vec![pkg("a", None), pkg("b", Some("MIT")), pkg("c", None)];
    let found = vec![
        Some(("BSD-2-Clause".to_string(), LicenseSource::LicenseFile)),
        Some(("GPL-3.0".to_string(), LicenseSource::LicenseFile)),
    ];
    let only_missing = apply_found_licenses(&packages, &found, true);
    assert_eq!(only_missing[0].license.as_deref(), Some("BSD-2-Clause"));
    assert_eq!(only_missing[0].license_source, LicenseSource::LicenseFile);
    assert_eq!(only_missing[1].license.as_deref(), Some("MIT"));
    assert_eq!(only_missing[1].license_source, LicenseSource::Declared);
    assert_eq!(only_missing[2].license, None);
    let all = apply_found_licenses(&packages, &found, false);
    assert_eq!(all[1].license.as_deref(), Some("GPL-3.0"));
    assert_eq!(all[1].license_source, LicenseSource::LicenseFile);
    assert_eq!(all.len(), 3);
}
