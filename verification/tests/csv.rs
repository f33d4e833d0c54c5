use dep_lens_core::model::{
    ClassifiedPackage, CommercialUse, DependencyType, Ecosystem, LicenseCategory, LicenseSource,
    Report, RiskLevel, Summary,
};
use dep_lens_core::report::csv::render;

#[test]
fn csv_has_header_and_one_row_per_package() {
    let report = Report {
        project: "p".to_string(),
        scanned_at: "t".to_string(),
        path: "/p".to_string(),
        summary: Summary {
            total: 1,
            permissive: 0,
            weak_copyleft: 0,
            strong_copyleft: 0,
            unknown: 1,
        },
        packages: vec![ClassifiedPackage {
            name: "left-pad".to_string(),
            version: "1.3.0".to_string(),
            license: "UNKNOWN".to_string(),
            license_source: LicenseSource::NotFound,
            ecosystem: Ecosystem::Php,
            dependency_type: DependencyType::Transitive,
            category: LicenseCategory::WeakCopyleft,
            risk_score: 45,
            risk_level: RiskLevel::Medium,
            commercial_use: CommercialUse::Caution,
        }],
    };
    assert_eq!(
        render(&report),
        "Package,Version,License,Ecosystem,Type,Category,Risk Score,Risk Level,Commercial Use,Source\n\
         \"left-pad\",\"1.3.0\",\"UNKNOWN\",\"Php\",\"Transitive\",\"WeakCopyleft\",45,\"Medium\",\"Caution\",\"None\"\n"
    );
}
