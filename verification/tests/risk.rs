use dep_lens_core::license::risk::{assess, level_for_score};
use dep_lens_core::model::{CommercialUse, LicenseCategory, RiskLevel};

#[test]
fn permissive_is_low_risk_and_commercially_usable() {
    let a = assess(LicenseCategory::Permissive, "MIT");
    assert_eq!(a.score, 0);
    assert_eq!(a.level, RiskLevel::Low);
    assert_eq!(a.commercial_use, CommercialUse::Yes);
}

#[test]
fn weak_copyleft_is_medium_risk() {
    let a = assess(LicenseCategory::WeakCopyleft, "MPL-2.0");
    assert_eq!(a.score, 40);
    assert_eq!(a.level, RiskLevel::Medium);
    assert_eq!(a.commercial_use, CommercialUse::Caution);
}

#[test]
fn weak_copyleft_scores_scale_with_reach() {
    assert_eq!(assess(LicenseCategory::WeakCopyleft, "MPL-2.0").score, 40);
    assert_eq!(assess(LicenseCategory::WeakCopyleft, "EPL-2.0").score, 45);
    assert_eq!(assess(LicenseCategory::WeakCopyleft, "LGPL-2.1").score, 50);
    assert_eq!(assess(LicenseCategory::WeakCopyleft, "CDDL-1.0").score, 55);
}

#[test]
fn strong_copyleft_is_high_risk() {
    let a = assess(LicenseCategory::StrongCopyleft, "GPL-3.0");
    assert_eq!(a.score, 90);
    assert_eq!(a.level, RiskLevel::High);
    assert_eq!(a.commercial_use, CommercialUse::Restricted);
}

#[test]
fn network_copyleft_scores_maximum() {
    assert_eq!(
        assess(LicenseCategory::StrongCopyleft, "AGPL-3.0").score,
        100
    );
    assert_eq!(
        assess(LicenseCategory::StrongCopyleft, "SSPL-1.0").score,
        100
    );
}

#[test]
fn unknown_requires_review() {
    let a = assess(LicenseCategory::Unknown, "UNKNOWN");
    assert_eq!(a.score, 60);
    assert_eq!(a.level, RiskLevel::Medium);
    assert_eq!(a.commercial_use, CommercialUse::Review);
}

#[test]
fn level_boundaries() {
    assert_eq!(level_for_score(0), RiskLevel::Low);
    assert_eq!(level_for_score(29), RiskLevel::Low);
    assert_eq!(level_for_score(30), RiskLevel::Medium);
    assert_eq!(level_for_score(69), RiskLevel::Medium);
    assert_eq!(level_for_score(70), RiskLevel::High);
    assert_eq!(level_for_score(100), RiskLevel::High);
}

#[test]
fn category_alone_fixes_level_and_use() {
    for license in ["MPL-2.0", "mpl-2.0", "LGPL-3.0", "anything", ""] {
        let a = assess(LicenseCategory::WeakCopyleft, license);
        assert_eq!(a.level, RiskLevel::Medium, "{license}");
        assert_eq!(a.commercial_use, CommercialUse::Caution, "{license}");
    }
    assert_eq!(assess(LicenseCategory::WeakCopyleft, "anything").score, 40);
    assert_eq!(assess(LicenseCategory::WeakCopyleft, "lgpl-2.1").score, 50);
    assert_eq!(assess(LicenseCategory::StrongCopyleft, "agpl-3.0").score, 100);
    assert_eq!(assess(LicenseCategory::Permissive, "GPL-3.0").score, 0);
}
