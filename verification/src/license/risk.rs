//! Commercial risk scoring.
use vstd::prelude::*;

use crate::model::{CommercialUse, LicenseCategory, RiskLevel};
use crate::text;

verus! {

/// Result of assessing one license for commercial risk.
#[derive(Debug, Clone, Copy, PartialEq, Eq, Structural)]
pub struct RiskAssessment {
    pub score: u8,
    pub level: RiskLevel,
    pub commercial_use: CommercialUse,
}

/// The coarse level of a numeric score: below 30 is low, below 70 medium.
pub open spec fn level_of(score: int) -> RiskLevel {
    if score <= 29 {
        RiskLevel::Low
    } else if score <= 69 {
        RiskLevel::Medium
    } else {
        RiskLevel::High
    }
}

/// Map a numeric score (0-100) to a coarse level.
pub fn level_for_score(score: u8) -> (level: RiskLevel)
    ensures
        level == level_of(score as int),
{
    if score <= 29 {
        RiskLevel::Low
    } else if score <= 69 {
        RiskLevel::Medium
    } else {
        RiskLevel::High
    }
}

/// The score of a license of the given category, `upper` being the license
/// string in uppercase.
pub open spec fn score_of(category: LicenseCategory, upper: Seq<char>) -> u8 {
    match category {
        LicenseCategory::Permissive => 0,
        LicenseCategory::WeakCopyleft => {
            if text::contains(upper, "CDDL"@) {
                55
            } else if text::contains(upper, "LGPL"@) {
                50
            } else if text::contains(upper, "EPL"@) {
                45
            } else {
                40
            }
        },
        LicenseCategory::StrongCopyleft => {
            if text::contains(upper, "AGPL"@) || text::contains(upper, "SSPL"@) {
                100
            } else {
                90
            }
        },
        LicenseCategory::Unknown => 60,
    }
}

/// Whether a license of the given category is fit for commercial use.
pub open spec fn commercial_use_of(category: LicenseCategory) -> CommercialUse {
    match category {
        LicenseCategory::Permissive => CommercialUse::Yes,
        LicenseCategory::WeakCopyleft => CommercialUse::Caution,
        LicenseCategory::StrongCopyleft => CommercialUse::Restricted,
        LicenseCategory::Unknown => CommercialUse::Review,
    }
}

/// The assessment of a license string of the given category.
pub open spec fn assessment_of(category: LicenseCategory, license: Seq<char>) -> RiskAssessment {
    let score = score_of(category, text::uppercase(license));
    RiskAssessment {
        score,
        level: level_of(score as int),
        commercial_use: commercial_use_of(category),
    }
}

/// Assess commercial risk for a classified license.
///
/// Scores by family:
/// - Permissive: 0
/// - Weak copyleft: MPL 40, EPL 45, LGPL 50, CDDL 55 (roughly ordered by how
///   far the copyleft obligation reaches beyond the library itself)
/// - Strong copyleft: 90; AGPL and SSPL score 100 because their network
///   clauses also cover SaaS usage without distribution
/// - Unknown: 60, since an unidentified license cannot be assumed safe
pub fn assess(category: LicenseCategory, license: &str) -> (a: RiskAssessment)
    ensures
        a == assessment_of(category, license@),
{
    let chars = text::to_chars(license);
    let upper = text::to_uppercase(&chars);
    let score: u8 = match category {
        LicenseCategory::Permissive => 0,
        LicenseCategory::WeakCopyleft => {
            if text::contains_lit(&upper, "CDDL") {
                55
            } else if text::contains_lit(&upper, "LGPL") {
                50
            } else if text::contains_lit(&upper, "EPL") {
                45
            } else {
                40
            }
        },
        LicenseCategory::StrongCopyleft => {
            if text::contains_lit(&upper, "AGPL") || text::contains_lit(&upper, "SSPL") {
                100
            } else {
                90
            }
        },
        LicenseCategory::Unknown => 60,
    };
    let commercial_use = match category {
        LicenseCategory::Permissive => CommercialUse::Yes,
        LicenseCategory::WeakCopyleft => CommercialUse::Caution,
        LicenseCategory::StrongCopyleft => CommercialUse::Restricted,
        LicenseCategory::Unknown => CommercialUse::Review,
    };
    RiskAssessment { score, level: level_for_score(score), commercial_use }
}

/// Every score lies in 0..=100, and the category alone fixes the level and
/// the commercial-use advice: permissive licenses are low risk and fit for
/// commercial use, weak copyleft is medium risk with caution, strong
/// copyleft high risk and restricted, and an unknown license medium risk
/// that needs a closer look.
pub proof fn category_fixes_level(category: LicenseCategory, license: Seq<char>)
    ensures
        assessment_of(category, license).score <= 100,
        assessment_of(category, license).level == match category {
            LicenseCategory::Permissive => RiskLevel::Low,
            LicenseCategory::WeakCopyleft => RiskLevel::Medium,
            LicenseCategory::StrongCopyleft => RiskLevel::High,
            LicenseCategory::Unknown => RiskLevel::Medium,
        },
        assessment_of(category, license).commercial_use == commercial_use_of(category),
{
}

/// Levels never decrease as scores grow.
pub proof fn level_is_monotone(a: int, b: int)
    requires
        a <= b,
    ensures
        level_rank(level_of(a)) <= level_rank(level_of(b)),
{
}

/// The order of the risk levels.
pub open spec fn level_rank(level: RiskLevel) -> nat {
    match level {
        RiskLevel::Low => 0,
        RiskLevel::Medium => 1,
        RiskLevel::High => 2,
    }
}

} // verus!
