//! The data model: raw packages, classified packages and reports.
use vstd::prelude::*;

verus! {

/// Package ecosystem a dependency was discovered in.
#[derive(Debug, Clone, Copy, PartialEq, Eq, Structural)]
pub enum Ecosystem {
    Npm,
    Cargo,
    Go,
    Python,
    Ruby,
    Php,
    Java,
    Dart,
    Cpp,
}

/// Whether a dependency is direct (declared in the project manifest) or
/// transitive (pulled in by another dependency).
#[derive(Debug, Clone, Copy, PartialEq, Eq, Structural)]
pub enum DependencyType {
    Direct,
    Transitive,
}

/// License category buckets used for commercial risk classification.
#[derive(Debug, Clone, Copy, PartialEq, Eq, Hash, Structural)]
pub enum LicenseCategory {
    Permissive,
    WeakCopyleft,
    StrongCopyleft,
    Unknown,
}

/// Coarse risk level derived from the numeric risk score.
#[derive(Debug, Clone, Copy, PartialEq, Eq, Structural)]
pub enum RiskLevel {
    Low,
    Medium,
    High,
}

/// Whether a license is generally safe for commercial use.
#[derive(Debug, Clone, Copy, PartialEq, Eq, Structural)]
pub enum CommercialUse {
    Yes,
    Caution,
    Restricted,
    Review,
}

/// Where a package's license information came from.
#[derive(Debug, Clone, Copy, PartialEq, Eq, Structural)]
pub enum LicenseSource {
    /// Declared in the package manifest (package.json / Cargo.toml).
    Declared,
    /// Identified heuristically from a LICENSE/COPYING file.
    LicenseFile,
    /// No license information found anywhere (serialized as `none`).
    NotFound,
}

/// A raw dependency before license classification.
#[derive(Debug, Clone)]
pub struct Package {
    pub name: String,
    pub version: String,
    pub license: Option<String>,
    pub license_source: LicenseSource,
    pub ecosystem: Ecosystem,
    pub dependency_type: DependencyType,
}

/// The mathematical value of a [`Package`].
pub struct PackageView {
    pub name: Seq<char>,
    pub version: Seq<char>,
    pub license: Option<Seq<char>>,
    pub license_source: LicenseSource,
    pub ecosystem: Ecosystem,
    pub dependency_type: DependencyType,
}

/// The view of an optional string.
pub open spec fn opt_view(s: Option<String>) -> Option<Seq<char>> {
    match s {
        Some(x) => Some(x@),
        None => None,
    }
}

impl DeepView for Package {
    type V = PackageView;

    open spec fn deep_view(&self) -> PackageView {
        PackageView {
            name: self.name@,
            version: self.version@,
            license: opt_view(self.license),
            license_source: self.license_source,
            ecosystem: self.ecosystem,
            dependency_type: self.dependency_type,
        }
    }
}

/// A dependency after classification and risk assessment.
#[derive(Debug, Clone)]
pub struct ClassifiedPackage {
    pub name: String,
    pub version: String,
    pub license: String,
    pub license_source: LicenseSource,
    pub ecosystem: Ecosystem,
    pub dependency_type: DependencyType,
    pub category: LicenseCategory,
    pub risk_score: u8,
    pub risk_level: RiskLevel,
    pub commercial_use: CommercialUse,
}

/// Aggregate counts over all classified packages.
#[derive(Debug, Clone, Copy, PartialEq, Eq, Structural)]
pub struct Summary {
    pub total: usize,
    pub permissive: usize,
    pub weak_copyleft: usize,
    pub strong_copyleft: usize,
    pub unknown: usize,
}

/// Full scan report.
#[derive(Debug, Clone)]
pub struct Report {
    pub project: String,
    pub scanned_at: String,
    pub path: String,
    pub summary: Summary,
    pub packages: Vec<ClassifiedPackage>,
}


/// The name of a [`Ecosystem`] as the debug format writes it.
pub open spec fn ecosystem_name_spec(x: Ecosystem) -> Seq<char> {
    match x {
        Ecosystem::Npm => "Npm"@,
        Ecosystem::Cargo => "Cargo"@,
        Ecosystem::Go => "Go"@,
        Ecosystem::Python => "Python"@,
        Ecosystem::Ruby => "Ruby"@,
        Ecosystem::Php => "Php"@,
        Ecosystem::Java => "Java"@,
        Ecosystem::Dart => "Dart"@,
        Ecosystem::Cpp => "Cpp"@,
    }
}

/// The name of a [`Ecosystem`] as the debug format writes it.
pub fn ecosystem_name(x: Ecosystem) -> (r: &'static str)
    ensures
        r@ == ecosystem_name_spec(x),
{
    match x {
        Ecosystem::Npm => "Npm",
        Ecosystem::Cargo => "Cargo",
        Ecosystem::Go => "Go",
        Ecosystem::Python => "Python",
        Ecosystem::Ruby => "Ruby",
        Ecosystem::Php => "Php",
        Ecosystem::Java => "Java",
        Ecosystem::Dart => "Dart",
        Ecosystem::Cpp => "Cpp",
    }
}

/// The name of a [`DependencyType`] as the debug format writes it.
pub open spec fn dependency_type_name_spec(x: DependencyType) -> Seq<char> {
    match x {
        DependencyType::Direct => "Direct"@,
        DependencyType::Transitive => "Transitive"@,
    }
}

/// The name of a [`DependencyType`] as the debug format writes it.
pub fn dependency_type_name(x: DependencyType) -> (r: &'static str)
    ensures
        r@ == dependency_type_name_spec(x),
{
    match x {
        DependencyType::Direct => "Direct",
        DependencyType::Transitive => "Transitive",
    }
}

/// The name of a [`LicenseCategory`] as the debug format writes it.
pub open spec fn license_category_name_spec(x: LicenseCategory) -> Seq<char> {
    match x {
        LicenseCategory::Permissive => "Permissive"@,
        LicenseCategory::WeakCopyleft => "WeakCopyleft"@,
        LicenseCategory::StrongCopyleft => "StrongCopyleft"@,
        LicenseCategory::Unknown => "Unknown"@,
    }
}

/// The name of a [`LicenseCategory`] as the debug format writes it.
pub fn license_category_name(x: LicenseCategory) -> (r: &'static str)
    ensures
        r@ == license_category_name_spec(x),
{
    match x {
        LicenseCategory::Permissive => "Permissive",
        LicenseCategory::WeakCopyleft => "WeakCopyleft",
        LicenseCategory::StrongCopyleft => "StrongCopyleft",
        LicenseCategory::Unknown => "Unknown",
    }
}

/// The name of a [`RiskLevel`] as the debug format writes it.
pub open spec fn risk_level_name_spec(x: RiskLevel) -> Seq<char> {
    match x {
        RiskLevel::Low => "Low"@,
        RiskLevel::Medium => "Medium"@,
        RiskLevel::High => "High"@,
    }
}

/// The name of a [`RiskLevel`] as the debug format writes it.
pub fn risk_level_name(x: RiskLevel) -> (r: &'static str)
    ensures
        r@ == risk_level_name_spec(x),
{
    match x {
        RiskLevel::Low => "Low",
        RiskLevel::Medium => "Medium",
        RiskLevel::High => "High",
    }
}

/// The name of a [`CommercialUse`] as the debug format writes it.
pub open spec fn commercial_use_name_spec(x: CommercialUse) -> Seq<char> {
    match x {
        CommercialUse::Yes => "Yes"@,
        CommercialUse::Caution => "Caution"@,
        CommercialUse::Restricted => "Restricted"@,
        CommercialUse::Review => "Review"@,
    }
}

/// The name of a [`CommercialUse`] as the debug format writes it.
pub fn commercial_use_name(x: CommercialUse) -> (r: &'static str)
    ensures
        r@ == commercial_use_name_spec(x),
{
    match x {
        CommercialUse::Yes => "Yes",
        CommercialUse::Caution => "Caution",
        CommercialUse::Restricted => "Restricted",
        CommercialUse::Review => "Review",
    }
}

/// The name of a [`LicenseSource`] as the debug format writes it.
pub open spec fn license_source_name_spec(x: LicenseSource) -> Seq<char> {
    match x {
        LicenseSource::Declared => "Declared"@,
        LicenseSource::LicenseFile => "LicenseFile"@,
        LicenseSource::NotFound => "None"@,
    }
}

/// The name of a [`LicenseSource`] as the debug format writes it.
pub fn license_source_name(x: LicenseSource) -> (r: &'static str)
    ensures
        r@ == license_source_name_spec(x),
{
    match x {
        LicenseSource::Declared => "Declared",
        LicenseSource::LicenseFile => "LicenseFile",
        LicenseSource::NotFound => "None",
    }
}
} // verus!
