use dep_lens_core::license::classifier::{classify, identify_license_text};
use dep_lens_core::model::LicenseCategory;

#[test]
fn classifies_permissive_licenses() {
    for id in [
        "MIT",
        "Apache-2.0",
        "BSD-2-Clause",
        "BSD-3-Clause",
        "ISC",
        "0BSD",
        "Unlicense",
        "CC0-1.0",
    ] {
        assert_eq!(classify(Some(id)), LicenseCategory::Permissive, "{id}");
    }
}

#[test]
fn classifies_weak_copyleft_licenses() {
    for id in ["LGPL-2.0", "LGPL-2.1", "LGPL-3.0", "MPL-2.0", "EPL-2.0"] {
        assert_eq!(classify(Some(id)), LicenseCategory::WeakCopyleft, "{id}");
    }
}

#[test]
fn classifies_strong_copyleft_licenses() {
    for id in ["GPL-2.0", "GPL-3.0", "AGPL-3.0"] {
        assert_eq!(classify(Some(id)), LicenseCategory::StrongCopyleft, "{id}");
    }
}

#[test]
fn unknown_for_missing_or_unrecognized() {
    assert_eq!(classify(None), LicenseCategory::Unknown);
    assert_eq!(classify(Some("")), LicenseCategory::Unknown);
    assert_eq!(classify(Some("   ")), LicenseCategory::Unknown);
    assert_eq!(classify(Some("Proprietary")), LicenseCategory::Unknown);
    assert_eq!(classify(Some("Elastic-2.0")), LicenseCategory::Unknown);
    assert_eq!(
        classify(Some("SEE LICENSE IN LICENSE.txt")),
        LicenseCategory::Unknown
    );
}

#[test]
fn normalizes_spdx_suffixes() {
    assert_eq!(
        classify(Some("GPL-3.0-only")),
        LicenseCategory::StrongCopyleft
    );
    assert_eq!(
        classify(Some("GPL-2.0-or-later")),
        LicenseCategory::StrongCopyleft
    );
    assert_eq!(classify(Some("LGPL-2.1+")), LicenseCategory::WeakCopyleft);
    assert_eq!(classify(Some("mit")), LicenseCategory::Permissive);
}

#[test]
fn or_expression_takes_least_restrictive() {
    assert_eq!(
        classify(Some("MIT OR Apache-2.0")),
        LicenseCategory::Permissive
    );
    assert_eq!(
        classify(Some("GPL-3.0 OR MIT")),
        LicenseCategory::Permissive
    );
    assert_eq!(
        classify(Some("(MIT OR GPL-2.0)")),
        LicenseCategory::Permissive
    );
    assert_eq!(classify(Some("MIT/GPL-2.0")), LicenseCategory::Permissive);
}

#[test]
fn and_expression_takes_most_restrictive() {
    assert_eq!(
        classify(Some("MIT AND GPL-2.0")),
        LicenseCategory::StrongCopyleft
    );
    assert_eq!(
        classify(Some("MIT AND LGPL-3.0")),
        LicenseCategory::WeakCopyleft
    );
}

#[test]
fn with_exception_is_ignored() {
    assert_eq!(
        classify(Some("Apache-2.0 WITH LLVM-exception")),
        LicenseCategory::Permissive
    );
    assert_eq!(
        classify(Some("GPL-2.0 WITH Classpath-exception-2.0")),
        LicenseCategory::StrongCopyleft
    );
}

#[test]
fn classifies_extended_license_set() {
    for id in ["Zlib", "BSL-1.0", "Artistic-2.0", "WTFPL", "MIT-0"] {
        assert_eq!(classify(Some(id)), LicenseCategory::Permissive, "{id}");
    }
    for id in ["MPL-1.1", "EPL-1.0", "CDDL-1.0"] {
        assert_eq!(classify(Some(id)), LicenseCategory::WeakCopyleft, "{id}");
    }
    for id in ["SSPL-1.0", "EUPL-1.2", "OSL-3.0", "GPL-1.0"] {
        assert_eq!(classify(Some(id)), LicenseCategory::StrongCopyleft, "{id}");
    }
}

#[test]
fn identifies_mit_license_text() {
    let text = "MIT License\n\nCopyright (c) 2026\n\nPermission is hereby \
                granted, free of charge, to any person obtaining a copy...";
    assert_eq!(identify_license_text(text), Some("MIT"));
}

#[test]
fn identifies_gpl_family_texts_in_correct_order() {
    assert_eq!(
        identify_license_text("GNU AFFERO GENERAL PUBLIC LICENSE Version 3"),
        Some("AGPL-3.0")
    );
    assert_eq!(
        identify_license_text("GNU LESSER GENERAL PUBLIC LICENSE Version 2.1"),
        Some("LGPL-2.1")
    );
    assert_eq!(
        identify_license_text("GNU LESSER GENERAL PUBLIC LICENSE Version 3"),
        Some("LGPL-3.0")
    );
    assert_eq!(
        identify_license_text("GNU GENERAL PUBLIC LICENSE Version 2, June 1991"),
        Some("GPL-2.0")
    );
    assert_eq!(
        identify_license_text("GNU GENERAL PUBLIC LICENSE Version 3, 29 June 2007"),
        Some("GPL-3.0")
    );
}

#[test]
fn identifies_apache_bsd_and_isc_texts() {
    assert_eq!(
        identify_license_text("Apache License\nVersion 2.0, January 2004"),
        Some("Apache-2.0")
    );
    assert_eq!(
        identify_license_text(
            "Redistribution and use in source and binary forms, with or without \
             modification, are permitted provided that... Neither the name of..."
        ),
        Some("BSD-3-Clause")
    );
    assert_eq!(
        identify_license_text(
            "Permission to use, copy, modify, and/or distribute this software..."
        ),
        Some("ISC")
    );
}

#[test]
fn unidentifiable_text_returns_none() {
    assert_eq!(
        identify_license_text("All rights reserved. Proprietary."),
        None
    );
    assert_eq!(identify_license_text(""), None);
}

#[test]
fn mixed_and_or_expression_takes_most_restrictive() {
    assert_eq!(
        classify(Some("MIT OR GPL-3.0 AND LGPL-2.1")),
        LicenseCategory::StrongCopyleft
    );
    assert_eq!(classify(Some("mit or apache-2.0")), LicenseCategory::Permissive);
    assert_eq!(classify(Some("Foo OR Bar")), LicenseCategory::Unknown);
    assert_eq!(classify(Some("OR AND")), LicenseCategory::Unknown);
}

#[test]
fn lowercases_license_text_before_matching() {
    assert_eq!(
        identify_license_text("Mozilla Public License Version 2.0"),
        Some("MPL-2.0")
    );
    assert_eq!(
        identify_license_text("This is free and unencumbered software released into the public domain."),
        Some("Unlicense")
    );
    assert_eq!(identify_license_text("THE UNLICENSE"), None);
}

#[test]
fn two_operand_expressions_fold_either_way_round() {
    for op in ["OR", "or", "Or"] {
        let ab = format!("MIT {op} GPL-3.0");
        let ba = format!("GPL-3.0 {op} MIT");
        assert_eq!(classify(Some(&ab)), LicenseCategory::Permissive);
        assert_eq!(classify(Some(&ba)), LicenseCategory::Permissive);
    }
    for op in ["AND", "and"] {
        let ab = format!("MPL-2.0 {op} GPL-2.0");
        let ba = format!("GPL-2.0 {op} MPL-2.0");
        assert_eq!(classify(Some(&ab)), LicenseCategory::StrongCopyleft);
        assert_eq!(classify(Some(&ba)), LicenseCategory::StrongCopyleft);
    }
}

#[test]
fn only_the_first_4096_characters_are_read() {
    let mut text = "x".repeat(4096);
    text.push_str("MIT License");
    assert_eq!(identify_license_text(&text), None);
    let head: String = text.chars().take(4096).collect();
    assert_eq!(identify_license_text(&text), identify_license_text(&head));
    let early = format!("MIT License{}", "x".repeat(5000));
    assert_eq!(identify_license_text(&early), Some("MIT"));
}

#[test]
fn identification_ignores_ascii_case() {
    let texts = [
        "GNU LESSER GENERAL PUBLIC LICENSE Version 3",
        "Apache License, Version 2.0",
        "Redistribution and use in source and binary forms ... Neither the name",
        "Permission is hereby granted, free of charge",
        "nothing to see",
    ];
    for t in texts {
        let id = identify_license_text(t);
        assert_eq!(identify_license_text(&t.to_ascii_uppercase()), id);
        assert_eq!(identify_license_text(&t.to_ascii_lowercase()), id);
    }
}

#[test]
fn identified_licenses_have_known_categories() {
    for id in [
        "AGPL-3.0", "LGPL-3.0", "LGPL-2.1", "LGPL-2.0", "GPL-3.0", "GPL-2.0", "SSPL-1.0",
        "MPL-2.0", "MPL-1.1", "Apache-2.0", "Apache-1.1", "EPL-2.0", "EPL-1.0", "BSL-1.0",
        "Unlicense", "CC0-1.0", "ISC", "BSD-3-Clause", "BSD-2-Clause", "MIT",
    ] {
        assert_ne!(classify(Some(id)), LicenseCategory::Unknown, "{id}");
    }
}
