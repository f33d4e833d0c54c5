//! SPDX license classification and license-text identification.
use vstd::prelude::*;

use crate::model::LicenseCategory;
use crate::text;
use crate::text::{
    contains_lit, ends_with_lit, eq_lit, slice, to_chars, to_lowercase, to_uppercase, trim_chars,
    lowercase, uppercase,
};

verus! {

// ---------------------------------------------------------------------------
// Known identifiers
// ---------------------------------------------------------------------------

pub open spec fn permissive_ids() -> Seq<Seq<char>> {
    seq![
        "MIT"@,
        "MIT-0"@,
        "X11"@,
        "APACHE-1.1"@,
        "APACHE-2.0"@,
        "BSD-2-CLAUSE"@,
        "BSD-3-CLAUSE"@,
        "ISC"@,
        "0BSD"@,
        "UNLICENSE"@,
        "CC0"@,
        "CC0-1.0"@,
        "ZLIB"@,
        "BSL-1.0"@,
        "ARTISTIC-2.0"@,
        "PYTHON-2.0"@,
        "PSF-2.0"@,
        "BLUEOAK-1.0.0"@,
        "WTFPL"@,
    ]
}

pub open spec fn weak_copyleft_ids() -> Seq<Seq<char>> {
    seq![
        "LGPL-2.0"@,
        "LGPL-2.1"@,
        "LGPL-3.0"@,
        "MPL-1.1"@,
        "MPL-2.0"@,
        "EPL-1.0"@,
        "EPL-2.0"@,
        "CDDL-1.0"@,
        "CDDL-1.1"@,
    ]
}

pub open spec fn strong_copyleft_ids() -> Seq<Seq<char>> {
    seq![
        "GPL-1.0"@,
        "GPL-2.0"@,
        "GPL-3.0"@,
        "AGPL-1.0"@,
        "AGPL-3.0"@,
        "SSPL-1.0"@,
        "EUPL-1.1"@,
        "EUPL-1.2"@,
        "OSL-3.0"@,
    ]
}

fn permissive_list() -> (r: Vec<&'static str>)
    ensures
        r@.map_values(|s: &str| s@) == permissive_ids(),
{
    let r = vec![
        "MIT",
        "MIT-0",
        "X11",
        "APACHE-1.1",
        "APACHE-2.0",
        "BSD-2-CLAUSE",
        "BSD-3-CLAUSE",
        "ISC",
        "0BSD",
        "UNLICENSE",
        "CC0",
        "CC0-1.0",
        "ZLIB",
        "BSL-1.0",
        "ARTISTIC-2.0",
        "PYTHON-2.0",
        "PSF-2.0",
        "BLUEOAK-1.0.0",
        "WTFPL",
    ];
    assert(r@.map_values(|s: &str| s@) =~= permissive_ids());
    r
}

fn weak_copyleft_list() -> (r: Vec<&'static str>)
    ensures
        r@.map_values(|s: &str| s@) == weak_copyleft_ids(),
{
    let r = vec![
        "LGPL-2.0",
        "LGPL-2.1",
        "LGPL-3.0",
        "MPL-1.1",
        "MPL-2.0",
        "EPL-1.0",
        "EPL-2.0",
        "CDDL-1.0",
        "CDDL-1.1",
    ];
    assert(r@.map_values(|s: &str| s@) =~= weak_copyleft_ids());
    r
}

fn strong_copyleft_list() -> (r: Vec<&'static str>)
    ensures
        r@.map_values(|s: &str| s@) == strong_copyleft_ids(),
{
    let r = vec![
        "GPL-1.0",
        "GPL-2.0",
        "GPL-3.0",
        "AGPL-1.0",
        "AGPL-3.0",
        "SSPL-1.0",
        "EUPL-1.1",
        "EUPL-1.2",
        "OSL-3.0",
    ];
    assert(r@.map_values(|s: &str| s@) =~= strong_copyleft_ids());
    r
}

/// `n` is one of the strings of `list`.
fn listed(n: &[char], list: &Vec<&'static str>) -> (b: bool)
    ensures
        b == list@.map_values(|s: &str| s@).contains(n@),
{
    let ghost ids = list@.map_values(|s: &str| s@);
    let mut i: usize = 0;
    while i < list.len()
        invariant
            i <= list.len(),
            ids == list@.map_values(|s: &str| s@),
            forall|k: int| 0 <= k < i ==> ids[k] != n@,
        decreases list.len() - i,
    {
        if eq_lit(n, list[i]) {
            assert(ids[i as int] == n@);
            return true;
        }
        i += 1;
    }
    false
}

// ---------------------------------------------------------------------------
// Single identifiers
// ---------------------------------------------------------------------------

/// How restrictive a category is, used to fold SPDX expressions.
/// OR picks the least restrictive operand, AND picks the most restrictive.
pub open spec fn rank(category: LicenseCategory) -> nat {
    match category {
        LicenseCategory::Permissive => 0,
        LicenseCategory::WeakCopyleft => 1,
        LicenseCategory::StrongCopyleft => 2,
        LicenseCategory::Unknown => 3,
    }
}

fn restrictiveness(category: LicenseCategory) -> (r: u8)
    ensures
        r == rank(category),
{
    match category {
        LicenseCategory::Permissive => 0,
        LicenseCategory::WeakCopyleft => 1,
        LicenseCategory::StrongCopyleft => 2,
        LicenseCategory::Unknown => 3,
    }
}

/// `s` with the suffix `p` removed when present, else `s`.
pub open spec fn without_suffix(s: Seq<char>, p: Seq<char>) -> Seq<char> {
    match text::strip_suffix(s, p) {
        Some(t) => t,
        None => s,
    }
}

/// A single SPDX identifier, trimmed, stripped of the `+` operator,
/// uppercased, and stripped of the `-only` / `-or-later` suffixes.
pub open spec fn normalized_id(id: Seq<char>) -> Seq<char> {
    let upper = uppercase(text::trim_char_end(text::trim(id), '+'));
    without_suffix(without_suffix(upper, "-ONLY"@), "-OR-LATER"@)
}

/// The category of an already normalized identifier.
pub open spec fn category_of_normalized(n: Seq<char>) -> LicenseCategory {
    if permissive_ids().contains(n) {
        LicenseCategory::Permissive
    } else if weak_copyleft_ids().contains(n) {
        LicenseCategory::WeakCopyleft
    } else if strong_copyleft_ids().contains(n) {
        LicenseCategory::StrongCopyleft
    } else {
        LicenseCategory::Unknown
    }
}

/// The category of one SPDX identifier.
pub open spec fn single_category(id: Seq<char>) -> LicenseCategory {
    category_of_normalized(normalized_id(id))
}

fn strip_suffix_lit(v: Vec<char>, lit: &str) -> (r: Vec<char>)
    ensures
        r@ == without_suffix(v@, lit@),
{
    if ends_with_lit(&v, lit) {
        let n = lit.unicode_len();
        slice(&v, 0, v.len() - n)
    } else {
        v
    }
}

fn trim_end_char(v: &[char], c: char) -> (r: Vec<char>)
    ensures
        r@ == text::trim_char_end(v@, c),
{
    let mut j = v.len();
    assert(v@.take(j as int) =~= v@);
    while j > 0 && v[j - 1] == c
        invariant
            j <= v.len(),
            text::trim_char_end(v@, c) == text::trim_char_end(v@.take(j as int), c),
        decreases j,
    {
        assert(v@.take(j as int).drop_last() =~= v@.take(j - 1));
        j -= 1;
    }
    slice(v, 0, j)
}

/// Normalize a single SPDX identifier so `GPL-3.0-only` matches `GPL-3.0`.
fn normalize(id: &[char]) -> (r: Vec<char>)
    ensures
        r@ == normalized_id(id@),
{
    let trimmed = trim_chars(id);
    let plain = trim_end_char(&trimmed, '+');
    let upper = to_uppercase(&plain);
    let a = strip_suffix_lit(upper, "-ONLY");
    strip_suffix_lit(a, "-OR-LATER")
}

fn classify_single(id: &[char]) -> (c: LicenseCategory)
    ensures
        c == single_category(id@),
{
    let n = normalize(id);
    if listed(&n, &permissive_list()) {
        LicenseCategory::Permissive
    } else if listed(&n, &weak_copyleft_list()) {
        LicenseCategory::WeakCopyleft
    } else if listed(&n, &strong_copyleft_list()) {
        LicenseCategory::StrongCopyleft
    } else {
        LicenseCategory::Unknown
    }
}

// ---------------------------------------------------------------------------
// Expressions
// ---------------------------------------------------------------------------

/// What one character of a license expression becomes before tokenizing:
/// parentheses only group, and legacy `/` separates alternatives.
pub open spec fn cleaned_char(c: char) -> Seq<char> {
    if c == '(' || c == ')' {
        seq![' ']
    } else if c == '/' {
        " OR "@
    } else {
        seq![c]
    }
}

pub open spec fn cleaned(s: Seq<char>) -> Seq<char>
    decreases s.len(),
{
    if s.len() == 0 {
        Seq::empty()
    } else {
        cleaned(s.drop_last()) + cleaned_char(s.last())
    }
}

/// The tokens of a license expression.
pub open spec fn expression_tokens(s: Seq<char>) -> Seq<Seq<char>> {
    text::words(cleaned(s))
}

/// The operands of an expression and whether it holds `OR` and `AND`,
/// reading `toks` after a `WITH` when `skip` holds: the token after
/// `WITH` names an exception and is not an operand.
pub open spec fn scan_tokens(toks: Seq<Seq<char>>, skip: bool) -> (Seq<LicenseCategory>, bool, bool)
    decreases toks.len(),
{
    if toks.len() == 0 {
        (Seq::empty(), false, false)
    } else if skip {
        scan_tokens(toks.drop_first(), false)
    } else {
        let u = uppercase(toks[0]);
        let rest = scan_tokens(toks.drop_first(), u == "WITH"@);
        if u == "OR"@ {
            (rest.0, true, rest.2)
        } else if u == "AND"@ {
            (rest.0, rest.1, true)
        } else if u == "WITH"@ {
            rest
        } else {
            (seq![single_category(toks[0])] + rest.0, rest.1, rest.2)
        }
    }
}

/// The operands of the expression `s`, and whether `s` holds `OR` / `AND`.
pub open spec fn expression_parts(s: Seq<char>) -> (Seq<LicenseCategory>, bool, bool) {
    scan_tokens(expression_tokens(s), false)
}

/// `c` is one of `ops` and no operand is less restrictive.
pub open spec fn is_least(c: LicenseCategory, ops: Seq<LicenseCategory>) -> bool {
    ops.contains(c) && forall|i: int| 0 <= i < ops.len() ==> rank(c) <= #[trigger] rank(ops[i])
}

/// `c` is one of `ops` and no operand is more restrictive.
pub open spec fn is_most(c: LicenseCategory, ops: Seq<LicenseCategory>) -> bool {
    ops.contains(c) && forall|i: int| 0 <= i < ops.len() ==> #[trigger] rank(ops[i]) <= rank(c)
}

/// The classification of an optional license string.
pub open spec fn classification_holds(license: Option<Seq<char>>, c: LicenseCategory) -> bool {
    match license {
        None => c == LicenseCategory::Unknown,
        Some(raw) => {
            let (ops, has_or, has_and) = expression_parts(raw);
            if ops.len() == 0 {
                c == LicenseCategory::Unknown
            } else if has_or && !has_and {
                is_least(c, ops)
            } else {
                is_most(c, ops)
            }
        },
    }
}

proof fn lemma_cleaned_push(s: Seq<char>, c: char)
    ensures
        cleaned(s.push(c)) == cleaned(s) + cleaned_char(c),
{
    assert(s.push(c).drop_last() =~= s);
}

fn clean_expression(raw: &[char]) -> (r: Vec<char>)
    ensures
        r@ == cleaned(raw@),
{
    let mut r: Vec<char> = Vec::new();
    let mut i: usize = 0;
    while i < raw.len()
        invariant
            i <= raw.len(),
            r@ == cleaned(raw@.take(i as int)),
        decreases raw.len() - i,
    {
        let c = raw[i];
        proof {
            lemma_cleaned_push(raw@.take(i as int), c);
            assert(raw@.take(i + 1) =~= raw@.take(i as int).push(c));
        }
        if c == '(' || c == ')' {
            r.push(' ');
            assert(r@ =~= cleaned(raw@.take(i + 1)));
        } else if c == '/' {
            let or = to_chars(" OR ");
            let ghost before = r@;
            let mut k: usize = 0;
            while k < or.len()
                invariant
                    k <= or.len(),
                    r@ == before + or@.take(k as int),
                decreases or.len() - k,
            {
                r.push(or[k]);
                k += 1;
                assert(or@.take(k as int) =~= or@.take(k - 1).push(or@[k - 1]));
            }
            assert(or@.take(or.len() as int) =~= or@);
        } else {
            r.push(c);
            assert(r@ =~= cleaned(raw@.take(i + 1)));
        }
        i += 1;
    }
    assert(raw@.take(raw.len() as int) =~= raw@);
    r
}


/// The view of an optional string slice.
pub open spec fn opt_str_view(s: Option<&str>) -> Option<Seq<char>> {
    match s {
        Some(x) => Some(x@),
        None => None,
    }
}

/// Index of the least restrictive of `ops` (the first such one).
fn least_restrictive(ops: &Vec<LicenseCategory>) -> (c: LicenseCategory)
    requires
        ops.len() > 0,
    ensures
        is_least(c, ops@),
{
    let mut best: usize = 0;
    let mut k: usize = 1;
    while k < ops.len()
        invariant
            best < k <= ops.len(),
            forall|j: int| 0 <= j < k ==> rank(ops@[best as int]) <= #[trigger] rank(ops@[j]),
        decreases ops.len() - k,
    {
        if restrictiveness(ops[k]) < restrictiveness(ops[best]) {
            best = k;
        }
        k += 1;
    }
    assert(ops@[best as int] == ops@[best as int]);
    ops[best]
}

/// The most restrictive of `ops` (the first such one).
fn most_restrictive(ops: &Vec<LicenseCategory>) -> (c: LicenseCategory)
    requires
        ops.len() > 0,
    ensures
        is_most(c, ops@),
{
    let mut best: usize = 0;
    let mut k: usize = 1;
    while k < ops.len()
        invariant
            best < k <= ops.len(),
            forall|j: int| 0 <= j < k ==> #[trigger] rank(ops@[j]) <= rank(ops@[best as int]),
        decreases ops.len() - k,
    {
        if restrictiveness(ops[k]) > restrictiveness(ops[best]) {
            best = k;
        }
        k += 1;
    }
    assert(ops@[best as int] == ops@[best as int]);
    ops[best]
}

/// Classify a license string, which may be a single SPDX identifier or an
/// SPDX expression (`MIT OR Apache-2.0`, `GPL-2.0 AND MIT`, legacy `MIT/X11`).
/// `WITH` exception clauses are ignored. `None` or empty input is `Unknown`.
/// An expression with `OR` and no `AND` takes its least restrictive operand
/// (dual licensing lets the consumer choose); any other takes its most
/// restrictive one.
pub fn classify(license: Option<&str>) -> (c: LicenseCategory)
    ensures
        classification_holds(opt_str_view(license), c),
{
    let raw = match license {
        None => return LicenseCategory::Unknown,
        Some(r) => r,
    };
    let raw_chars = to_chars(raw);
    let cleaned_chars = clean_expression(&raw_chars);
    let tokens = text::split_words(&cleaned_chars);
    let ghost toks = text::views(tokens@);
    if tokens.len() == 0 {
        return LicenseCategory::Unknown;
    }
    let mut ops: Vec<LicenseCategory> = Vec::new();
    let mut has_or = false;
    let mut has_and = false;
    let mut skip_next = false;
    let mut i: usize = 0;
    assert(toks.skip(0) =~= toks);
    while i < tokens.len()
        invariant
            i <= tokens.len(),
            toks == text::views(tokens@),
            toks == expression_tokens(raw@),
            ({
                let rest = scan_tokens(toks.skip(i as int), skip_next);
                expression_parts(raw@) == (ops@ + rest.0, has_or || rest.1, has_and || rest.2)
            }),
        decreases tokens.len() - i,
    {
        let ghost tail = toks.skip(i as int);
        assert(tail.drop_first() =~= toks.skip(i + 1));
        assert(tail[0] == tokens@[i as int]@);
        if skip_next {
            skip_next = false;
        } else {
            let u = to_uppercase(&tokens[i]);
            proof {
                reveal_strlit("OR");
                reveal_strlit("AND");
                reveal_strlit("WITH");
            }
            assert(u@ == uppercase(tail[0]));
            let ghost rest = scan_tokens(toks.skip(i + 1), u@ == "WITH"@);
            assert(scan_tokens(tail, false) == if u@ == "OR"@ {
                (rest.0, true, rest.2)
            } else if u@ == "AND"@ {
                (rest.0, rest.1, true)
            } else if u@ == "WITH"@ {
                rest
            } else {
                (seq![single_category(tail[0])] + rest.0, rest.1, rest.2)
            });
            if eq_lit(&u, "OR") {
                has_or = true;
            } else if eq_lit(&u, "AND") {
                has_and = true;
            } else if eq_lit(&u, "WITH") {
                skip_next = true;
            } else {
                let ghost before = ops@;
                ops.push(classify_single(&tokens[i]));
                let ghost rest = scan_tokens(toks.skip(i + 1), false);
                assert(ops@ + rest.0 =~= before + (seq![single_category(tail[0])] + rest.0));
            }
        }
        i += 1;
    }
    assert(toks.skip(tokens.len() as int) =~= Seq::<Seq<char>>::empty());
    assert(ops@ + Seq::<LicenseCategory>::empty() =~= ops@);
    if ops.len() == 0 {
        return LicenseCategory::Unknown;
    }
    if has_or && !has_and {
        least_restrictive(&ops)
    } else {
        most_restrictive(&ops)
    }
}

// ---------------------------------------------------------------------------
// License texts
// ---------------------------------------------------------------------------

/// The part of a license text that is inspected: its first 4096 characters.
pub open spec fn text_head(text: Seq<char>) -> Seq<char> {
    if text.len() <= 4096 {
        text
    } else {
        text.take(4096)
    }
}

/// The license that a lowercased license-text head is identified as.
/// Affero comes before Lesser before plain GPL, and the generic MIT
/// phrasing last.
pub open spec fn identified_license(head: Seq<char>) -> Option<Seq<char>> {
    if text::contains(head, "gnu affero general public license"@) {
        Some("AGPL-3.0"@)
    } else if text::contains(head, "gnu lesser general public license"@) {
        Some(
            if text::contains(head, "version 3"@) {
                "LGPL-3.0"@
            } else {
                "LGPL-2.1"@
            },
        )
    } else if text::contains(head, "gnu library general public license"@) {
        Some("LGPL-2.0"@)
    } else if text::contains(head, "gnu general public license"@) {
        Some(
            if text::contains(head, "version 3"@) {
                "GPL-3.0"@
            } else {
                "GPL-2.0"@
            },
        )
    } else if text::contains(head, "server side public license"@) {
        Some("SSPL-1.0"@)
    } else if text::contains(head, "mozilla public license"@) {
        Some(
            if text::contains(head, "2.0"@) {
                "MPL-2.0"@
            } else {
                "MPL-1.1"@
            },
        )
    } else if text::contains(head, "apache license"@) {
        Some(
            if text::contains(head, "version 2.0"@) {
                "Apache-2.0"@
            } else {
                "Apache-1.1"@
            },
        )
    } else if text::contains(head, "eclipse public license"@) {
        Some(
            if text::contains(head, "2.0"@) {
                "EPL-2.0"@
            } else {
                "EPL-1.0"@
            },
        )
    } else if text::contains(head, "boost software license"@) {
        Some("BSL-1.0"@)
    } else if text::contains(head, "this is free and unencumbered software"@) {
        Some("Unlicense"@)
    } else if text::contains(head, "creative commons zero"@) || text::contains(head, "cc0 1.0"@) {
        Some("CC0-1.0"@)
    } else if text::contains(head, "isc license"@) || text::contains(
        head,
        "permission to use, copy, modify, and/or distribute"@,
    ) {
        Some("ISC"@)
    } else if text::contains(head, "redistribution and use in source and binary forms"@) {
        Some(
            if text::contains(head, "neither the name"@) {
                "BSD-3-Clause"@
            } else {
                "BSD-2-Clause"@
            },
        )
    } else if text::contains(head, "mit license"@) || text::contains(
        head,
        "permission is hereby granted, free of charge"@,
    ) {
        Some("MIT"@)
    } else {
        None
    }
}

/// The license that a LICENSE/COPYING file text is identified as.
pub open spec fn license_of_text(text: Seq<char>) -> Option<Seq<char>> {
    identified_license(lowercase(text_head(text)))
}

/// Identify a license from the text of a LICENSE/COPYING file. Used as a
/// fallback for packages that declare nothing in their manifest. Returns a
/// normalized SPDX identifier. Match order matters: Affero before Lesser
/// before plain GPL, and the generic MIT phrasing last.
pub fn identify_license_text(text: &str) -> (r: Option<&'static str>)
    ensures
        opt_str_view(r) == license_of_text(text@),
{
    let chars = to_chars(text);
    let head_chars = if chars.len() <= 4096 {
        chars
    } else {
        slice(&chars, 0, 4096)
    };
    assert(head_chars@ == text_head(text@)) by {
        if text@.len() > 4096 {
            assert(text@.subrange(0, 4096) =~= text@.take(4096));
        }
    }
    let head = to_lowercase(&head_chars);
    if contains_lit(&head, "gnu affero general public license") {
        return Some("AGPL-3.0");
    }
    if contains_lit(&head, "gnu lesser general public license") {
        return Some(
            if contains_lit(&head, "version 3") {
                "LGPL-3.0"
            } else {
                "LGPL-2.1"
            },
        );
    }
    if contains_lit(&head, "gnu library general public license") {
        return Some("LGPL-2.0");
    }
    if contains_lit(&head, "gnu general public license") {
        return Some(
            if contains_lit(&head, "version 3") {
                "GPL-3.0"
            } else {
                "GPL-2.0"
            },
        );
    }
    if contains_lit(&head, "server side public license") {
        return Some("SSPL-1.0");
    }
    if contains_lit(&head, "mozilla public license") {
        return Some(
            if contains_lit(&head, "2.0") {
                "MPL-2.0"
            } else {
                "MPL-1.1"
            },
        );
    }
    if contains_lit(&head, "apache license") {
        return Some(
            if contains_lit(&head, "version 2.0") {
                "Apache-2.0"
            } else {
                "Apache-1.1"
            },
        );
    }
    if contains_lit(&head, "eclipse public license") {
        return Some(
            if contains_lit(&head, "2.0") {
                "EPL-2.0"
            } else {
                "EPL-1.0"
            },
        );
    }
    if contains_lit(&head, "boost software license") {
        return Some("BSL-1.0");
    }
    if contains_lit(&head, "this is free and unencumbered software") {
        return Some("Unlicense");
    }
    if contains_lit(&head, "creative commons zero") || contains_lit(&head, "cc0 1.0") {
        return Some("CC0-1.0");
    }
    if contains_lit(&head, "isc license") || contains_lit(
        &head,
        "permission to use, copy, modify, and/or distribute",
    ) {
        return Some("ISC");
    }
    if contains_lit(&head, "redistribution and use in source and binary forms") {
        return Some(
            if contains_lit(&head, "neither the name") {
                "BSD-3-Clause"
            } else {
                "BSD-2-Clause"
            },
        );
    }
    if contains_lit(&head, "mit license") || contains_lit(
        &head,
        "permission is hereby granted, free of charge",
    ) {
        return Some("MIT");
    }
    None
}

// ---------------------------------------------------------------------------
// Laws
// ---------------------------------------------------------------------------

/// Only the first 4096 characters of a license text decide what it is
/// identified as.
pub proof fn only_the_head_of_a_text_is_read(text: Seq<char>)
    ensures
        license_of_text(text) == license_of_text(text_head(text)),
{
    assert(text_head(text_head(text)) =~= text_head(text));
}

/// The identifiers that a license text can be identified as.
pub open spec fn identifiable_ids() -> Seq<Seq<char>> {
    seq![
        "AGPL-3.0"@,
        "LGPL-3.0"@,
        "LGPL-2.1"@,
        "LGPL-2.0"@,
        "GPL-3.0"@,
        "GPL-2.0"@,
        "SSPL-1.0"@,
        "MPL-2.0"@,
        "MPL-1.1"@,
        "Apache-2.0"@,
        "Apache-1.1"@,
        "EPL-2.0"@,
        "EPL-1.0"@,
        "BSL-1.0"@,
        "Unlicense"@,
        "CC0-1.0"@,
        "ISC"@,
        "BSD-3-Clause"@,
        "BSD-2-Clause"@,
        "MIT"@,
    ]
}

/// Whatever a license text holds, what it is identified as, if anything,
/// is one of [`identifiable_ids`] and has a known category.
pub proof fn identified_licenses_are_listed(text: Seq<char>)
    ensures
        license_of_text(text) matches Some(id) ==> identifiable_ids().contains(id)
            && single_category(id) != LicenseCategory::Unknown,
{
    let ids = identifiable_ids();
    if let Some(id) = license_of_text(text) {
        assert(ids[0] == "AGPL-3.0"@ && ids[1] == "LGPL-3.0"@ && ids[2] == "LGPL-2.1"@);
        assert(ids[3] == "LGPL-2.0"@ && ids[4] == "GPL-3.0"@ && ids[5] == "GPL-2.0"@);
        assert(ids[6] == "SSPL-1.0"@ && ids[7] == "MPL-2.0"@ && ids[8] == "MPL-1.1"@);
        assert(ids[9] == "Apache-2.0"@ && ids[10] == "Apache-1.1"@ && ids[11] == "EPL-2.0"@);
        assert(ids[12] == "EPL-1.0"@ && ids[13] == "BSL-1.0"@ && ids[14] == "Unlicense"@);
        assert(ids[15] == "CC0-1.0"@ && ids[16] == "ISC"@ && ids[17] == "BSD-3-Clause"@);
        assert(ids[18] == "BSD-2-Clause"@ && ids[19] == "MIT"@);
        identifiable_ids_are_known(id);
    }
}

proof fn lemma_ascii_forms(s: Seq<char>)
    requires
        text::is_ascii_text(s),
    ensures
        text::is_ascii_text(text::ascii_uppercase(s)),
        text::is_ascii_text(text::ascii_lowercase(s)),
        text::ascii_lowercase(text::ascii_uppercase(s)) == text::ascii_lowercase(s),
        text::ascii_lowercase(text::ascii_lowercase(s)) == text::ascii_lowercase(s),
{
    let u = text::ascii_uppercase(s);
    let l = text::ascii_lowercase(s);
    assert forall|i: int| 0 <= i < s.len() implies (u[i] as u32) < 128 && (l[i] as u32) < 128
        && text::ascii_lower_char(u[i]) == l[i] && text::ascii_lower_char(l[i]) == l[i] by {
        let c = s[i];
        assert((c as u32) < 128);
        assert(u[i] == text::ascii_upper_char(c));
        assert(l[i] == text::ascii_lower_char(c));
        if 'a' <= c <= 'z' {
            assert(text::ascii_upper_char(c) as u32 == c as u32 - 32);
        }
        if 'A' <= c <= 'Z' {
            assert(text::ascii_lower_char(c) as u32 == c as u32 + 32);
        }
    }
    assert(text::ascii_lowercase(u) =~= l);
    assert(text::ascii_lowercase(l) =~= l);
}

/// Identifying a license text ignores ASCII case: an ASCII text, its
/// ASCII uppercase form and its ASCII lowercase form are identified alike.
pub proof fn identification_ignores_ascii_case(t: Seq<char>)
    requires
        text::is_ascii_text(t),
    ensures
        license_of_text(text::ascii_uppercase(t)) == license_of_text(t),
        license_of_text(text::ascii_lowercase(t)) == license_of_text(t),
{
    reveal(text::lowercase);
    let h = text_head(t);
    assert(text::is_ascii_text(h)) by {
        assert forall|i: int| 0 <= i < h.len() implies (#[trigger] h[i] as u32) < 128 by {
            assert(h[i] == t[i]);
        }
    }
    assert(text_head(text::ascii_uppercase(t)) =~= text::ascii_uppercase(h));
    assert(text_head(text::ascii_lowercase(t)) =~= text::ascii_lowercase(h));
    lemma_ascii_forms(h);
}

proof fn lemma_listed_id(id: Seq<char>, upper: Seq<char>, list: Seq<Seq<char>>, k: int)
    requires
        id.len() > 0,
        text::is_ascii_text(id),
        !text::is_ws(id[0]),
        !text::is_ws(id.last()),
        id.last() != '+',
        text::ascii_uppercase(id) == upper,
        upper.last() != 'Y',
        upper.last() != 'R',
        list == permissive_ids() || list == weak_copyleft_ids() || list == strong_copyleft_ids(),
        0 <= k < list.len(),
        list[k] == upper,
    ensures
        single_category(id) != LicenseCategory::Unknown,
{
    reveal(text::uppercase);
    reveal_strlit("-ONLY");
    reveal_strlit("-OR-LATER");
    assert(upper.len() == id.len());
    assert(!text::ends_with(upper, "-ONLY"@)) by {
        if text::ends_with(upper, "-ONLY"@) {
            assert(upper[upper.len() - 1] == "-ONLY"@[4]);
        }
    }
    assert(!text::ends_with(upper, "-OR-LATER"@)) by {
        if text::ends_with(upper, "-OR-LATER"@) {
            assert(upper[upper.len() - 1] == "-OR-LATER"@[8]);
        }
    }
    assert(text::trim_start(id) == id);
    assert(text::trim_end(id) == id);
    assert(text::trim_char_end(id, '+') == id);
    assert(normalized_id(id) == upper);
    assert(list.contains(upper));
}

/// Every identifier that a license text can be identified as has a known
/// category: none classifies as unknown.
pub proof fn identifiable_ids_are_known(id: Seq<char>)
    requires
        identifiable_ids().contains(id),
    ensures
        single_category(id) != LicenseCategory::Unknown,
{
    let ids = identifiable_ids();
    let k = choose|k: int| 0 <= k < ids.len() && ids[k] == id;
    if k == 0 {
        reveal_strlit("AGPL-3.0");
        assert(text::ascii_uppercase("AGPL-3.0"@) =~= "AGPL-3.0"@);
        lemma_listed_id("AGPL-3.0"@, "AGPL-3.0"@, strong_copyleft_ids(), 4);
    } else if k == 1 {
        reveal_strlit("LGPL-3.0");
        assert(text::ascii_uppercase("LGPL-3.0"@) =~= "LGPL-3.0"@);
        lemma_listed_id("LGPL-3.0"@, "LGPL-3.0"@, weak_copyleft_ids(), 2);
    } else if k == 2 {
        reveal_strlit("LGPL-2.1");
        assert(text::ascii_uppercase("LGPL-2.1"@) =~= "LGPL-2.1"@);
        lemma_listed_id("LGPL-2.1"@, "LGPL-2.1"@, weak_copyleft_ids(), 1);
    } else if k == 3 {
        reveal_strlit("LGPL-2.0");
        assert(text::ascii_uppercase("LGPL-2.0"@) =~= "LGPL-2.0"@);
        lemma_listed_id("LGPL-2.0"@, "LGPL-2.0"@, weak_copyleft_ids(), 0);
    } else if k == 4 {
        reveal_strlit("GPL-3.0");
        assert(text::ascii_uppercase("GPL-3.0"@) =~= "GPL-3.0"@);
        lemma_listed_id("GPL-3.0"@, "GPL-3.0"@, strong_copyleft_ids(), 2);
    } else if k == 5 {
        reveal_strlit("GPL-2.0");
        assert(text::ascii_uppercase("GPL-2.0"@) =~= "GPL-2.0"@);
        lemma_listed_id("GPL-2.0"@, "GPL-2.0"@, strong_copyleft_ids(), 1);
    } else if k == 6 {
        reveal_strlit("SSPL-1.0");
        assert(text::ascii_uppercase("SSPL-1.0"@) =~= "SSPL-1.0"@);
        lemma_listed_id("SSPL-1.0"@, "SSPL-1.0"@, strong_copyleft_ids(), 5);
    } else if k == 7 {
        reveal_strlit("MPL-2.0");
        assert(text::ascii_uppercase("MPL-2.0"@) =~= "MPL-2.0"@);
        lemma_listed_id("MPL-2.0"@, "MPL-2.0"@, weak_copyleft_ids(), 4);
    } else if k == 8 {
        reveal_strlit("MPL-1.1");
        assert(text::ascii_uppercase("MPL-1.1"@) =~= "MPL-1.1"@);
        lemma_listed_id("MPL-1.1"@, "MPL-1.1"@, weak_copyleft_ids(), 3);
    } else if k == 9 {
        reveal_strlit("Apache-2.0");
        reveal_strlit("APACHE-2.0");
        assert(text::ascii_uppercase("Apache-2.0"@) =~= "APACHE-2.0"@);
        lemma_listed_id("Apache-2.0"@, "APACHE-2.0"@, permissive_ids(), 4);
    } else if k == 10 {
        reveal_strlit("Apache-1.1");
        reveal_strlit("APACHE-1.1");
        assert(text::ascii_uppercase("Apache-1.1"@) =~= "APACHE-1.1"@);
        lemma_listed_id("Apache-1.1"@, "APACHE-1.1"@, permissive_ids(), 3);
    } else if k == 11 {
        reveal_strlit("EPL-2.0");
        assert(text::ascii_uppercase("EPL-2.0"@) =~= "EPL-2.0"@);
        lemma_listed_id("EPL-2.0"@, "EPL-2.0"@, weak_copyleft_ids(), 6);
    } else if k == 12 {
        reveal_strlit("EPL-1.0");
        assert(text::ascii_uppercase("EPL-1.0"@) =~= "EPL-1.0"@);
        lemma_listed_id("EPL-1.0"@, "EPL-1.0"@, weak_copyleft_ids(), 5);
    } else if k == 13 {
        reveal_strlit("BSL-1.0");
        assert(text::ascii_uppercase("BSL-1.0"@) =~= "BSL-1.0"@);
        lemma_listed_id("BSL-1.0"@, "BSL-1.0"@, permissive_ids(), 13);
    } else if k == 14 {
        reveal_strlit("Unlicense");
        reveal_strlit("UNLICENSE");
        assert(text::ascii_uppercase("Unlicense"@) =~= "UNLICENSE"@);
        lemma_listed_id("Unlicense"@, "UNLICENSE"@, permissive_ids(), 9);
    } else if k == 15 {
        reveal_strlit("CC0-1.0");
        assert(text::ascii_uppercase("CC0-1.0"@) =~= "CC0-1.0"@);
        lemma_listed_id("CC0-1.0"@, "CC0-1.0"@, permissive_ids(), 11);
    } else if k == 16 {
        reveal_strlit("ISC");
        assert(text::ascii_uppercase("ISC"@) =~= "ISC"@);
        lemma_listed_id("ISC"@, "ISC"@, permissive_ids(), 7);
    } else if k == 17 {
        reveal_strlit("BSD-3-Clause");
        reveal_strlit("BSD-3-CLAUSE");
        assert(text::ascii_uppercase("BSD-3-Clause"@) =~= "BSD-3-CLAUSE"@);
        lemma_listed_id("BSD-3-Clause"@, "BSD-3-CLAUSE"@, permissive_ids(), 6);
    } else if k == 18 {
        reveal_strlit("BSD-2-Clause");
        reveal_strlit("BSD-2-CLAUSE");
        assert(text::ascii_uppercase("BSD-2-Clause"@) =~= "BSD-2-CLAUSE"@);
        lemma_listed_id("BSD-2-Clause"@, "BSD-2-CLAUSE"@, permissive_ids(), 5);
    } else if k == 19 {
        reveal_strlit("MIT");
        assert(text::ascii_uppercase("MIT"@) =~= "MIT"@);
        lemma_listed_id("MIT"@, "MIT"@, permissive_ids(), 0);
    }
}

/// What is inspected of a license text: its first 4096 characters,
/// lowercased.
pub open spec fn inspected(text: Seq<char>) -> Seq<char> {
    lowercase(text_head(text))
}

/// The inspected text names one of the licenses that are looked for before
/// the BSD licenses.
pub open spec fn names_a_license_before_bsd(h: Seq<char>) -> bool {
    ||| text::contains(h, "gnu affero general public license"@)
    ||| text::contains(h, "gnu lesser general public license"@)
    ||| text::contains(h, "gnu library general public license"@)
    ||| text::contains(h, "gnu general public license"@)
    ||| text::contains(h, "server side public license"@)
    ||| text::contains(h, "mozilla public license"@)
    ||| text::contains(h, "apache license"@)
    ||| text::contains(h, "eclipse public license"@)
    ||| text::contains(h, "boost software license"@)
    ||| text::contains(h, "this is free and unencumbered software"@)
    ||| text::contains(h, "creative commons zero"@)
    ||| text::contains(h, "cc0 1.0"@)
    ||| text::contains(h, "isc license"@)
    ||| text::contains(h, "permission to use, copy, modify, and/or distribute"@)
}

/// A text is identified as BSD-3-Clause only when it holds the BSD
/// redistribution phrase and the "neither the name" clause, and as
/// BSD-2-Clause only when it holds the phrase without the clause.
pub proof fn bsd_three_clause_needs_the_neither_clause(text: Seq<char>)
    ensures
        license_of_text(text) == Some("BSD-3-Clause"@) ==> text::contains(
            inspected(text),
            "redistribution and use in source and binary forms"@,
        ) && text::contains(inspected(text), "neither the name"@),
        license_of_text(text) == Some("BSD-2-Clause"@) ==> text::contains(
            inspected(text),
            "redistribution and use in source and binary forms"@,
        ) && !text::contains(inspected(text), "neither the name"@),
{
    reveal_strlit("AGPL-3.0");
    reveal_strlit("LGPL-3.0");
    reveal_strlit("LGPL-2.1");
    reveal_strlit("LGPL-2.0");
    reveal_strlit("GPL-3.0");
    reveal_strlit("GPL-2.0");
    reveal_strlit("SSPL-1.0");
    reveal_strlit("MPL-2.0");
    reveal_strlit("MPL-1.1");
    reveal_strlit("Apache-2.0");
    reveal_strlit("Apache-1.1");
    reveal_strlit("EPL-2.0");
    reveal_strlit("EPL-1.0");
    reveal_strlit("BSL-1.0");
    reveal_strlit("Unlicense");
    reveal_strlit("CC0-1.0");
    reveal_strlit("ISC");
    reveal_strlit("BSD-3-Clause");
    reveal_strlit("BSD-2-Clause");
    reveal_strlit("MIT");
    let b3 = "BSD-3-Clause"@;
    assert(b3.len() == 12 && b3[4] == '3');
    assert("AGPL-3.0"@.len() != b3.len());
    assert("LGPL-3.0"@.len() != b3.len());
    assert("LGPL-2.1"@.len() != b3.len());
    assert("LGPL-2.0"@.len() != b3.len());
    assert("GPL-3.0"@.len() != b3.len());
    assert("GPL-2.0"@.len() != b3.len());
    assert("SSPL-1.0"@.len() != b3.len());
    assert("MPL-2.0"@.len() != b3.len());
    assert("MPL-1.1"@.len() != b3.len());
    assert("Apache-2.0"@.len() != b3.len());
    assert("Apache-1.1"@.len() != b3.len());
    assert("EPL-2.0"@.len() != b3.len());
    assert("EPL-1.0"@.len() != b3.len());
    assert("BSL-1.0"@.len() != b3.len());
    assert("Unlicense"@.len() != b3.len());
    assert("CC0-1.0"@.len() != b3.len());
    assert("ISC"@.len() != b3.len());
    assert("BSD-2-Clause"@[4] != b3[4]);
    assert("MIT"@.len() != b3.len());
    let b2 = "BSD-2-Clause"@;
    assert(b2.len() == 12 && b2[4] == '2');
    assert("AGPL-3.0"@.len() != b2.len());
    assert("LGPL-3.0"@.len() != b2.len());
    assert("LGPL-2.1"@.len() != b2.len());
    assert("LGPL-2.0"@.len() != b2.len());
    assert("GPL-3.0"@.len() != b2.len());
    assert("GPL-2.0"@.len() != b2.len());
    assert("SSPL-1.0"@.len() != b2.len());
    assert("MPL-2.0"@.len() != b2.len());
    assert("MPL-1.1"@.len() != b2.len());
    assert("Apache-2.0"@.len() != b2.len());
    assert("Apache-1.1"@.len() != b2.len());
    assert("EPL-2.0"@.len() != b2.len());
    assert("EPL-1.0"@.len() != b2.len());
    assert("BSL-1.0"@.len() != b2.len());
    assert("Unlicense"@.len() != b2.len());
    assert("CC0-1.0"@.len() != b2.len());
    assert("ISC"@.len() != b2.len());
    assert("MIT"@.len() != b2.len());
}

/// A text that holds the BSD redistribution phrase but not the "neither
/// the name" clause, and names no license looked for before, is
/// identified as BSD-2-Clause.
pub proof fn bsd_text_without_the_neither_clause_is_two_clause(text: Seq<char>)
    requires
        text::contains(inspected(text), "redistribution and use in source and binary forms"@),
        !text::contains(inspected(text), "neither the name"@),
        !names_a_license_before_bsd(inspected(text)),
    ensures
        license_of_text(text) == Some("BSD-2-Clause"@),
{
}

/// A word of an expression that no cleaning changes: not empty, without
/// whitespace, parentheses or `/`.
pub open spec fn plain_word(w: Seq<char>) -> bool {
    &&& w.len() > 0
    &&& forall|i: int|
        0 <= i < w.len() ==> !text::is_ws(#[trigger] w[i]) && w[i] != '(' && w[i] != ')' && w[i]
            != '/'
}

/// A single SPDX identifier standing as an operand: a plain word that is
/// not, in any case, one of the operators `OR`, `AND`, `WITH`.
pub open spec fn plain_operand(a: Seq<char>) -> bool {
    &&& plain_word(a)
    &&& uppercase(a) != "OR"@
    &&& uppercase(a) != "AND"@
    &&& uppercase(a) != "WITH"@
}

/// The expression `a op b`, its three words joined by single spaces.
pub open spec fn joined(a: Seq<char>, op: Seq<char>, b: Seq<char>) -> Seq<char> {
    a + seq![' '] + op + seq![' '] + b
}

/// The less restrictive of two categories.
pub open spec fn less_restrictive(x: LicenseCategory, y: LicenseCategory) -> LicenseCategory {
    if rank(x) <= rank(y) {
        x
    } else {
        y
    }
}

/// The more restrictive of two categories.
pub open spec fn more_restrictive(x: LicenseCategory, y: LicenseCategory) -> LicenseCategory {
    if rank(x) >= rank(y) {
        x
    } else {
        y
    }
}

proof fn lemma_cleaned_concat(s: Seq<char>, t: Seq<char>)
    ensures
        cleaned(s + t) == cleaned(s) + cleaned(t),
    decreases t.len(),
{
    if t.len() == 0 {
        assert(s + t =~= s);
        assert(cleaned(s) + cleaned(t) =~= cleaned(s));
    } else {
        assert((s + t).drop_last() =~= s + t.drop_last());
        assert((s + t).last() == t.last());
        lemma_cleaned_concat(s, t.drop_last());
        assert(cleaned(s) + cleaned(t.drop_last()) + cleaned_char(t.last()) =~= cleaned(s) + (
        cleaned(t.drop_last()) + cleaned_char(t.last())));
    }
}

proof fn lemma_cleaned_plain(w: Seq<char>)
    requires
        forall|i: int| 0 <= i < w.len() ==> w[i] != '(' && w[i] != ')' && w[i] != '/',
    ensures
        cleaned(w) == w,
    decreases w.len(),
{
    if w.len() > 0 {
        assert(w.last() == w[w.len() - 1]);
        lemma_cleaned_plain(w.drop_last());
        assert(w.drop_last().push(w.last()) =~= w);
    }
}

proof fn lemma_words_through_word(w: Seq<char>, rest: Seq<char>, cur: Seq<char>)
    requires
        forall|i: int| 0 <= i < w.len() ==> !text::is_ws(#[trigger] w[i]),
    ensures
        text::words_acc(w + rest, cur) == text::words_acc(rest, cur + w),
    decreases w.len(),
{
    if w.len() == 0 {
        assert(w + rest =~= rest);
        assert(cur + w =~= cur);
    } else {
        assert((w + rest)[0] == w[0]);
        assert((w + rest).drop_first() =~= w.drop_first() + rest);
        lemma_words_through_word(w.drop_first(), rest, cur.push(w[0]));
        assert(cur.push(w[0]) + w.drop_first() =~= cur + w);
    }
}

/// The words of `a op b` are `a`, `op` and `b`.
#[verifier::spinoff_prover]
#[verifier::rlimit(40)]
proof fn lemma_words_of_joined(a: Seq<char>, op: Seq<char>, b: Seq<char>)
    requires
        plain_word(a),
        plain_word(op),
        plain_word(b),
    ensures
        expression_tokens(joined(a, op, b)) == seq![a, op, b],
{
    let sp = seq![' '];
    assert(text::is_ws(' '));
    lemma_cleaned_concat(a + sp + op + sp, b);
    lemma_cleaned_concat(a + sp + op, sp);
    lemma_cleaned_concat(a + sp, op);
    lemma_cleaned_concat(a, sp);
    lemma_cleaned_plain(a);
    lemma_cleaned_plain(op);
    lemma_cleaned_plain(b);
    lemma_cleaned_plain(sp);
    assert(cleaned(joined(a, op, b)) == joined(a, op, b));
    let e = Seq::<char>::empty();
    let tail1 = sp + op + sp + b;
    let tail2 = op + sp + b;
    let tail3 = sp + b;
    assert(joined(a, op, b) =~= a + tail1);
    lemma_words_through_word(a, tail1, e);
    assert(e + a =~= a);
    assert(tail1[0] == ' ');
    assert(tail1.drop_first() =~= tail2);
    assert(tail2 =~= op + tail3);
    lemma_words_through_word(op, tail3, e);
    assert(e + op =~= op);
    assert(tail3[0] == ' ');
    assert(tail3.drop_first() =~= b);
    lemma_words_through_word(b, e, e);
    assert(e + b =~= b);
    assert(b + e =~= b);
    assert(text::words_acc(e, b) == seq![b]);
    assert(text::words_acc(tail3, op) == seq![op] + text::words_acc(b, e));
    assert(text::words_acc(tail1, a) == seq![a] + text::words_acc(tail2, e));
    assert(text::words_acc(tail2, e) == seq![op] + seq![b]);
    assert(seq![a] + (seq![op] + seq![b]) =~= seq![a, op, b]);
    assert(expression_tokens(joined(a, op, b)) == text::words_acc(a + tail1, e));
}

/// The operands and operators read from `a op b`.
proof fn lemma_parts_of_joined(a: Seq<char>, op: Seq<char>, b: Seq<char>)
    requires
        plain_operand(a),
        plain_operand(b),
        plain_word(op),
        uppercase(op) == "OR"@ || uppercase(op) == "AND"@,
    ensures
        expression_parts(joined(a, op, b)) == (
            seq![single_category(a), single_category(b)],
            uppercase(op) == "OR"@,
            uppercase(op) == "AND"@,
        ),
{
    reveal_strlit("OR");
    reveal_strlit("AND");
    reveal_strlit("WITH");
    lemma_words_of_joined(a, op, b);
    let e = Seq::<Seq<char>>::empty();
    let none = Seq::<LicenseCategory>::empty();
    assert(scan_tokens(e, false) == (none, false, false));
    assert(seq![b].drop_first() =~= e);
    assert(seq![b][0] == b);
    assert(seq![single_category(b)] + none =~= seq![single_category(b)]);
    assert(scan_tokens(seq![b], false) == (seq![single_category(b)], false, false));
    assert(seq![op, b].drop_first() =~= seq![b]);
    assert(seq![op, b][0] == op);
    assert("OR"@.len() == 2 && "AND"@.len() == 3 && "WITH"@.len() == 4);
    assert(uppercase(op) != "WITH"@);
    let is_or = uppercase(op) == "OR"@;
    let is_and = uppercase(op) == "AND"@;
    assert(scan_tokens(seq![op, b], false) == (seq![single_category(b)], is_or, is_and));
    assert(seq![a, op, b].drop_first() =~= seq![op, b]);
    assert(seq![a, op, b][0] == a);
    assert(seq![single_category(a)] + seq![single_category(b)] =~= seq![
        single_category(a),
        single_category(b),
    ]);
}

/// An expression `a OR b` of two single identifiers, with `OR` written in
/// any case, takes the less restrictive of the two, whichever comes
/// first.
pub proof fn or_takes_the_less_restrictive(
    a: Seq<char>,
    op: Seq<char>,
    b: Seq<char>,
    c: LicenseCategory,
)
    requires
        plain_operand(a),
        plain_operand(b),
        plain_word(op),
        uppercase(op) == "OR"@,
    ensures
        classification_holds(Some(joined(a, op, b)), c) <==> c == less_restrictive(
            single_category(a),
            single_category(b),
        ),
        classification_holds(Some(joined(b, op, a)), c) <==> c == less_restrictive(
            single_category(a),
            single_category(b),
        ),
{
    reveal_strlit("OR");
    reveal_strlit("AND");
    assert("OR"@.len() == 2 && "AND"@.len() == 3);
    lemma_parts_of_joined(a, op, b);
    lemma_parts_of_joined(b, op, a);
    lemma_fold_of_two(single_category(a), single_category(b), c);
}

/// An expression `a AND b` of two single identifiers, with `AND` written
/// in any case, takes the more restrictive of the two, whichever comes
/// first.
pub proof fn and_takes_the_more_restrictive(
    a: Seq<char>,
    op: Seq<char>,
    b: Seq<char>,
    c: LicenseCategory,
)
    requires
        plain_operand(a),
        plain_operand(b),
        plain_word(op),
        uppercase(op) == "AND"@,
    ensures
        classification_holds(Some(joined(a, op, b)), c) <==> c == more_restrictive(
            single_category(a),
            single_category(b),
        ),
        classification_holds(Some(joined(b, op, a)), c) <==> c == more_restrictive(
            single_category(a),
            single_category(b),
        ),
{
    reveal_strlit("OR");
    reveal_strlit("AND");
    assert("OR"@.len() == 2 && "AND"@.len() == 3);
    lemma_parts_of_joined(a, op, b);
    lemma_parts_of_joined(b, op, a);
    lemma_fold_of_two(single_category(a), single_category(b), c);
}

proof fn lemma_rank_injective()
    ensures
        forall|x: LicenseCategory, y: LicenseCategory| rank(x) == rank(y) ==> x == y,
{
}

proof fn lemma_fold_of_two(x: LicenseCategory, y: LicenseCategory, c: LicenseCategory)
    ensures
        is_least(c, seq![x, y]) <==> c == less_restrictive(x, y),
        is_least(c, seq![y, x]) <==> c == less_restrictive(x, y),
        is_most(c, seq![x, y]) <==> c == more_restrictive(x, y),
        is_most(c, seq![y, x]) <==> c == more_restrictive(x, y),
{
    let s = seq![x, y];
    let t = seq![y, x];
    assert(s[0] == x && s[1] == y);
    assert(t[0] == y && t[1] == x);
    lemma_rank_injective();
    assert(s.contains(x) && s.contains(y));
    assert(t.contains(x) && t.contains(y));
    assert(s.contains(c) ==> c == x || c == y);
    assert(t.contains(c) ==> c == x || c == y);
}

} // verus!
