//! The rows of the HTML page: the page opens one table row per package, in
//! report order, each with its package's category slug, and opens no other.
//!
//! Verus learns what a string literal holds only from `reveal_strlit` with
//! that very literal, so the lemmas below that show a fixed text of the
//! page opens no row write the text out again.
use vstd::prelude::*;

use crate::model::{
    commercial_use_name_spec, risk_level_name_spec, ClassifiedPackage, LicenseCategory, Report,
    Summary,
};
use crate::report::html::{
    card_text, cards_text, category_meta_spec, ecosystem_slug_spec, en_labels, escaped,
    escaped_text_holds_no_markup_characters, html_part2, html_part3, html_part4, html_part6,
    html_text, page_head, percent_text, row_cells, row_text, rows_text, search_text,
    source_label_spec, table_head, tr_labels, type_label_spec, Labels, PAGE_END, PAGE_HEAD, PAGE_SCRIPT, PAGE_START,
    PAGE_STYLE,
};
use crate::util::{decimal, digit_char};

verus! {

/// The text that opens a table row of the page; the row's category slug
/// follows it.
pub open spec fn row_opening() -> Seq<char> {
    "<tr data-category=\""@
}

/// `s` begins with a row opening.
pub open spec fn starts_row(s: Seq<char>) -> bool {
    row_opening().len() <= s.len() && s.take(row_opening().len() as int) == row_opening()
}

/// `s` up to its first double quote.
pub open spec fn until_quote(s: Seq<char>) -> Seq<char>
    decreases s.len(),
{
    if s.len() == 0 || s[0] == '"' {
        Seq::empty()
    } else {
        seq![s[0]] + until_quote(s.drop_first())
    }
}

/// For each row opening in `s`, in order, the text that follows it up to
/// the next double quote: the slugs of the rows that `s` opens.
pub open spec fn row_slugs(s: Seq<char>) -> Seq<Seq<char>>
    decreases s.len(),
{
    if s.len() == 0 {
        Seq::empty()
    } else {
        (if starts_row(s) {
            seq![until_quote(s.skip(row_opening().len() as int))]
        } else {
            Seq::empty()
        }) + row_slugs(s.drop_first())
    }
}

/// The filter slug of a category.
pub open spec fn category_slug(c: LicenseCategory) -> Seq<char> {
    match c {
        LicenseCategory::Permissive => "permissive"@,
        LicenseCategory::WeakCopyleft => "weak"@,
        LicenseCategory::StrongCopyleft => "strong"@,
        LicenseCategory::Unknown => "unknown"@,
    }
}

/// The category slugs of `pkgs`, in order.
pub open spec fn category_slugs(pkgs: Seq<ClassifiedPackage>) -> Seq<Seq<char>> {
    pkgs.map_values(|p: ClassifiedPackage| category_slug(p.category))
}

/// No row opening begins inside the page language `lang`, which the page
/// writes unescaped, with [`PAGE_HEAD`] after it.
pub open spec fn lang_opens_no_row(lang: Seq<char>) -> bool {
    forall|i: int| 0 <= i < lang.len() ==> !starts_row(#[trigger] (lang + PAGE_HEAD@).skip(i))
}

/// At position `i` of `s`, what follows within `s` already differs from a
/// row opening.
spec fn ruled_out(s: Seq<char>, i: int) -> bool {
    ||| i + 1 < s.len() && s[i + 1] != 't'
    ||| i + 2 < s.len() && s[i + 2] != 'r'
    ||| i + 3 < s.len() && s[i + 3] != ' '
}

/// No row opening begins in `s`, whatever follows `s`.
#[verifier::opaque]
spec fn opens_no_row(s: Seq<char>) -> bool {
    forall|i: int| 0 <= i < s.len() && #[trigger] s[i] == '<' ==> ruled_out(s, i)
}

/// The texts of a report language open no row.
spec fn labels_open_no_row(l: Labels) -> bool {
    &&& opens_no_row(l.title@)
    &&& opens_no_row(l.project@)
    &&& opens_no_row(l.scanned@)
    &&& opens_no_row(l.path@)
    &&& opens_no_row(l.total@)
    &&& opens_no_row(l.search_placeholder@)
    &&& opens_no_row(l.showing@)
    &&& opens_no_row(l.of@)
    &&& opens_no_row(l.packages@)
    &&& opens_no_row(l.col_package@)
    &&& opens_no_row(l.col_version@)
    &&& opens_no_row(l.col_license@)
    &&& opens_no_row(l.col_ecosystem@)
    &&& opens_no_row(l.col_type@)
    &&& opens_no_row(l.col_category@)
    &&& opens_no_row(l.col_risk_score@)
    &&& opens_no_row(l.col_risk_level@)
    &&& opens_no_row(l.col_commercial@)
    &&& opens_no_row(l.col_source@)
    &&& opens_no_row(l.cat_all@)
    &&& opens_no_row(l.cat_permissive@)
    &&& opens_no_row(l.cat_weak@)
    &&& opens_no_row(l.cat_strong@)
    &&& opens_no_row(l.cat_unknown@)
}

proof fn lemma_opening()
    ensures
        row_opening().len() == 19,
        row_opening()[0] == '<',
        row_opening()[1] == 't',
        row_opening()[2] == 'r',
        row_opening()[3] == ' ',
        opens_no_row(row_opening().drop_first()),
{
    reveal(opens_no_row);
    reveal_strlit("<tr data-category=\"");
    let t = row_opening().drop_first();
    assert forall|i: int| 0 <= i < t.len() && #[trigger] t[i] == '<' implies ruled_out(t, i) by {
        assert(t[i] == row_opening()[i + 1]);
    }
}

proof fn lemma_no_row_start(a: Seq<char>, b: Seq<char>)
    requires
        opens_no_row(a),
    ensures
        forall|i: int| 0 <= i < a.len() ==> !starts_row(#[trigger] (a + b).skip(i)),
{
    reveal(opens_no_row);
    lemma_opening();
    assert forall|i: int| 0 <= i < a.len() implies !starts_row(#[trigger] (a + b).skip(i)) by {
        let x = (a + b).skip(i);
        if starts_row(x) {
            let o = x.take(19);
            assert(x[0] == o[0] && x[1] == o[1] && x[2] == o[2] && x[3] == o[3]);
            assert(x[0] == a[i]);
            assert(ruled_out(a, i));
            if i + 1 < a.len() {
                assert(x[1] == a[i + 1]);
            }
            if i + 2 < a.len() {
                assert(x[2] == a[i + 2]);
            }
            if i + 3 < a.len() {
                assert(x[3] == a[i + 3]);
            }
        }
    }
}

proof fn lemma_skip(a: Seq<char>, b: Seq<char>)
    requires
        forall|i: int| 0 <= i < a.len() ==> !starts_row(#[trigger] (a + b).skip(i)),
    ensures
        row_slugs(a + b) == row_slugs(b),
    decreases a.len(),
{
    if a.len() == 0 {
        assert(a + b =~= b);
    } else {
        let t = a.drop_first();
        assert((a + b).skip(0) =~= a + b);
        assert((a + b).drop_first() =~= t + b);
        assert forall|i: int| 0 <= i < t.len() implies !starts_row(#[trigger] (t + b).skip(i)) by {
            assert((t + b).skip(i) =~= (a + b).skip(i + 1));
        }
        lemma_skip(t, b);
        assert(row_slugs(a + b) =~= Seq::<Seq<char>>::empty() + row_slugs(t + b));
    }
}

proof fn lemma_skip_no_row(a: Seq<char>, b: Seq<char>)
    requires
        opens_no_row(a),
    ensures
        row_slugs(a + b) == row_slugs(b),
{
    lemma_no_row_start(a, b);
    lemma_skip(a, b);
}

broadcast proof fn lemma_no_row_concat(a: Seq<char>, b: Seq<char>)
    requires
        opens_no_row(a),
        opens_no_row(b),
    ensures
        #[trigger] opens_no_row(a + b),
{
    reveal(opens_no_row);
    let s = a + b;
    assert forall|i: int| 0 <= i < s.len() && #[trigger] s[i] == '<' implies ruled_out(s, i) by {
        if i < a.len() {
            assert(s[i] == a[i]);
            assert(ruled_out(a, i));
            if i + 1 < a.len() {
                assert(s[i + 1] == a[i + 1]);
            }
            if i + 2 < a.len() {
                assert(s[i + 2] == a[i + 2]);
            }
            if i + 3 < a.len() {
                assert(s[i + 3] == a[i + 3]);
            }
        } else {
            let j = i - a.len();
            assert(s[i] == b[j]);
            assert(ruled_out(b, j));
            if j + 1 < b.len() {
                assert(s[i + 1] == b[j + 1]);
            }
            if j + 2 < b.len() {
                assert(s[i + 2] == b[j + 2]);
            }
            if j + 3 < b.len() {
                assert(s[i + 3] == b[j + 3]);
            }
        }
    }
}

proof fn lemma_no_lt(s: Seq<char>)
    requires
        !s.contains('<'),
    ensures
        opens_no_row(s),
{
    reveal(opens_no_row);
    assert forall|i: int| 0 <= i < s.len() && #[trigger] s[i] == '<' implies ruled_out(s, i) by {
        assert(s.contains(s[i]));
    }
}

proof fn lemma_escaped(s: Seq<char>)
    ensures
        opens_no_row(escaped(s)),
{
    escaped_text_holds_no_markup_characters(s);
    lemma_no_lt(escaped(s));
}

proof fn lemma_decimal(n: nat)
    ensures
        opens_no_row(decimal(n)),
        !decimal(n).contains('<'),
    decreases n,
{
    let d = decimal(n);
    assert(digit_char(n % 10) as u32 == n % 10 + 48);
    if n >= 10 {
        lemma_decimal(n / 10);
        let h = decimal(n / 10);
        assert(d == h + seq![digit_char(n % 10)]);
        assert forall|i: int| 0 <= i < d.len() implies d[i] != '<' by {
            if i < h.len() {
                assert(d[i] == h[i]);
                assert(h.contains(h[i]));
            }
        }
    }
    lemma_no_lt(d);
}

proof fn lemma_percent(part: nat, total: nat)
    ensures
        opens_no_row(percent_text(part, total)),
{
    broadcast use lemma_no_row_concat;

    reveal(opens_no_row);
    reveal_strlit("0.0");
    reveal_strlit(".");
    if total > 0 {
        let t = crate::report::html::tenths(part, total);
        lemma_decimal(t / 10);
        lemma_decimal(t % 10);
    }
}

proof fn lemma_labels(l: Labels)
    requires
        l == en_labels() || l == tr_labels(),
    ensures
        labels_open_no_row(l),
{
    reveal(opens_no_row);
    reveal_strlit("dep-lens license report");
    reveal_strlit("Project");
    reveal_strlit("Scanned");
    reveal_strlit("Path");
    reveal_strlit("Total packages");
    reveal_strlit("Filter by package, license, or category...");
    reveal_strlit("Showing");
    reveal_strlit("of");
    reveal_strlit("packages");
    reveal_strlit("Package");
    reveal_strlit("Version");
    reveal_strlit("License");
    reveal_strlit("Ecosystem");
    reveal_strlit("Type");
    reveal_strlit("Category");
    reveal_strlit("Risk Score");
    reveal_strlit("Risk Level");
    reveal_strlit("Commercial Use");
    reveal_strlit("Source");
    reveal_strlit("All");
    reveal_strlit("Permissive");
    reveal_strlit("Weak Copyleft");
    reveal_strlit("Strong Copyleft");
    reveal_strlit("Unknown");
    reveal_strlit("dep-lens lisans raporu");
    reveal_strlit("Proje");
    reveal_strlit("Tarama Tarihi");
    reveal_strlit("Dizin");
    reveal_strlit("Toplam paket");
    reveal_strlit("Paket, lisans veya kategoriye g\u{f6}re filtrele...");
    reveal_strlit("G\u{f6}sterilen:");
    reveal_strlit("/");
    reveal_strlit("paket");
    reveal_strlit("Paket");
    reveal_strlit("S\u{fc}r\u{fc}m");
    reveal_strlit("Lisans");
    reveal_strlit("Ekosistem");
    reveal_strlit("T\u{fc}r");
    reveal_strlit("Kategori");
    reveal_strlit("Risk Puan\u{131}");
    reveal_strlit("Risk Seviyesi");
    reveal_strlit("Ticari Kullan\u{131}m");
    reveal_strlit("Kaynak");
    reveal_strlit("T\u{fc}m\u{fc}");
    reveal_strlit("\u{130}zinli");
    reveal_strlit("Zay\u{131}f Copyleft");
    reveal_strlit("G\u{fc}\u{e7}l\u{fc} Copyleft");
    reveal_strlit("Bilinmeyen");
}

proof fn lemma_names(p: ClassifiedPackage, labels: Labels)
    requires
        labels_open_no_row(labels),
    ensures
        opens_no_row(source_label_spec(p.license_source)),
        opens_no_row(type_label_spec(p.dependency_type)),
        opens_no_row(ecosystem_slug_spec(p.ecosystem)),
        opens_no_row(risk_level_name_spec(p.risk_level)),
        opens_no_row(commercial_use_name_spec(p.commercial_use)),
        opens_no_row(category_meta_spec(p.category, labels).0@),
        opens_no_row(category_meta_spec(p.category, labels).1@),
        opens_no_row(category_meta_spec(p.category, labels).2@),
        category_meta_spec(p.category, labels).1@ == category_slug(p.category),
        !category_meta_spec(p.category, labels).1@.contains('"'),
{
    reveal(opens_no_row);
    reveal_strlit("declared");
    reveal_strlit("license file");
    reveal_strlit("none");
    reveal_strlit("direct");
    reveal_strlit("transitive");
    reveal_strlit("npm");
    reveal_strlit("cargo");
    reveal_strlit("go");
    reveal_strlit("python");
    reveal_strlit("ruby");
    reveal_strlit("php");
    reveal_strlit("java");
    reveal_strlit("dart");
    reveal_strlit("cpp");
    reveal_strlit("Low");
    reveal_strlit("Medium");
    reveal_strlit("High");
    reveal_strlit("Yes");
    reveal_strlit("Caution");
    reveal_strlit("Restricted");
    reveal_strlit("Review");
    reveal_strlit("permissive");
    reveal_strlit("#2e7d32");
    reveal_strlit("weak");
    reveal_strlit("#b58900");
    reveal_strlit("strong");
    reveal_strlit("#c62828");
    reveal_strlit("unknown");
    reveal_strlit("#616161");
}

#[verifier::spinoff_prover]
#[verifier::rlimit(100)]
proof fn lemma_cells(p: ClassifiedPackage, labels: Labels)
    requires
        labels_open_no_row(labels),
    ensures
        opens_no_row(row_cells(p, labels)),
        row_cells(p, labels).len() > 0,
        row_cells(p, labels)[0] == '"',
{
    broadcast use lemma_no_row_concat;

    assert(opens_no_row("\" data-search=\""@)) by {
        reveal(opens_no_row);
        reveal_strlit("\" data-search=\"");
    }
    assert(opens_no_row("\"><td>"@)) by {
        reveal(opens_no_row);
        reveal_strlit("\"><td>");
    }
    assert(opens_no_row("</td><td>"@)) by {
        reveal(opens_no_row);
        reveal_strlit("</td><td>");
    }
    assert(opens_no_row("</td><td><span class=\"badge\" style=\"background:"@)) by {
        reveal(opens_no_row);
        reveal_strlit("</td><td><span class=\"badge\" style=\"background:");
    }
    assert(opens_no_row("\">"@)) by {
        reveal(opens_no_row);
        reveal_strlit("\">");
    }
    assert(opens_no_row("</span></td><td class=\"num\" data-value=\""@)) by {
        reveal(opens_no_row);
        reveal_strlit("</span></td><td class=\"num\" data-value=\"");
    }
    assert(opens_no_row("</td></tr>"@)) by {
        reveal(opens_no_row);
        reveal_strlit("</td></tr>");
    }
    reveal_strlit("\" data-search=\"");
    lemma_names(p, labels);
    let label = category_meta_spec(p.category, labels).0;
    lemma_escaped(search_text(p, label@));
    lemma_escaped(p.name@);
    lemma_escaped(p.version@);
    lemma_escaped(p.license@);
    lemma_decimal(p.risk_score as nat);
}

#[verifier::spinoff_prover]
#[verifier::rlimit(100)]
broadcast proof fn lemma_card(
    label: Seq<char>,
    slug: Seq<char>,
    count: nat,
    color: Seq<char>,
    total: nat,
)
    requires
        opens_no_row(label),
        opens_no_row(slug),
        opens_no_row(color),
    ensures
        #[trigger] opens_no_row(card_text(label, slug, count, color, total)),
{
    broadcast use lemma_no_row_concat;

    reveal(opens_no_row);
    reveal_strlit("<button class=\"card\" data-filter=\"");
    reveal_strlit("\" style=\"border-top: 4px solid ");
    reveal_strlit("\"><span class=\"card-count\">");
    reveal_strlit("</span><span class=\"card-label\">");
    reveal_strlit("</span><span class=\"card-pct\">");
    reveal_strlit("%</span></button>");
    lemma_decimal(count);
    lemma_percent(count, total);
}

#[verifier::spinoff_prover]
#[verifier::rlimit(100)]
proof fn lemma_cards(s: Summary, labels: Labels)
    requires
        labels_open_no_row(labels),
    ensures
        opens_no_row(cards_text(s, labels)),
{
    broadcast use lemma_no_row_concat, lemma_card;

    reveal(opens_no_row);
    reveal_strlit("all");
    reveal_strlit("#1565c0");
    reveal_strlit("\n");
    reveal_strlit("permissive");
    reveal_strlit("#2e7d32");
    reveal_strlit("weak");
    reveal_strlit("#b58900");
    reveal_strlit("strong");
    reveal_strlit("#c62828");
    reveal_strlit("unknown");
    reveal_strlit("#616161");
}

proof fn lemma_head(report: Report, labels: Labels)
    requires
        labels_open_no_row(labels),
    ensures
        opens_no_row(page_head(report, labels)),
{
    broadcast use lemma_no_row_concat;

    assert(opens_no_row(PAGE_HEAD@)) by {
        reveal(opens_no_row);
        reveal_strlit("\">
<head>
<meta charset=\"utf-8\">
<meta name=\"viewport\" content=\"width=device-width, initial-scale=1\">
<title>dep-lens report - ");
    }
    assert(opens_no_row(PAGE_STYLE@)) by {
        reveal(opens_no_row);
        reveal_strlit("</title>
<style>
  body { font-family: -apple-system, \"Segoe UI\", Roboto, Helvetica, Arial, sans-serif; margin: 2rem; color: #1c1c1c; background: #fafafa; }
  h1 { font-size: 1.5rem; margin-bottom: 0.25rem; }
  .meta { color: #616161; margin-bottom: 1.5rem; }
  .cards { display: flex; gap: 1rem; flex-wrap: wrap; margin-bottom: 1.5rem; }
  .card { background: #fff; border: 1px solid #e0e0e0; border-radius: 6px; padding: 1rem 1.5rem; min-width: 9rem; cursor: pointer; font: inherit; text-align: left; display: flex; flex-direction: column; }
  .card.active { outline: 2px solid #1565c0; }
  .card-count { font-size: 2rem; font-weight: 700; }
  .card-label { color: #616161; }
  .card-pct { color: #9e9e9e; font-size: 0.875rem; }
  #search { width: 100%; max-width: 24rem; padding: 0.5rem 0.75rem; margin-bottom: 1rem; border: 1px solid #bdbdbd; border-radius: 6px; font: inherit; }
  table { border-collapse: collapse; width: 100%; background: #fff; border: 1px solid #e0e0e0; }
  th, td { text-align: left; padding: 0.5rem 0.75rem; border-bottom: 1px solid #eee; font-size: 0.875rem; }
  th { background: #f5f5f5; position: sticky; top: 0; cursor: pointer; user-select: none; }
  th .dir { color: #1565c0; }
  td.num { text-align: right; font-variant-numeric: tabular-nums; }
  .badge { color: #fff; border-radius: 4px; padding: 0.125rem 0.5rem; font-size: 0.75rem; white-space: nowrap; }
  #count { color: #616161; margin: 0.5rem 0; }
</style>
</head>
<body>
<h1>");
    }
    assert(opens_no_row("</h1>
<p class=\"meta\">"@)) by {
        reveal(opens_no_row);
        reveal_strlit("</h1>
<p class=\"meta\">");
    }
    lemma_escaped(report.project@);
}

proof fn lemma_part2(report: Report, lang: Seq<char>, labels: Labels)
    requires
        labels_open_no_row(labels),
    ensures
        opens_no_row(html_part2(report, lang, labels)),
{
    broadcast use lemma_no_row_concat;

    assert(opens_no_row(": "@)) by {
        reveal(opens_no_row);
        reveal_strlit(": ");
    }
    assert(opens_no_row(" | "@)) by {
        reveal(opens_no_row);
        reveal_strlit(" | ");
    }
    lemma_escaped(report.project@);
    lemma_escaped(report.scanned_at@);
    lemma_escaped(report.path@);
    lemma_decimal(report.summary.total as nat);
}

proof fn lemma_part3(report: Report, lang: Seq<char>, labels: Labels)
    requires
        labels_open_no_row(labels),
    ensures
        opens_no_row(html_part3(report, lang, labels)),
{
    broadcast use lemma_no_row_concat;

    assert(opens_no_row("</p>
<div class=\"cards\">
"@)) by {
        reveal(opens_no_row);
        reveal_strlit("</p>
<div class=\"cards\">
");
    }
    assert(opens_no_row("
</div>
<input id=\"search\" type=\"search\" placeholder=\""@)) by {
        reveal(opens_no_row);
        reveal_strlit("
</div>
<input id=\"search\" type=\"search\" placeholder=\"");
    }
    assert(opens_no_row("\">
<p id=\"count\"></p>
<table id=\"pkgs\">
<thead><tr>
<th data-col=\"0\">"@)) by {
        reveal(opens_no_row);
        reveal_strlit("\">
<p id=\"count\"></p>
<table id=\"pkgs\">
<thead><tr>
<th data-col=\"0\">");
    }
    lemma_cards(report.summary, labels);
}

proof fn lemma_part4(report: Report, lang: Seq<char>, labels: Labels)
    requires
        labels_open_no_row(labels),
    ensures
        opens_no_row(html_part4(report, lang, labels)),
        opens_no_row(table_head(labels)),
{
    broadcast use lemma_no_row_concat;

    assert(opens_no_row(" <span class=\"dir\"></span></th>
<th data-col=\"1\">"@)) by {
        reveal(opens_no_row);
        reveal_strlit(" <span class=\"dir\"></span></th>
<th data-col=\"1\">");
    }
    assert(opens_no_row(" <span class=\"dir\"></span></th>
<th data-col=\"2\">"@)) by {
        reveal(opens_no_row);
        reveal_strlit(" <span class=\"dir\"></span></th>
<th data-col=\"2\">");
    }
    assert(opens_no_row(" <span class=\"dir\"></span></th>
<th data-col=\"3\">"@)) by {
        reveal(opens_no_row);
        reveal_strlit(" <span class=\"dir\"></span></th>
<th data-col=\"3\">");
    }
    assert(opens_no_row(" <span class=\"dir\"></span></th>
<th data-col=\"4\">"@)) by {
        reveal(opens_no_row);
        reveal_strlit(" <span class=\"dir\"></span></th>
<th data-col=\"4\">");
    }
    assert(opens_no_row(" <span class=\"dir\"></span></th>
<th data-col=\"5\">"@)) by {
        reveal(opens_no_row);
        reveal_strlit(" <span class=\"dir\"></span></th>
<th data-col=\"5\">");
    }
    assert(opens_no_row(" <span class=\"dir\"></span></th>
<th data-col=\"6\" data-numeric=\"1\">"@)) by {
        reveal(opens_no_row);
        reveal_strlit(" <span class=\"dir\"></span></th>
<th data-col=\"6\" data-numeric=\"1\">");
    }
    assert(opens_no_row(" <span class=\"dir\"></span></th>
<th data-col=\"7\">"@)) by {
        reveal(opens_no_row);
        reveal_strlit(" <span class=\"dir\"></span></th>
<th data-col=\"7\">");
    }
    assert(opens_no_row(" <span class=\"dir\"></span></th>
<th data-col=\"8\">"@)) by {
        reveal(opens_no_row);
        reveal_strlit(" <span class=\"dir\"></span></th>
<th data-col=\"8\">");
    }
    assert(opens_no_row(" <span class=\"dir\"></span></th>
<th data-col=\"9\">"@)) by {
        reveal(opens_no_row);
        reveal_strlit(" <span class=\"dir\"></span></th>
<th data-col=\"9\">");
    }
    assert(opens_no_row(" <span class=\"dir\"></span></th>
</tr></thead>
<tbody>
"@)) by {
        reveal(opens_no_row);
        reveal_strlit(" <span class=\"dir\"></span></th>
</tr></thead>
<tbody>
");
    }
}

proof fn lemma_part6(report: Report, lang: Seq<char>, labels: Labels)
    requires
        labels_open_no_row(labels),
    ensures
        opens_no_row(html_part6(report, lang, labels)),
{
    broadcast use lemma_no_row_concat;

    assert(opens_no_row(PAGE_SCRIPT@)) by {
        reveal(opens_no_row);
        reveal_strlit("
</tbody>
</table>
<script>
(function () {
  var search = document.getElementById('search');
  var tbody = document.querySelector('#pkgs tbody');
  var countEl = document.getElementById('count');
  var cards = Array.prototype.slice.call(document.querySelectorAll('.card'));
  var activeFilter = 'all';

  function apply() {
    var query = search.value.trim().toLowerCase();
    var rows = Array.prototype.slice.call(tbody.rows);
    var shown = 0;
    rows.forEach(function (row) {
      var matchesText = query === '' || row.getAttribute('data-search').indexOf(query) !== -1;
      var matchesCat = activeFilter === 'all' || row.getAttribute('data-category') === activeFilter;
      var visible = matchesText && matchesCat;
      row.style.display = visible ? '' : 'none';
      if (visible) shown += 1;
    });
    countEl.textContent = '");
    }
    assert(opens_no_row(PAGE_END@)) by {
        reveal(opens_no_row);
        reveal_strlit("';
  }

  cards.forEach(function (card) {
    card.addEventListener('click', function () {
      activeFilter = card.getAttribute('data-filter');
      cards.forEach(function (c) { c.classList.toggle('active', c === card); });
      apply();
    });
  });

  search.addEventListener('input', apply);

  var sortCol = -1;
  var sortAsc = true;
  Array.prototype.slice.call(document.querySelectorAll('#pkgs th')).forEach(function (th) {
    th.addEventListener('click', function () {
      var col = parseInt(th.getAttribute('data-col'), 10);
      sortAsc = col === sortCol ? !sortAsc : true;
      sortCol = col;
      var numeric = th.getAttribute('data-numeric') === '1';
      var rows = Array.prototype.slice.call(tbody.rows);
      rows.sort(function (a, b) {
        var av = numeric ? parseFloat(a.cells[col].getAttribute('data-value')) : a.cells[col].textContent.toLowerCase();
        var bv = numeric ? parseFloat(b.cells[col].getAttribute('data-value')) : b.cells[col].textContent.toLowerCase();
        if (av < bv) return sortAsc ? -1 : 1;
        if (av > bv) return sortAsc ? 1 : -1;
        return 0;
      });
      rows.forEach(function (row) { tbody.appendChild(row); });
      document.querySelectorAll('#pkgs th .dir').forEach(function (el) { el.textContent = ''; });
      th.querySelector('.dir').textContent = sortAsc ? '^' : 'v';
    });
  });

  cards[0].classList.add('active');
  apply();
})();
</script>
</body>
</html>
");
    }
    assert(opens_no_row(" ' + shown + ' "@)) by {
        reveal(opens_no_row);
        reveal_strlit(" ' + shown + ' ");
    }
    assert(opens_no_row(" ' + rows.length + ' "@)) by {
        reveal(opens_no_row);
        reveal_strlit(" ' + rows.length + ' ");
    }
}

/// Everything of the page between its language and its rows.
spec fn page_front(report: Report, lang: Seq<char>, labels: Labels) -> Seq<char> {
    page_head(report, labels) + html_part2(report, lang, labels) + html_part3(report, lang, labels)
        + html_part4(report, lang, labels) + table_head(labels)
}

proof fn lemma_front(report: Report, lang: Seq<char>, labels: Labels)
    requires
        labels_open_no_row(labels),
    ensures
        opens_no_row(page_front(report, lang, labels)),
        forall|j: int|
            0 <= j < PAGE_HEAD@.len() ==> #[trigger] page_front(report, lang, labels)[j]
                == PAGE_HEAD@[j],
        page_front(report, lang, labels).len() >= PAGE_HEAD@.len(),
{
    broadcast use lemma_no_row_concat;

    lemma_head(report, labels);
    lemma_part2(report, lang, labels);
    lemma_part3(report, lang, labels);
    lemma_part4(report, lang, labels);
}

proof fn lemma_page_frame()
    ensures
        opens_no_row(PAGE_START@),
        PAGE_HEAD@.len() >= 19,
{
    reveal(opens_no_row);
    reveal_strlit("<!DOCTYPE html>
<html lang=\"");
    reveal_strlit("\">
<head>
<meta charset=\"utf-8\">
<meta name=\"viewport\" content=\"width=device-width, initial-scale=1\">
<title>dep-lens report - ");
}

proof fn lemma_newline()
    ensures
        opens_no_row("\n"@),
{
    reveal(opens_no_row);
    reveal_strlit("\n");
}

proof fn lemma_until_quote(x: Seq<char>, y: Seq<char>)
    requires
        !x.contains('"'),
        y.len() > 0,
        y[0] == '"',
    ensures
        until_quote(x + y) == x,
    decreases x.len(),
{
    if x.len() == 0 {
        assert(x + y =~= y);
        assert(x =~= Seq::<char>::empty());
    } else {
        assert(x.contains(x[0]));
        assert((x + y)[0] == x[0]);
        assert((x + y).drop_first() =~= x.drop_first() + y);
        assert(!x.drop_first().contains('"')) by {
            if x.drop_first().contains('"') {
                let k = choose|k: int| 0 <= k < x.drop_first().len() && x.drop_first()[k] == '"';
                assert(x[k + 1] == '"');
                assert(x.contains(x[k + 1]));
            }
        }
        lemma_until_quote(x.drop_first(), y);
        assert(seq![x[0]] + x.drop_first() =~= x);
    }
}

/// A row, whatever follows it, opens itself with its package's slug and
/// nothing more.
proof fn lemma_row(p: ClassifiedPackage, labels: Labels, b: Seq<char>)
    requires
        labels_open_no_row(labels),
    ensures
        row_slugs(row_text(p, labels) + b) == seq![category_slug(p.category)] + row_slugs(b),
{
    broadcast use lemma_no_row_concat;

    lemma_opening();
    lemma_names(p, labels);
    lemma_cells(p, labels);
    let slug = category_meta_spec(p.category, labels).1@;
    let cells = row_cells(p, labels);
    let o = row_opening();
    let s = row_text(p, labels) + b;
    assert(s =~= o + (slug + (cells + b)));
    assert(s.take(19) =~= o);
    assert(s.skip(19) =~= slug + (cells + b));
    lemma_until_quote(slug, cells + b);
    assert(s.drop_first() =~= (o.drop_first() + (slug + cells)) + b);
    lemma_skip_no_row(o.drop_first() + (slug + cells), b);
}

#[verifier::spinoff_prover]
#[verifier::rlimit(100)]
proof fn lemma_rows(pkgs: Seq<ClassifiedPackage>, labels: Labels, b: Seq<char>)
    requires
        labels_open_no_row(labels),
    ensures
        row_slugs(rows_text(pkgs, labels) + b) == category_slugs(pkgs) + row_slugs(b),
    decreases pkgs.len(),
{
    let parts = Seq::new(pkgs.len(), |k: int| row_text(pkgs[k], labels));
    if pkgs.len() == 0 {
        assert(rows_text(pkgs, labels) + b =~= b);
        assert(category_slugs(pkgs) + row_slugs(b) =~= row_slugs(b));
    } else if pkgs.len() == 1 {
        assert(rows_text(pkgs, labels) == row_text(pkgs[0], labels));
        lemma_row(pkgs[0], labels, b);
        assert(category_slugs(pkgs) =~= seq![category_slug(pkgs[0].category)]);
    } else {
        let init = pkgs.drop_last();
        let last = pkgs.last();
        assert(parts.drop_last() =~= Seq::new(init.len(), |k: int| row_text(init[k], labels)));
        assert(parts.last() == row_text(last, labels));
        let tail = "\n"@ + (row_text(last, labels) + b);
        assert(rows_text(pkgs, labels) + b =~= rows_text(init, labels) + tail);
        lemma_rows(init, labels, tail);
        lemma_newline();
        lemma_skip_no_row("\n"@, row_text(last, labels) + b);
        lemma_row(last, labels, b);
        assert(category_slugs(pkgs) =~= category_slugs(init).push(category_slug(last.category)));
        assert(category_slugs(init) + (seq![category_slug(last.category)] + row_slugs(b))
            =~= category_slugs(pkgs) + row_slugs(b));
    }
}

/// The HTML page opens exactly one table row per package of the report,
/// in report order, each with that package's category slug
/// (`permissive`, `weak`, `strong` or `unknown`), and opens no other row,
/// for any page language that itself opens no row.
#[verifier::spinoff_prover]
#[verifier::rlimit(100)]
pub proof fn one_row_per_package(report: Report, lang: Seq<char>)
    requires
        lang_opens_no_row(lang),
    ensures
        row_slugs(html_text(report, lang)) == category_slugs(report.packages@),
{
    broadcast use lemma_no_row_concat;

    let labels = if lang == "tr"@ {
        tr_labels()
    } else {
        en_labels()
    };
    lemma_labels(labels);
    lemma_page_frame();
    lemma_front(report, lang, labels);
    lemma_part6(report, lang, labels);
    let f = page_front(report, lang, labels);
    let r = rows_text(report.packages@, labels);
    let e = html_part6(report, lang, labels);
    let rest = f + (r + e);
    assert(html_text(report, lang) =~= PAGE_START@ + (lang + rest));
    lemma_skip_no_row(PAGE_START@, lang + rest);
    lemma_lang(lang, rest);
    lemma_skip_no_row(f, r + e);
    lemma_rows(report.packages@, labels, e);
    lemma_skip_no_row(e, Seq::empty());
    assert(e + Seq::<char>::empty() =~= e);
    assert(category_slugs(report.packages@) + Seq::<Seq<char>>::empty() =~= category_slugs(
        report.packages@,
    ));
}

/// The language opens no row on the page, whatever comes after the page
/// head that follows it.
proof fn lemma_lang(lang: Seq<char>, rest: Seq<char>)
    requires
        lang_opens_no_row(lang),
        PAGE_HEAD@.len() >= 19,
        rest.len() >= PAGE_HEAD@.len(),
        forall|j: int| 0 <= j < PAGE_HEAD@.len() ==> #[trigger] rest[j] == PAGE_HEAD@[j],
    ensures
        row_slugs(lang + rest) == row_slugs(rest),
{
    lemma_opening();
    assert forall|i: int| 0 <= i < lang.len() implies !starts_row(
        #[trigger] (lang + rest).skip(i),
    ) by {
        let x = (lang + rest).skip(i);
        let y = (lang + PAGE_HEAD@).skip(i);
        assert(!starts_row(y));
        assert forall|k: int| 0 <= k < 19 implies x[k] == y[k] by {
            if i + k >= lang.len() {
                assert(rest[i + k - lang.len()] == PAGE_HEAD@[i + k - lang.len()]);
            }
        }
        assert(x.take(19) =~= y.take(19));
    }
    lemma_skip(lang, rest);
}

/// A page language without `<` opens no row.
pub proof fn plain_languages_open_no_row(lang: Seq<char>)
    requires
        !lang.contains('<'),
    ensures
        lang_opens_no_row(lang),
{
    lemma_no_lt(lang);
    lemma_no_row_start(lang, PAGE_HEAD@);
}

} // verus!
