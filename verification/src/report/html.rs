//! HTML rendering: a standalone interactive report page.
use vstd::prelude::*;

use crate::model::{
    ClassifiedPackage, DependencyType, Ecosystem, LicenseCategory, LicenseSource, Report, Summary,
    commercial_use_name, commercial_use_name_spec, risk_level_name, risk_level_name_spec,
};
use crate::text;
use crate::util::{decimal, decimal_chars};

verus! {

pub const PAGE_START: &'static str = "<!DOCTYPE html>
<html lang=\"";

pub const PAGE_HEAD: &'static str = "\">
<head>
<meta charset=\"utf-8\">
<meta name=\"viewport\" content=\"width=device-width, initial-scale=1\">
<title>dep-lens report - ";

pub const PAGE_STYLE: &'static str = "</title>
<style>
  body { font-family: -apple-system, \"Segoe UI\", Roboto, Helvetica, Arial, sans-serif; margin: 2rem; color: #1c1c1c; background: #fafafa; }
  h1 { font-size: 1.5rem; margin-bottom: 0.25rem; }
  .meta { color: #616161; margin-bottom: 1.5rem; }
  .cards { display: flex; gap: 1rem; flex-wrap: wrap; margin-bottom: 1.5rem; }
  .card { background: #fff; border: 1px solid #e0e0e0; border-radius: 6px; padding: 1rem 1.5rem; min-width: 9rem; cursor: pointer; font: inherit; text-align: left; display: flex; flex-direction: column; }
  .card.active { outline: 2px solid #1565c0; }
  .card-count { font-size: 2rem; font-weight: 700; }
  .card-label { color: #616161; }
  .card-pct { color: #9e9e9e; font-size: 0.875rem; }
  #search { width: 100%; max-width: 24rem; padding: 0.5rem 0.75rem; margin-bottom: 1rem; border: 1px solid #bdbdbd; border-radius: 6px; font: inherit; }
  table { border-collapse: collapse; width: 100%; background: #fff; border: 1px solid #e0e0e0; }
  th, td { text-align: left; padding: 0.5rem 0.75rem; border-bottom: 1px solid #eee; font-size: 0.875rem; }
  th { background: #f5f5f5; position: sticky; top: 0; cursor: pointer; user-select: none; }
  th .dir { color: #1565c0; }
  td.num { text-align: right; font-variant-numeric: tabular-nums; }
  .badge { color: #fff; border-radius: 4px; padding: 0.125rem 0.5rem; font-size: 0.75rem; white-space: nowrap; }
  #count { color: #616161; margin: 0.5rem 0; }
</style>
</head>
<body>
<h1>";

pub const PAGE_SCRIPT: &'static str = "
</tbody>
</table>
<script>
(function () {
  var search = document.getElementById('search');
  var tbody = document.querySelector('#pkgs tbody');
  var countEl = document.getElementById('count');
  var cards = Array.prototype.slice.call(document.querySelectorAll('.card'));
  var activeFilter = 'all';

  function apply() {
    var query = search.value.trim().toLowerCase();
    var rows = Array.prototype.slice.call(tbody.rows);
    var shown = 0;
    rows.forEach(function (row) {
      var matchesText = query === '' || row.getAttribute('data-search').indexOf(query) !== -1;
      var matchesCat = activeFilter === 'all' || row.getAttribute('data-category') === activeFilter;
      var visible = matchesText && matchesCat;
      row.style.display = visible ? '' : 'none';
      if (visible) shown += 1;
    });
    countEl.textContent = '";

pub const PAGE_END: &'static str = "';
  }

  cards.forEach(function (card) {
    card.addEventListener('click', function () {
      activeFilter = card.getAttribute('data-filter');
      cards.forEach(function (c) { c.classList.toggle('active', c === card); });
      apply();
    });
  });

  search.addEventListener('input', apply);

  var sortCol = -1;
  var sortAsc = true;
  Array.prototype.slice.call(document.querySelectorAll('#pkgs th')).forEach(function (th) {
    th.addEventListener('click', function () {
      var col = parseInt(th.getAttribute('data-col'), 10);
      sortAsc = col === sortCol ? !sortAsc : true;
      sortCol = col;
      var numeric = th.getAttribute('data-numeric') === '1';
      var rows = Array.prototype.slice.call(tbody.rows);
      rows.sort(function (a, b) {
        var av = numeric ? parseFloat(a.cells[col].getAttribute('data-value')) : a.cells[col].textContent.toLowerCase();
        var bv = numeric ? parseFloat(b.cells[col].getAttribute('data-value')) : b.cells[col].textContent.toLowerCase();
        if (av < bv) return sortAsc ? -1 : 1;
        if (av > bv) return sortAsc ? 1 : -1;
        return 0;
      });
      rows.forEach(function (row) { tbody.appendChild(row); });
      document.querySelectorAll('#pkgs th .dir').forEach(function (el) { el.textContent = ''; });
      th.querySelector('.dir').textContent = sortAsc ? '^' : 'v';
    });
  });

  cards[0].classList.add('active');
  apply();
})();
</script>
</body>
</html>
";

/// The fixed texts of one report language.
pub struct Labels {
    pub title: &'static str,
    pub project: &'static str,
    pub scanned: &'static str,
    pub path: &'static str,
    pub total: &'static str,
    pub search_placeholder: &'static str,
    pub showing: &'static str,
    pub of: &'static str,
    pub packages: &'static str,
    pub col_package: &'static str,
    pub col_version: &'static str,
    pub col_license: &'static str,
    pub col_ecosystem: &'static str,
    pub col_type: &'static str,
    pub col_category: &'static str,
    pub col_risk_score: &'static str,
    pub col_risk_level: &'static str,
    pub col_commercial: &'static str,
    pub col_source: &'static str,
    pub cat_all: &'static str,
    pub cat_permissive: &'static str,
    pub cat_weak: &'static str,
    pub cat_strong: &'static str,
    pub cat_unknown: &'static str,
}

/// The English texts.
pub open spec fn en_labels() -> Labels {
    Labels {
        title: "dep-lens license report",
        project: "Project",
        scanned: "Scanned",
        path: "Path",
        total: "Total packages",
        search_placeholder: "Filter by package, license, or category...",
        showing: "Showing",
        of: "of",
        packages: "packages",
        col_package: "Package",
        col_version: "Version",
        col_license: "License",
        col_ecosystem: "Ecosystem",
        col_type: "Type",
        col_category: "Category",
        col_risk_score: "Risk Score",
        col_risk_level: "Risk Level",
        col_commercial: "Commercial Use",
        col_source: "Source",
        cat_all: "All",
        cat_permissive: "Permissive",
        cat_weak: "Weak Copyleft",
        cat_strong: "Strong Copyleft",
        cat_unknown: "Unknown",
    }
}

/// The Turkish texts.
pub open spec fn tr_labels() -> Labels {
    Labels {
        title: "dep-lens lisans raporu",
        project: "Proje",
        scanned: "Tarama Tarihi",
        path: "Dizin",
        total: "Toplam paket",
        search_placeholder: "Paket, lisans veya kategoriye g\u{f6}re filtrele...",
        showing: "G\u{f6}sterilen:",
        of: "/",
        packages: "paket",
        col_package: "Paket",
        col_version: "S\u{fc}r\u{fc}m",
        col_license: "Lisans",
        col_ecosystem: "Ekosistem",
        col_type: "T\u{fc}r",
        col_category: "Kategori",
        col_risk_score: "Risk Puan\u{131}",
        col_risk_level: "Risk Seviyesi",
        col_commercial: "Ticari Kullan\u{131}m",
        col_source: "Kaynak",
        cat_all: "T\u{fc}m\u{fc}",
        cat_permissive: "\u{130}zinli",
        cat_weak: "Zay\u{131}f Copyleft",
        cat_strong: "G\u{fc}\u{e7}l\u{fc} Copyleft",
        cat_unknown: "Bilinmeyen",
    }
}

/// The texts of a report language: Turkish when `tr` holds, else English.
fn labels_for(tr: bool) -> (l: Labels)
    ensures
        l == (if tr {
            tr_labels()
        } else {
            en_labels()
        }),
{
    if tr {
        Labels {
            title: "dep-lens lisans raporu",
            project: "Proje",
            scanned: "Tarama Tarihi",
            path: "Dizin",
            total: "Toplam paket",
            search_placeholder: "Paket, lisans veya kategoriye g\u{f6}re filtrele...",
            showing: "G\u{f6}sterilen:",
            of: "/",
            packages: "paket",
            col_package: "Paket",
            col_version: "S\u{fc}r\u{fc}m",
            col_license: "Lisans",
            col_ecosystem: "Ekosistem",
            col_type: "T\u{fc}r",
            col_category: "Kategori",
            col_risk_score: "Risk Puan\u{131}",
            col_risk_level: "Risk Seviyesi",
            col_commercial: "Ticari Kullan\u{131}m",
            col_source: "Kaynak",
            cat_all: "T\u{fc}m\u{fc}",
            cat_permissive: "\u{130}zinli",
            cat_weak: "Zay\u{131}f Copyleft",
            cat_strong: "G\u{fc}\u{e7}l\u{fc} Copyleft",
            cat_unknown: "Bilinmeyen",
        }
    } else {
        Labels {
            title: "dep-lens license report",
            project: "Project",
            scanned: "Scanned",
            path: "Path",
            total: "Total packages",
            search_placeholder: "Filter by package, license, or category...",
            showing: "Showing",
            of: "of",
            packages: "packages",
            col_package: "Package",
            col_version: "Version",
            col_license: "License",
            col_ecosystem: "Ecosystem",
            col_type: "Type",
            col_category: "Category",
            col_risk_score: "Risk Score",
            col_risk_level: "Risk Level",
            col_commercial: "Commercial Use",
            col_source: "Source",
            cat_all: "All",
            cat_permissive: "Permissive",
            cat_weak: "Weak Copyleft",
            cat_strong: "Strong Copyleft",
            cat_unknown: "Unknown",
        }
    }
}

// ---------------------------------------------------------------------------
// Escaping
// ---------------------------------------------------------------------------

/// What one character becomes in HTML text.
pub open spec fn escaped_char(c: char) -> Seq<char> {
    if c == '&' {
        "&amp;"@
    } else if c == '<' {
        "&lt;"@
    } else if c == '>' {
        "&gt;"@
    } else if c == '"' {
        "&quot;"@
    } else if c == '\'' {
        "&#39;"@
    } else {
        seq![c]
    }
}

/// `s` escaped for safe interpolation into HTML.
pub open spec fn escaped(s: Seq<char>) -> Seq<char>
    decreases s.len(),
{
    if s.len() == 0 {
        Seq::empty()
    } else {
        escaped(s.drop_last()) + escaped_char(s.last())
    }
}

fn push_escaped_chars(out: &mut String, input: &[char])
    ensures
        final(out)@ == old(out)@ + escaped(input@),
{
    let ghost start = out@;
    let mut i: usize = 0;
    while i < input.len()
        invariant
            i <= input.len(),
            out@ == start + escaped(input@.take(i as int)),
        decreases input.len() - i,
    {
        let c = input[i];
        assert(input@.take(i + 1).drop_last() =~= input@.take(i as int));
        if c == '&' {
            out.append("&amp;");
        } else if c == '<' {
            out.append("&lt;");
        } else if c == '>' {
            out.append("&gt;");
        } else if c == '"' {
            out.append("&quot;");
        } else if c == '\'' {
            out.append("&#39;");
        } else {
            text::push_char(out, c);
        }
        i += 1;
        assert(out@ =~= start + escaped(input@.take(i as int)));
    }
    assert(input@.take(input.len() as int) =~= input@);
}

fn push_escaped(out: &mut String, input: &str)
    ensures
        final(out)@ == old(out)@ + escaped(input@),
{
    let chars = text::to_chars(input);
    push_escaped_chars(out, &chars);
}

/// Escape text for safe interpolation into HTML.
pub fn escape(input: &str) -> (r: String)
    ensures
        r@ == escaped(input@),
{
    let mut out = String::new();
    push_escaped(&mut out, input);
    out
}

// ---------------------------------------------------------------------------
// Cells
// ---------------------------------------------------------------------------

/// Display label, filter slug and color of a category.
pub open spec fn category_meta_spec(category: LicenseCategory, labels: Labels) -> (
    &'static str,
    &'static str,
    &'static str,
) {
    match category {
        LicenseCategory::Permissive => (labels.cat_permissive, "permissive", "#2e7d32"),
        LicenseCategory::WeakCopyleft => (labels.cat_weak, "weak", "#b58900"),
        LicenseCategory::StrongCopyleft => (labels.cat_strong, "strong", "#c62828"),
        LicenseCategory::Unknown => (labels.cat_unknown, "unknown", "#616161"),
    }
}

fn category_meta(category: LicenseCategory, labels: &Labels) -> (r: (
    &'static str,
    &'static str,
    &'static str,
))
    ensures
        r == category_meta_spec(category, *labels),
{
    match category {
        LicenseCategory::Permissive => (labels.cat_permissive, "permissive", "#2e7d32"),
        LicenseCategory::WeakCopyleft => (labels.cat_weak, "weak", "#b58900"),
        LicenseCategory::StrongCopyleft => (labels.cat_strong, "strong", "#c62828"),
        LicenseCategory::Unknown => (labels.cat_unknown, "unknown", "#616161"),
    }
}

pub open spec fn source_label_spec(source: LicenseSource) -> Seq<char> {
    match source {
        LicenseSource::Declared => "declared"@,
        LicenseSource::LicenseFile => "license file"@,
        LicenseSource::NotFound => "none"@,
    }
}

fn source_label(source: LicenseSource) -> (r: &'static str)
    ensures
        r@ == source_label_spec(source),
{
    match source {
        LicenseSource::Declared => "declared",
        LicenseSource::LicenseFile => "license file",
        LicenseSource::NotFound => "none",
    }
}

pub open spec fn type_label_spec(t: DependencyType) -> Seq<char> {
    match t {
        DependencyType::Direct => "direct"@,
        DependencyType::Transitive => "transitive"@,
    }
}

fn type_label(t: DependencyType) -> (r: &'static str)
    ensures
        r@ == type_label_spec(t),
{
    match t {
        DependencyType::Direct => "direct",
        DependencyType::Transitive => "transitive",
    }
}

/// The ecosystem name in lowercase.
pub open spec fn ecosystem_slug_spec(e: Ecosystem) -> Seq<char> {
    match e {
        Ecosystem::Npm => "npm"@,
        Ecosystem::Cargo => "cargo"@,
        Ecosystem::Go => "go"@,
        Ecosystem::Python => "python"@,
        Ecosystem::Ruby => "ruby"@,
        Ecosystem::Php => "php"@,
        Ecosystem::Java => "java"@,
        Ecosystem::Dart => "dart"@,
        Ecosystem::Cpp => "cpp"@,
    }
}

fn ecosystem_slug(e: Ecosystem) -> (r: &'static str)
    ensures
        r@ == ecosystem_slug_spec(e),
{
    match e {
        Ecosystem::Npm => "npm",
        Ecosystem::Cargo => "cargo",
        Ecosystem::Go => "go",
        Ecosystem::Python => "python",
        Ecosystem::Ruby => "ruby",
        Ecosystem::Php => "php",
        Ecosystem::Java => "java",
        Ecosystem::Dart => "dart",
        Ecosystem::Cpp => "cpp",
    }
}

/// `n / d` rounded to the nearest integer, ties to even.
pub open spec fn round_half_even(n: nat, d: nat) -> nat {
    let q = n / d;
    let r = n % d;
    if 2 * r > d || (2 * r == d && q % 2 == 1) {
        q + 1
    } else {
        q
    }
}

/// `2^k`.
pub open spec fn two_pow(k: nat) -> nat
    decreases k,
{
    if k == 0 {
        1
    } else {
        2 * two_pow((k - 1) as nat)
    }
}

/// The least `k` from `k` on (at most 200) for which `x * 2^k` reaches
/// `2^52 * t`.
pub open spec fn up_scale(x: nat, t: nat, k: nat) -> nat
    decreases 200 - k,
{
    if k >= 200 || x * two_pow(k) >= two_pow(52) * t {
        k
    } else {
        up_scale(x, t, k + 1)
    }
}

/// The least `j` from `j` on (at most 200) for which `x` lies below
/// `2^53 * t * 2^j`.
pub open spec fn down_scale(x: nat, t: nat, j: nat) -> nat
    decreases 200 - j,
{
    if j >= 200 || x < two_pow(53) * t * two_pow(j) {
        j
    } else {
        down_scale(x, t, j + 1)
    }
}

/// `n` rounded to 53 significant bits (ties to even): the double-precision
/// value of the integer `n`.
pub open spec fn round53(n: nat) -> nat {
    let j = down_scale(n, 1, 0);
    round_half_even(n, two_pow(j)) * two_pow(j)
}

/// `x / t` rounded to 53 significant bits (ties to even), then to tenths
/// (ties to even).
pub open spec fn quotient_tenths(x: nat, t: nat) -> nat {
    if x < two_pow(53) * t {
        let k = up_scale(x, t, 0);
        round_half_even(round_half_even(x * two_pow(k), t) * 10, two_pow(k))
    } else {
        let j = down_scale(x, t, 0);
        round_half_even(x, t * two_pow(j)) * two_pow(j) * 10
    }
}

/// `part` out of `total` in tenths of a percent, as the one-decimal
/// rendering of the double-precision quotient `part * 100 / total` gives
/// it: each count and the product are double-precision values, the
/// quotient is rounded to 53 significant bits, and the result to tenths,
/// all rounding to nearest with ties to even.
pub open spec fn tenths(part: nat, total: nat) -> nat {
    quotient_tenths(round53(round53(part) * 100), round53(total))
}

/// `part` out of `total` as a percentage with one decimal (`0.0` when
/// `total` is zero).
pub open spec fn percent_text(part: nat, total: nat) -> Seq<char> {
    if total == 0 {
        "0.0"@
    } else {
        let t = tenths(part, total);
        decimal(t / 10) + "."@ + decimal(t % 10)
    }
}

proof fn lemma_two_pow_positive(k: nat)
    ensures
        two_pow(k) >= 1,
    decreases k,
{
    if k > 0 {
        lemma_two_pow_positive((k - 1) as nat);
    }
}

proof fn lemma_two_pow_values()
    ensures
        two_pow(22) == 0x40_0000,
        two_pow(52) == 0x10_0000_0000_0000,
        two_pow(53) == 0x20_0000_0000_0000,
{
    reveal_with_fuel(two_pow, 54);
}

proof fn lemma_two_pow_mono(a: nat, b: nat)
    requires
        a <= b,
    ensures
        two_pow(a) <= two_pow(b),
    decreases b - a,
{
    if a < b {
        lemma_two_pow_mono(a, (b - 1) as nat);
    }
}

proof fn lemma_zero_up_scale(t: nat, k: nat)
    requires
        1 <= t,
        k <= 200,
    ensures
        up_scale(0, t, k) == 200,
    decreases 200 - k,
{
    lemma_two_pow_values();
    if k < 200 {
        lemma_zero_up_scale(t, k + 1);
    }
}

/// With no share, the tenths are zero.
proof fn lemma_zero_tenths(t: nat)
    requires
        1 <= t,
    ensures
        quotient_tenths(0, t) == 0,
{
    lemma_two_pow_values();
    lemma_zero_up_scale(t, 0);
    lemma_two_pow_positive(200);
    let p = two_pow(200);
    assert(0 * p == 0);
    assert(round_half_even(0, t) == 0) by (nonlinear_arith)
        requires
            t >= 1,
    {
        assert(0nat / t == 0);
        assert(0nat % t == 0);
    }
    assert(round_half_even(0, p) == 0) by (nonlinear_arith)
        requires
            p >= 1,
    {
        assert(0nat / p == 0);
        assert(0nat % p == 0);
    }
}

fn round_half_even_exec(n: u128, d: u128) -> (r: u128)
    requires
        1 <= d < 0x8000_0000_0000_0000_0000_0000_0000_0000,
        n < 0x8000_0000_0000_0000_0000_0000_0000_0000,
    ensures
        r == round_half_even(n as nat, d as nat),
        n / d <= r <= n / d + 1,
{
    let q = n / d;
    let rem = n % d;
    assert(q <= n) by (nonlinear_arith)
        requires
            q == n / d,
            d >= 1,
    ;
    if 2 * rem > d || (2 * rem == d && q % 2 == 1) {
        q + 1
    } else {
        q
    }
}

/// `n` rounded to 53 significant bits.
fn round53_exec(n: u128) -> (r: u128)
    requires
        n < 0x10_0000_0000_0000_0000_0000_0000,
    ensures
        r == round53(n as nat),
        r <= 2 * n,
        n >= 1 ==> r >= 1,
{
    proof {
        lemma_two_pow_values();
    }
    let mut j: u128 = 0;
    let mut p: u128 = 1;
    assert(1 * two_pow(0) == 1);
    while j < 200 && n >= 0x20_0000_0000_0000 * p
        invariant
            j <= 200,
            n < 0x10_0000_0000_0000_0000_0000_0000,
            two_pow(53) == 0x20_0000_0000_0000,
            p == two_pow(j as nat),
            p >= 1,
            j == 0 || 0x10_0000_0000_0000 * p <= n,
            down_scale(n as nat, 1, 0) == down_scale(n as nat, 1, j as nat),
        decreases 200 - j,
    {
        assert(two_pow(53) * 1 * p == 0x20_0000_0000_0000 * p);
        p = 2 * p;
        j += 1;
    }
    assert(two_pow(53) * 1 * p == 0x20_0000_0000_0000 * p);
    assert(down_scale(n as nat, 1, j as nat) == j);
    let q = round_half_even_exec(n, p);
    assert(n >= p ==> n / p >= 1) by (nonlinear_arith)
        requires
            p >= 1,
    ;
    assert(q * p <= 2 * n && (n >= 1 ==> q * p >= 1)) by (nonlinear_arith)
        requires
            q <= n / p + 1,
            q == round_half_even(n as nat, p as nat),
            p >= 1,
            p == 1 ==> q == n,
            p > 1 ==> p <= n,
            n >= p ==> q >= 1,
    {
        if p > 1 {
            assert((n / p) * p <= n);
        }
    }
    q * p
}

/// `x / t` rounded to 53 significant bits, then to tenths.
fn quotient_tenths_exec(x: u128, t: u128) -> (r: u128)
    requires
        1 <= x < 0x200_0000_0000_0000_0000,
        1 <= t < 0x4_0000_0000_0000_0000,
    ensures
        r == quotient_tenths(x as nat, t as nat),
        r < 0x1_0000_0000_0000_0000_0000,
{
    proof {
        lemma_two_pow_values();
    }
    if x < 0x20_0000_0000_0000 * t {
        let limit: u128 = 0x10_0000_0000_0000 * t;
        let mut k: u128 = 0;
        let mut p: u128 = 1;
        let mut xs: u128 = x;
        assert(x * two_pow(0) == x);
        while k < 200 && xs < limit
            invariant
                k <= 200,
                1 <= x < 0x200_0000_0000_0000_0000,
                1 <= t < 0x4_0000_0000_0000_0000,
                limit == two_pow(52) * t,
                two_pow(52) == 0x10_0000_0000_0000,
                p == two_pow(k as nat),
                xs == x * p,
                p <= xs,
                xs < 0x20_0000_0000_0000 * t,
                up_scale(x as nat, t as nat, 0) == up_scale(x as nat, t as nat, k as nat),
            decreases 200 - k,
        {
            assert(x * (2 * p) == 2 * (x * p)) by (nonlinear_arith);
            p = 2 * p;
            xs = 2 * xs;
            k += 1;
        }
        assert(up_scale(x as nat, t as nat, k as nat) == k);
        assert(xs < 0x100_0000_0000_0000_0000_0000_0000_0000) by (nonlinear_arith)
            requires
                xs < 0x20_0000_0000_0000 * t,
                t < 0x4_0000_0000_0000_0000,
        ;
        let m = round_half_even_exec(xs, t);
        assert(m <= 0x20_0000_0000_0001) by (nonlinear_arith)
            requires
                m <= xs / t + 1,
                xs < 0x20_0000_0000_0000 * t,
                t >= 1,
        ;
        proof {
            lemma_two_pow_positive(k as nat);
        }
        let r = round_half_even_exec(m * 10, p);
        assert(r <= m * 10 + 1) by (nonlinear_arith)
            requires
                r as int <= (m as int * 10) / (p as int) + 1,
                p >= 1,
        ;
        r
    } else {
        let mut j: u128 = 0;
        let mut pj: u128 = 1;
        let mut d: u128 = t;
        assert(t * two_pow(0) == t);
        while j < 200 && x >= 0x20_0000_0000_0000 * d
            invariant
                j <= 200,
                1 <= x < 0x200_0000_0000_0000_0000,
                1 <= t < 0x4_0000_0000_0000_0000,
                two_pow(53) == 0x20_0000_0000_0000,
                pj == two_pow(j as nat),
                d == t * pj,
                1 <= d < 0x4_0000_0000_0000_0000,
                pj >= 1,
                j == 0 || 0x10_0000_0000_0000 * d <= x,
                down_scale(x as nat, t as nat, 0) == down_scale(x as nat, t as nat, j as nat),
            decreases 200 - j,
        {
            assert(two_pow(53) * t * pj == 0x20_0000_0000_0000 * d) by (nonlinear_arith)
                requires
                    two_pow(53) == 0x20_0000_0000_0000,
                    d == t * pj,
            ;
            assert(t * (2 * pj) == 2 * (t * pj)) by (nonlinear_arith);
            assert(pj <= d) by (nonlinear_arith)
                requires
                    d == t * pj,
                    t >= 1,
            ;
            pj = 2 * pj;
            d = 2 * d;
            j += 1;
        }
        assert(two_pow(53) * t * pj == 0x20_0000_0000_0000 * d) by (nonlinear_arith)
            requires
                two_pow(53) == 0x20_0000_0000_0000,
                d == t * pj,
        ;
        assert(j >= 1);
        assert(pj <= d) by (nonlinear_arith)
            requires
                d == t * pj,
                t >= 1,
        ;
        assert(pj <= 0x20_0000);
        if j >= 200 {
            proof {
                lemma_two_pow_mono(22, 200);
            }
            assert(false);
        }
        assert(down_scale(x as nat, t as nat, j as nat) == j);
        let m = round_half_even_exec(x, d);
        assert(m <= 0x20_0000_0000_0001) by (nonlinear_arith)
            requires
                m <= x / d + 1,
                x < 0x20_0000_0000_0000 * d,
                d >= 1,
        ;
        assert(m * pj * 10 < 0x1_0000_0000_0000_0000_0000) by (nonlinear_arith)
            requires
                m <= 0x20_0000_0000_0001,
                pj <= 0x20_0000,
        ;
        m * pj * 10
    }
}

fn percent(part: usize, total: usize) -> (r: String)
    ensures
        r@ == percent_text(part as nat, total as nat),
{
    if total == 0 {
        return String::from_str("0.0");
    }
    let t = round53_exec(total as u128);
    let rounded = if part == 0 {
        let z = round53_exec(0);
        let x = round53_exec(z * 100);
        assert(x == 0);
        proof {
            lemma_zero_tenths(t as nat);
        }
        0
    } else {
        let pp = round53_exec(part as u128);
        let x = round53_exec(pp * 100);
        quotient_tenths_exec(x, t)
    };
    assert(rounded == tenths(part as nat, total as nat));
    let whole = rounded / 10;
    let frac = rounded % 10;
    let mut out = String::new();
    let w = decimal_chars(whole);
    text::push_all(&mut out, &w);
    out.append(".");
    let f = decimal_chars(frac);
    text::push_all(&mut out, &f);
    out
}

// ---------------------------------------------------------------------------
// Summary cards
// ---------------------------------------------------------------------------

/// One summary card: its count, label and share of the total.
pub open spec fn card_text(
    label: Seq<char>,
    slug: Seq<char>,
    count: nat,
    color: Seq<char>,
    total: nat,
) -> Seq<char> {
    "<button class=\"card\" data-filter=\""@ + slug + "\" style=\"border-top: 4px solid "@ + color
        + "\"><span class=\"card-count\">"@ + decimal(count) + "</span><span class=\"card-label\">"@
        + label + "</span><span class=\"card-pct\">"@ + percent_text(count, total)
        + "%</span></button>"@
}

/// The five summary cards, one per line: all packages, then each category.
pub open spec fn cards_text(s: Summary, labels: Labels) -> Seq<char> {
    let total = s.total as nat;
    card_text(labels.cat_all@, "all"@, total, "#1565c0"@, total) + "\n"@ + card_text(
        labels.cat_permissive@,
        "permissive"@,
        s.permissive as nat,
        "#2e7d32"@,
        total,
    ) + "\n"@ + card_text(labels.cat_weak@, "weak"@, s.weak_copyleft as nat, "#b58900"@, total)
        + "\n"@ + card_text(
        labels.cat_strong@,
        "strong"@,
        s.strong_copyleft as nat,
        "#c62828"@,
        total,
    ) + "\n"@ + card_text(labels.cat_unknown@, "unknown"@, s.unknown as nat, "#616161"@, total)
}

fn push_card(
    out: &mut String,
    label: &str,
    slug: &str,
    count: usize,
    color: &str,
    total: usize,
)
    ensures
        final(out)@ == old(out)@ + card_text(label@, slug@, count as nat, color@, total as nat),
{
    let ghost start = out@;
    out.append("<button class=\"card\" data-filter=\"");
    out.append(slug);
    out.append("\" style=\"border-top: 4px solid ");
    out.append(color);
    out.append("\"><span class=\"card-count\">");
    let digits = decimal_chars(count as u128);
    text::push_all(out, &digits);
    out.append("</span><span class=\"card-label\">");
    out.append(label);
    out.append("</span><span class=\"card-pct\">");
    let pct = percent(count, total);
    out.append(pct.as_str());
    out.append("%</span></button>");
    assert(out@ =~= start + card_text(label@, slug@, count as nat, color@, total as nat));
}

fn push_cards(out: &mut String, s: &Summary, labels: &Labels)
    ensures
        final(out)@ == old(out)@ + cards_text(*s, *labels),
{
    let ghost start = out@;
    push_card(out, labels.cat_all, "all", s.total, "#1565c0", s.total);
    out.append("\n");
    push_card(out, labels.cat_permissive, "permissive", s.permissive, "#2e7d32", s.total);
    out.append("\n");
    push_card(out, labels.cat_weak, "weak", s.weak_copyleft, "#b58900", s.total);
    out.append("\n");
    push_card(out, labels.cat_strong, "strong", s.strong_copyleft, "#c62828", s.total);
    out.append("\n");
    push_card(out, labels.cat_unknown, "unknown", s.unknown, "#616161", s.total);
    assert(out@ =~= start + cards_text(*s, *labels));
}

// ---------------------------------------------------------------------------
// Table rows
// ---------------------------------------------------------------------------

/// The text a row's free-text filter searches: the lowercased package
/// name, license and category label.
pub open spec fn search_text(p: ClassifiedPackage, label: Seq<char>) -> Seq<char> {
    text::lowercase(p.name@) + " "@ + text::lowercase(p.license@) + " "@
        + text::lowercase(label)
}

/// The cells of a table row: everything after its category slug.
pub open spec fn row_cells(p: ClassifiedPackage, labels: Labels) -> Seq<char> {
    let (label, slug, color) = category_meta_spec(p.category, labels);
    "\" data-search=\""@ + escaped(search_text(p, label@)) + "\"><td>"@ + escaped(p.name@)
        + "</td><td>"@ + escaped(p.version@) + "</td><td>"@ + escaped(p.license@) + "</td><td>"@
        + ecosystem_slug_spec(p.ecosystem) + "</td><td>"@ + type_label_spec(p.dependency_type)
        + "</td><td><span class=\"badge\" style=\"background:"@ + color@ + "\">"@ + label@
        + "</span></td><td class=\"num\" data-value=\""@ + decimal(p.risk_score as nat) + "\">"@
        + decimal(p.risk_score as nat) + "</td><td>"@ + risk_level_name_spec(p.risk_level)
        + "</td><td>"@ + commercial_use_name_spec(p.commercial_use) + "</td><td>"@
        + source_label_spec(p.license_source) + "</td></tr>"@
}

/// One table row: it opens with the package's category slug.
pub open spec fn row_text(p: ClassifiedPackage, labels: Labels) -> Seq<char> {
    "<tr data-category=\""@ + category_meta_spec(p.category, labels).1@ + row_cells(p, labels)
}

/// The rows of `pkgs`, one per line.
pub open spec fn rows_text(pkgs: Seq<ClassifiedPackage>, labels: Labels) -> Seq<char> {
    text::join(Seq::new(pkgs.len(), |k: int| row_text(pkgs[k], labels)), "\n"@)
}

/// The characters of a row's search text.
fn search_chars(p: &ClassifiedPackage, label: &str) -> (r: Vec<char>)
    ensures
        r@ == search_text(*p, label@),
{
    let name_chars = text::to_chars(p.name.as_str());
    let license_chars = text::to_chars(p.license.as_str());
    let label_chars = text::to_chars(label);
    let mut search: Vec<char> = text::to_lowercase(&name_chars);
    search.push(' ');
    let lic = text::to_lowercase(&license_chars);
    let mut k: usize = 0;
    let ghost s0 = search@;
    while k < lic.len()
        invariant
            k <= lic.len(),
            search@ == s0 + lic@.take(k as int),
        decreases lic.len() - k,
    {
        search.push(lic[k]);
        k += 1;
        assert(lic@.take(k as int) =~= lic@.take(k - 1).push(lic@[k - 1]));
    }
    search.push(' ');
    let lab = text::to_lowercase(&label_chars);
    let ghost s1 = search@;
    k = 0;
    while k < lab.len()
        invariant
            k <= lab.len(),
            search@ == s1 + lab@.take(k as int),
        decreases lab.len() - k,
    {
        search.push(lab[k]);
        k += 1;
        assert(lab@.take(k as int) =~= lab@.take(k - 1).push(lab@[k - 1]));
    }
    proof {
        reveal_strlit(" ");
        assert(lic@.take(lic@.len() as int) =~= lic@);
        assert(lab@.take(lab@.len() as int) =~= lab@);
        assert(search@ =~= search_text(*p, label@));
    }
    search
}

#[verifier::rlimit(60)]
fn push_row(out: &mut String, p: &ClassifiedPackage, labels: &Labels)
    ensures
        final(out)@ == old(out)@ + row_text(*p, *labels),
{
    let ghost start = out@;
    let (label, slug, color) = category_meta(p.category, labels);
    let search = search_chars(p, label);
    out.append("<tr data-category=\"");
    out.append(slug);
    let ghost mid = out@;
    out.append("\" data-search=\"");
    push_escaped_chars(out, &search);
    out.append("\"><td>");
    push_escaped(out, p.name.as_str());
    out.append("</td><td>");
    push_escaped(out, p.version.as_str());
    out.append("</td><td>");
    push_escaped(out, p.license.as_str());
    out.append("</td><td>");
    out.append(ecosystem_slug(p.ecosystem));
    out.append("</td><td>");
    out.append(type_label(p.dependency_type));
    out.append("</td><td><span class=\"badge\" style=\"background:");
    out.append(color);
    out.append("\">");
    out.append(label);
    out.append("</span></td><td class=\"num\" data-value=\"");
    let digits = decimal_chars(p.risk_score as u128);
    text::push_all(out, &digits);
    out.append("\">");
    text::push_all(out, &digits);
    out.append("</td><td>");
    out.append(risk_level_name(p.risk_level));
    out.append("</td><td>");
    out.append(commercial_use_name(p.commercial_use));
    out.append("</td><td>");
    out.append(source_label(p.license_source));
    out.append("</td></tr>");
    assert(out@ =~= mid + row_cells(*p, *labels));
    assert(mid =~= start + "<tr data-category=\""@ + slug@);
    assert(out@ =~= start + row_text(*p, *labels));
}

fn push_rows(out: &mut String, pkgs: &Vec<ClassifiedPackage>, labels: &Labels)
    ensures
        final(out)@ == old(out)@ + rows_text(pkgs@, *labels),
{
    let ghost start = out@;
    let ghost rows = Seq::new(pkgs@.len(), |k: int| row_text(pkgs@[k], *labels));
    let mut i: usize = 0;
    assert(text::join(rows.take(0), "\n"@) =~= Seq::<char>::empty());
    while i < pkgs.len()
        invariant
            i <= pkgs.len(),
            rows == Seq::new(pkgs@.len(), |k: int| row_text(pkgs@[k], *labels)),
            out@ == start + text::join(rows.take(i as int), "\n"@),
        decreases pkgs.len() - i,
    {
        assert(rows.take(i + 1).drop_last() =~= rows.take(i as int));
        if i > 0 {
            out.append("\n");
        } else {
            assert(rows.take(1) =~= seq![rows[0]]);
        }
        push_row(out, &pkgs[i], labels);
        i += 1;
        assert(out@ =~= start + text::join(rows.take(i as int), "\n"@));
    }
    assert(rows.take(pkgs.len() as int) =~= rows);
}

// ---------------------------------------------------------------------------
// The page
// ---------------------------------------------------------------------------

/// Part 1 of the page.
pub open spec fn html_part1(report: Report, lang: Seq<char>, labels: Labels) -> Seq<char> {
    PAGE_START@ + lang + page_head(report, labels)
}

/// What follows the page's language: the head, the title and the start of
/// the summary line.
pub open spec fn page_head(report: Report, labels: Labels) -> Seq<char> {
    PAGE_HEAD@
        + escaped(report.project@)
        + PAGE_STYLE@
        + labels.title@
        + "</h1>
<p class=\"meta\">"@
        + labels.project@
}

#[verifier::rlimit(60)]
fn push_html_part1(out: &mut String, report: &Report, lang: &str, labels: &Labels)
    ensures
        final(out)@ == old(out)@ + html_part1(*report, lang@, *labels),
{
    let ghost start = out@;
    out.append(PAGE_START);
    out.append(lang);
    out.append(PAGE_HEAD);
    push_escaped(out, report.project.as_str());
    out.append(PAGE_STYLE);
    out.append(labels.title);
    out.append("</h1>
<p class=\"meta\">");
    out.append(labels.project);
    assert(out@ =~= start + html_part1(*report, lang@, *labels));
}

/// Part 2 of the page.
pub open spec fn html_part2(report: Report, lang: Seq<char>, labels: Labels) -> Seq<char> {
    ": "@
        + escaped(report.project@)
        + " | "@
        + labels.scanned@
        + ": "@
        + escaped(report.scanned_at@)
        + " | "@
        + labels.path@
        + ": "@
        + escaped(report.path@)
        + " | "@
        + labels.total@
        + ": "@
        + decimal(report.summary.total as nat)
}

#[verifier::rlimit(60)]
fn push_html_part2(out: &mut String, report: &Report, lang: &str, labels: &Labels)
    ensures
        final(out)@ == old(out)@ + html_part2(*report, lang@, *labels),
{
    let ghost start = out@;
    out.append(": ");
    push_escaped(out, report.project.as_str());
    out.append(" | ");
    out.append(labels.scanned);
    out.append(": ");
    push_escaped(out, report.scanned_at.as_str());
    out.append(" | ");
    out.append(labels.path);
    out.append(": ");
    push_escaped(out, report.path.as_str());
    out.append(" | ");
    out.append(labels.total);
    out.append(": ");
    let total_digits = decimal_chars(report.summary.total as u128);
    text::push_all(out, &total_digits);
    assert(out@ =~= start + html_part2(*report, lang@, *labels));
}

/// Part 3 of the page.
pub open spec fn html_part3(report: Report, lang: Seq<char>, labels: Labels) -> Seq<char> {
    "</p>
<div class=\"cards\">
"@
        + cards_text(report.summary, labels)
        + "
</div>
<input id=\"search\" type=\"search\" placeholder=\""@
        + labels.search_placeholder@
        + "\">
<p id=\"count\"></p>
<table id=\"pkgs\">
<thead><tr>
<th data-col=\"0\">"@
        + labels.col_package@
}

#[verifier::rlimit(60)]
fn push_html_part3(out: &mut String, report: &Report, lang: &str, labels: &Labels)
    ensures
        final(out)@ == old(out)@ + html_part3(*report, lang@, *labels),
{
    let ghost start = out@;
    out.append("</p>
<div class=\"cards\">
");
    push_cards(out, &report.summary, labels);
    out.append("
</div>
<input id=\"search\" type=\"search\" placeholder=\"");
    out.append(labels.search_placeholder);
    out.append("\">
<p id=\"count\"></p>
<table id=\"pkgs\">
<thead><tr>
<th data-col=\"0\">");
    out.append(labels.col_package);
    assert(out@ =~= start + html_part3(*report, lang@, *labels));
}

/// Part 4 of the page.
pub open spec fn html_part4(report: Report, lang: Seq<char>, labels: Labels) -> Seq<char> {
    " <span class=\"dir\"></span></th>
<th data-col=\"1\">"@
        + labels.col_version@
        + " <span class=\"dir\"></span></th>
<th data-col=\"2\">"@
        + labels.col_license@
        + " <span class=\"dir\"></span></th>
<th data-col=\"3\">"@
        + labels.col_ecosystem@
        + " <span class=\"dir\"></span></th>
<th data-col=\"4\">"@
        + labels.col_type@
        + " <span class=\"dir\"></span></th>
<th data-col=\"5\">"@
        + labels.col_category@
}

#[verifier::rlimit(60)]
fn push_html_part4(out: &mut String, report: &Report, lang: &str, labels: &Labels)
    ensures
        final(out)@ == old(out)@ + html_part4(*report, lang@, *labels),
{
    let ghost start = out@;
    out.append(" <span class=\"dir\"></span></th>
<th data-col=\"1\">");
    out.append(labels.col_version);
    out.append(" <span class=\"dir\"></span></th>
<th data-col=\"2\">");
    out.append(labels.col_license);
    out.append(" <span class=\"dir\"></span></th>
<th data-col=\"3\">");
    out.append(labels.col_ecosystem);
    out.append(" <span class=\"dir\"></span></th>
<th data-col=\"4\">");
    out.append(labels.col_type);
    out.append(" <span class=\"dir\"></span></th>
<th data-col=\"5\">");
    out.append(labels.col_category);
    assert(out@ =~= start + html_part4(*report, lang@, *labels));
}

/// Part 5 of the page.
pub open spec fn html_part5(report: Report, lang: Seq<char>, labels: Labels) -> Seq<char> {
    table_head(labels) + rows_text(report.packages@, labels)
}

/// The last column headers and the start of the table body.
pub open spec fn table_head(labels: Labels) -> Seq<char> {
    " <span class=\"dir\"></span></th>
<th data-col=\"6\" data-numeric=\"1\">"@
        + labels.col_risk_score@
        + " <span class=\"dir\"></span></th>
<th data-col=\"7\">"@
        + labels.col_risk_level@
        + " <span class=\"dir\"></span></th>
<th data-col=\"8\">"@
        + labels.col_commercial@
        + " <span class=\"dir\"></span></th>
<th data-col=\"9\">"@
        + labels.col_source@
        + " <span class=\"dir\"></span></th>
</tr></thead>
<tbody>
"@
}

#[verifier::rlimit(60)]
fn push_html_part5(out: &mut String, report: &Report, lang: &str, labels: &Labels)
    ensures
        final(out)@ == old(out)@ + html_part5(*report, lang@, *labels),
{
    let ghost start = out@;
    out.append(" <span class=\"dir\"></span></th>
<th data-col=\"6\" data-numeric=\"1\">");
    out.append(labels.col_risk_score);
    out.append(" <span class=\"dir\"></span></th>
<th data-col=\"7\">");
    out.append(labels.col_risk_level);
    out.append(" <span class=\"dir\"></span></th>
<th data-col=\"8\">");
    out.append(labels.col_commercial);
    out.append(" <span class=\"dir\"></span></th>
<th data-col=\"9\">");
    out.append(labels.col_source);
    out.append(" <span class=\"dir\"></span></th>
</tr></thead>
<tbody>
");
    push_rows(out, &report.packages, labels);
    assert(out@ =~= start + html_part5(*report, lang@, *labels));
}

/// Part 6 of the page.
pub open spec fn html_part6(report: Report, lang: Seq<char>, labels: Labels) -> Seq<char> {
    PAGE_SCRIPT@
        + labels.showing@
        + " ' + shown + ' "@
        + labels.of@
        + " ' + rows.length + ' "@
        + labels.packages@
        + PAGE_END@
}

#[verifier::rlimit(60)]
fn push_html_part6(out: &mut String, report: &Report, lang: &str, labels: &Labels)
    ensures
        final(out)@ == old(out)@ + html_part6(*report, lang@, *labels),
{
    let ghost start = out@;
    out.append(PAGE_SCRIPT);
    out.append(labels.showing);
    out.append(" ' + shown + ' ");
    out.append(labels.of);
    out.append(" ' + rows.length + ' ");
    out.append(labels.packages);
    out.append(PAGE_END);
    assert(out@ =~= start + html_part6(*report, lang@, *labels));
}

/// The whole page for `lang`: Turkish texts for `tr`, English otherwise.
pub open spec fn html_text(report: Report, lang: Seq<char>) -> Seq<char> {
    let labels = if lang == "tr"@ {
        tr_labels()
    } else {
        en_labels()
    };
    html_part1(report, lang, labels) + html_part2(report, lang, labels) + html_part3(report, lang, labels) + html_part4(report, lang, labels) + html_part5(report, lang, labels) + html_part6(report, lang, labels)
}

/// Render a standalone interactive HTML report.
pub fn render(report: &Report, lang: &str) -> (r: String)
    ensures
        r@ == html_text(*report, lang@),
{
    let lang_chars = text::to_chars(lang);
    let labels = labels_for(text::eq_lit(&lang_chars, "tr"));
    let mut out = String::new();
    push_html_part1(&mut out, report, lang, &labels);
    push_html_part2(&mut out, report, lang, &labels);
    push_html_part3(&mut out, report, lang, &labels);
    push_html_part4(&mut out, report, lang, &labels);
    push_html_part5(&mut out, report, lang, &labels);
    push_html_part6(&mut out, report, lang, &labels);
    assert(out@ =~= html_text(*report, lang@));
    out
}

/// Whatever the report holds, the page shows no `<`, `>` or quote of the
/// project name, package names, versions, licenses, scan time or path:
/// they are escaped, so none of them can open a tag or close an attribute.
pub proof fn escaped_text_holds_no_markup_characters(s: Seq<char>)
    ensures
        !escaped(s).contains('<'),
        !escaped(s).contains('>'),
        !escaped(s).contains('"'),
        !escaped(s).contains('\''),
    decreases s.len(),
{
    if s.len() > 0 {
        escaped_text_holds_no_markup_characters(s.drop_last());
        let c = s.last();
        reveal_strlit("&amp;");
        reveal_strlit("&lt;");
        reveal_strlit("&gt;");
        reveal_strlit("&quot;");
        reveal_strlit("&#39;");
        assert(!escaped_char(c).contains('<'));
        assert(!escaped_char(c).contains('>'));
        assert(!escaped_char(c).contains('"'));
        assert(!escaped_char(c).contains('\''));
        assert(escaped(s) == escaped(s.drop_last()) + escaped_char(c));
        assert forall|x: char| escaped(s).contains(x) implies escaped(s.drop_last()).contains(x)
            || escaped_char(c).contains(x) by {
            let i = choose|i: int| 0 <= i < escaped(s).len() && escaped(s)[i] == x;
            if i < escaped(s.drop_last()).len() {
                assert(escaped(s.drop_last())[i] == x);
            } else {
                assert(escaped_char(c)[i - escaped(s.drop_last()).len()] == x);
            }
        }
    }
}

} // verus!
