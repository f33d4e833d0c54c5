//! Timestamps in ISO-8601 form.
use vstd::prelude::*;

use crate::text;

verus! {

/// The decimal digits of `n`.
pub open spec fn decimal(n: nat) -> Seq<char>
    decreases n,
{
    if n < 10 {
        seq![digit_char(n)]
    } else {
        decimal(n / 10) + seq![digit_char(n % 10)]
    }
}

pub open spec fn digit_char(d: nat) -> char {
    (d + 48) as char
}

/// The decimal digits of `n`, left-padded with zeros to `width` characters
/// (the `{:0width}` format).
pub open spec fn padded(n: nat, width: nat) -> Seq<char> {
    let d = decimal(n);
    if d.len() < width {
        Seq::new((width - d.len()) as nat, |i: int| '0') + d
    } else {
        d
    }
}

proof fn lemma_decimal_len(n: nat)
    ensures
        decimal(n).len() >= 1,
        n < 10 ==> decimal(n).len() == 1,
        10 <= n < 100 ==> decimal(n).len() == 2,
        100 <= n < 1000 ==> decimal(n).len() == 3,
        1000 <= n < 10000 ==> decimal(n).len() == 4,
    decreases n,
{
    if n >= 10 {
        lemma_decimal_len(n / 10);
    }
}

fn digit(d: u128) -> (c: char)
    requires
        d < 10,
    ensures
        c == digit_char(d as nat),
{
    ((d as u8) + 48) as char
}

/// The decimal digits of `n`.
pub fn decimal_chars(n: u128) -> (r: Vec<char>)
    ensures
        r@ == decimal(n as nat),
    decreases n,
{
    if n < 10 {
        let mut r = Vec::new();
        r.push(digit(n));
        r
    } else {
        let mut r = decimal_chars(n / 10);
        r.push(digit(n % 10));
        r
    }
}

/// Append `n` left-padded with zeros to `width` characters.
pub fn push_padded(s: &mut String, n: u64, width: usize)
    ensures
        final(s)@ == old(s)@ + padded(n as nat, width as nat),
{
    let d = decimal_chars(n as u128);
    let ghost start = s@;
    if d.len() < width {
        let mut k: usize = 0;
        while k < width - d.len()
            invariant
                d.len() < width,
                k <= width - d.len(),
                s@ == start + Seq::new(k as nat, |i: int| '0'),
            decreases width - d.len() - k,
        {
            text::push_char(s, '0');
            k += 1;
            assert(Seq::new(k as nat, |i: int| '0') =~= Seq::new((k - 1) as nat, |i: int| '0').push(
                '0',
            ));
        }
    }
    text::push_all(s, &d);
    assert(s@ =~= start + padded(n as nat, width as nat));
}

/// The ISO-8601 UTC form of a Unix timestamp: `YYYY-MM-DDTHH:MM:SSZ`.
pub open spec fn iso8601(secs: nat) -> Seq<char> {
    let (year, month, day) = date_of((secs / 86400) as int);
    let rem = secs % 86400;
    padded(year as nat, 4) + "-"@ + padded(month as nat, 2) + "-"@ + padded(day as nat, 2) + "T"@
        + padded(rem / 3600, 2) + ":"@ + padded((rem % 3600) / 60, 2) + ":"@ + padded(rem % 60, 2)
        + "Z"@
}

/// Format seconds since the Unix epoch as ISO-8601 UTC.
pub fn iso8601_from_unix(secs: u64) -> (r: String)
    ensures
        r@ == iso8601(secs as nat),
{
    let days = secs / 86400;
    let rem = secs % 86400;
    let (year, month, day) = civil_from_days(days);
    proof {
        each_day_has_one_date(days as int, (year as int, month as int, day as int));
    }
    let mut s = String::new();
    push_padded(&mut s, year, 4);
    text::push_char(&mut s, '-');
    push_padded(&mut s, month, 2);
    text::push_char(&mut s, '-');
    push_padded(&mut s, day, 2);
    text::push_char(&mut s, 'T');
    push_padded(&mut s, rem / 3600, 2);
    text::push_char(&mut s, ':');
    push_padded(&mut s, (rem % 3600) / 60, 2);
    text::push_char(&mut s, ':');
    push_padded(&mut s, rem % 60, 2);
    text::push_char(&mut s, 'Z');
    proof {
        reveal_strlit("-");
        reveal_strlit("T");
        reveal_strlit(":");
        reveal_strlit("Z");
    }
    assert(s@ =~= iso8601(secs as nat));
    s
}

#[verifier::external_type_specification]
#[verifier::external_body]
pub struct ExSystemTime(std::time::SystemTime);

/// `SystemTime::now`: the system clock's reading. Nothing is stated of it.
#[verifier::external_body]
fn clock_now() -> std::time::SystemTime {
    std::time::SystemTime::now()
}

/// `SystemTime::duration_since(UNIX_EPOCH)`: how long after the Unix epoch
/// `t` lies, `None` when it lies before. Nothing is stated of the value.
#[verifier::external_body]
fn since_epoch(t: &std::time::SystemTime) -> Option<std::time::Duration> {
    t.duration_since(std::time::UNIX_EPOCH).ok()
}

/// `Duration::as_secs`: the whole seconds of `d`. A duration is opaque
/// here, so nothing is stated of the value.
#[verifier::external_body]
fn whole_seconds(d: &std::time::Duration) -> u64 {
    d.as_secs()
}

/// The seconds since the epoch that a clock reading stands for: the
/// reading's whole seconds, or 0 for a clock set before the epoch.
pub open spec fn reading_seconds(reading: Option<u64>) -> nat {
    match reading {
        Some(s) => s as nat,
        None => 0,
    }
}

/// The timestamp of a clock reading (`None` for a clock set before the
/// epoch, which reads as the epoch itself).
pub fn timestamp_text(reading: Option<u64>) -> (r: String)
    ensures
        r@ == iso8601(reading_seconds(reading)),
{
    let secs = match reading {
        Some(s) => s,
        None => 0,
    };
    iso8601_from_unix(secs)
}

/// Current UTC time as an ISO-8601 string, e.g. `2026-06-12T08:30:00Z`.
/// A clock set before the epoch reads as the epoch itself.
pub fn now_iso8601() -> (r: String)
    ensures
        exists|reading: Option<u64>| r@ == iso8601(reading_seconds(reading)),
{
    let reading = match since_epoch(&clock_now()) {
        Some(d) => Some(whole_seconds(&d)),
        None => None,
    };
    timestamp_text(reading)
}

/// An instant before 10000-01-01T00:00:00Z (253402300800 seconds after
/// the epoch) falls in a year up to 9999, so the laws on timestamps below
/// apply to it.
pub proof fn seconds_before_year_10000(secs: nat)
    requires
        secs < 253_402_300_800,
    ensures
        date_of((secs / 86400) as int).0 <= 9999,
{
    let days = (secs / 86400) as int;
    each_day_has_one_date(days, date_of(days));
    let t = date_of(days);
    lemma_days_before_year_closed(10000);
    assert(days_before_year(10000) == 2932897);
    lemma_within_year(t);
    if t.0 > 9999 {
        lemma_year_monotone(10000, t.0);
        assert(false);
    }
}

/// Every timestamp before 10000-01-01T00:00:00Z renders as exactly twenty
/// characters, `YYYY-MM-DDTHH:MM:SSZ`, with its separators in place.
#[verifier::spinoff_prover]
#[verifier::rlimit(40)]
pub proof fn iso8601_is_well_formed(secs: nat)
    requires
        secs < 253_402_300_800,
    ensures
        iso8601(secs).len() == 20,
        iso8601(secs)[4] == '-',
        iso8601(secs)[7] == '-',
        iso8601(secs)[10] == 'T',
        iso8601(secs)[13] == ':',
        iso8601(secs)[16] == ':',
        iso8601(secs)[19] == 'Z',
{
    seconds_before_year_10000(secs);
    let days = (secs / 86400) as int;
    let rem = secs % 86400;
    each_day_has_one_date(days, date_of(days));
    let (year, month, day) = date_of(days);
    assert(1970 <= year <= 9999 && 1 <= month <= 12 && 1 <= day <= 31);
    lemma_decimal_len(year as nat);
    lemma_decimal_len(month as nat);
    lemma_decimal_len(day as nat);
    lemma_decimal_len(rem / 3600);
    lemma_decimal_len((rem % 3600) / 60);
    lemma_decimal_len(rem % 60);
    reveal_strlit("-");
    reveal_strlit("T");
    reveal_strlit(":");
    reveal_strlit("Z");
}

// ---------------------------------------------------------------------------
// The Gregorian calendar
// ---------------------------------------------------------------------------

/// A leap year of the Gregorian calendar.
pub open spec fn is_leap(y: int) -> bool {
    (y % 4 == 0 && y % 100 != 0) || y % 400 == 0
}

/// The days of year `y`.
pub open spec fn year_length(y: int) -> int {
    if is_leap(y) {
        366
    } else {
        365
    }
}

/// The days of month `m` (1 to 12) of year `y`.
pub open spec fn month_length(y: int, m: int) -> int {
    if m == 2 {
        if is_leap(y) {
            29
        } else {
            28
        }
    } else if m == 4 || m == 6 || m == 9 || m == 11 {
        30
    } else {
        31
    }
}

/// The days from 1970-01-01 to the first of January of `y` (from 1970 on).
pub open spec fn days_before_year(y: int) -> int
    decreases y - 1970,
{
    if y <= 1970 {
        0
    } else {
        days_before_year(y - 1) + year_length(y - 1)
    }
}

/// The days of year `y` before the first of month `m`.
pub open spec fn days_before_month(y: int, m: int) -> int
    decreases m,
{
    if m <= 1 {
        0
    } else {
        days_before_month(y, m - 1) + month_length(y, m - 1)
    }
}

/// A date from 1970 on: year, month (1 to 12) and day of the month.
pub open spec fn valid_date(t: (int, int, int)) -> bool {
    t.0 >= 1970 && 1 <= t.1 <= 12 && 1 <= t.2 <= month_length(t.0, t.1)
}

/// The days from 1970-01-01 to the date `t`.
pub open spec fn epoch_days(t: (int, int, int)) -> int {
    days_before_year(t.0) + days_before_month(t.0, t.1) + t.2 - 1
}

/// The date `days` days after 1970-01-01.
pub open spec fn date_of(days: int) -> (int, int, int) {
    choose|t: (int, int, int)| valid_date(t) && epoch_days(t) == days
}

/// The leap years among the years 1 to `y - 1`.
pub open spec fn leaps_before(y: int) -> int {
    (y - 1) / 4 - (y - 1) / 100 + (y - 1) / 400
}

#[verifier::spinoff_prover]
#[verifier::rlimit(40)]
proof fn lemma_leaps_step(y: int)
    requires
        y >= 1,
    ensures
        leaps_before(y + 1) == leaps_before(y) + if is_leap(y) {
            1int
        } else {
            0int
        },
{
}

proof fn lemma_days_before_year_closed(y: int)
    requires
        y >= 1970,
    ensures
        days_before_year(y) == 365 * (y - 1970) + leaps_before(y) - leaps_before(1970),
    decreases y - 1970,
{
    if y > 1970 {
        lemma_days_before_year_closed(y - 1);
        lemma_leaps_step(y - 1);
    }
}

/// Four hundred years from 1970 on hold 146097 days.
proof fn lemma_four_centuries(q: int)
    requires
        q >= 0,
    ensures
        days_before_year(1970 + 400 * q) == 146097 * q,
{
    lemma_days_before_year_closed(1970 + 400 * q);
    assert((1969 + 400 * q) / 4 == 492 + 100 * q);
    assert((1969 + 400 * q) / 100 == 19 + 4 * q);
    assert((1969 + 400 * q) / 400 == 4 + q);
}

proof fn lemma_year_end(y: int)
    ensures
        days_before_month(y, 12) + month_length(y, 12) == year_length(y),
{
    reveal_with_fuel(days_before_month, 12);
}

proof fn lemma_month_bounds(y: int, m: int)
    requires
        1 <= m <= 12,
    ensures
        days_before_month(y, m) + month_length(y, m) <= year_length(y),
        days_before_month(y, m) >= 0,
    decreases 12 - m,
{
    if m < 12 {
        lemma_month_bounds(y, m + 1);
        assert(days_before_month(y, m + 1) == days_before_month(y, m) + month_length(y, m));
    } else {
        lemma_year_end(y);
    }
    if m > 1 {
        lemma_month_nonneg(y, m);
    }
}

proof fn lemma_month_nonneg(y: int, m: int)
    ensures
        days_before_month(y, m) >= 0,
    decreases m,
{
    if m > 1 {
        lemma_month_nonneg(y, m - 1);
    }
}

proof fn lemma_year_monotone(a: int, b: int)
    requires
        1970 <= a <= b,
    ensures
        days_before_year(a) + (b - a) * 365 <= days_before_year(b),
    decreases b - a,
{
    if a < b {
        lemma_year_monotone(a, b - 1);
    }
}


proof fn lemma_month_monotone(y: int, a: int, b: int)
    requires
        a <= b,
    ensures
        days_before_month(y, a) <= days_before_month(y, b),
    decreases b - a,
{
    if a < b {
        lemma_month_monotone(y, a, b - 1);
        if b > 1 {
            assert(days_before_month(y, b) == days_before_month(y, b - 1) + month_length(y, b - 1));
        }
    }
}

proof fn lemma_within_year(t: (int, int, int))
    requires
        valid_date(t),
    ensures
        days_before_year(t.0) <= epoch_days(t) < days_before_year(t.0) + year_length(t.0),
{
    lemma_month_bounds(t.0, t.1);
}

proof fn lemma_dates_unique(s: (int, int, int), t: (int, int, int))
    requires
        valid_date(s),
        valid_date(t),
        epoch_days(s) == epoch_days(t),
    ensures
        s == t,
{
    lemma_within_year(s);
    lemma_within_year(t);
    if s.0 < t.0 {
        lemma_year_monotone(s.0 + 1, t.0);
        assert(false);
    } else if t.0 < s.0 {
        lemma_year_monotone(t.0 + 1, s.0);
        assert(false);
    }
    let y = s.0;
    if s.1 < t.1 {
        lemma_month_monotone(y, s.1 + 1, t.1);
        assert(days_before_month(y, s.1 + 1) == days_before_month(y, s.1) + month_length(y, s.1));
        assert(false);
    } else if t.1 < s.1 {
        lemma_month_monotone(y, t.1 + 1, s.1);
        assert(days_before_month(y, t.1 + 1) == days_before_month(y, t.1) + month_length(y, t.1));
        assert(false);
    }
}

/// The year in which day `days` falls, searching from `y` on.
proof fn year_of(days: int, y: int) -> (r: int)
    requires
        y >= 1970,
        days_before_year(y) <= days,
    ensures
        r >= y,
        days_before_year(r) <= days < days_before_year(r) + year_length(r),
    decreases days - days_before_year(y),
{
    if days < days_before_year(y) + year_length(y) {
        y
    } else {
        year_of(days, y + 1)
    }
}

/// The month of year `y` in which its day `r` (from 0) falls, searching
/// from month `m` on.
proof fn month_of(y: int, r: int, m: int) -> (k: int)
    requires
        1 <= m <= 12,
        days_before_month(y, m) <= r < year_length(y),
    ensures
        m <= k <= 12,
        days_before_month(y, k) <= r < days_before_month(y, k) + month_length(y, k),
    decreases 12 - m,
{
    if r < days_before_month(y, m) + month_length(y, m) {
        m
    } else {
        if m == 12 {
            lemma_year_end(y);
        }
        month_of(y, r, m + 1)
    }
}

/// Every count of days from 1970-01-01 on is that of exactly one date:
/// [`date_of`] gives a valid date with that count, and any valid date
/// with that count is it.
pub proof fn each_day_has_one_date(days: int, t: (int, int, int))
    requires
        days >= 0,
    ensures
        valid_date(date_of(days)),
        epoch_days(date_of(days)) == days,
        valid_date(t) && epoch_days(t) == days ==> t == date_of(days),
{
    let y = year_of(days, 1970);
    let r = days - days_before_year(y);
    let m = month_of(y, r, 1);
    let w = (y, m, r - days_before_month(y, m) + 1);
    assert(valid_date(w) && epoch_days(w) == days);
    let c = date_of(days);
    if valid_date(t) && epoch_days(t) == days {
        lemma_dates_unique(t, c);
    }
}

fn is_leap_exec(y: u64) -> (b: bool)
    ensures
        b == is_leap(y as int),
{
    (y % 4 == 0 && y % 100 != 0) || y % 400 == 0
}

fn year_length_exec(y: u64) -> (n: u64)
    ensures
        n == year_length(y as int),
{
    if is_leap_exec(y) {
        366
    } else {
        365
    }
}

fn month_length_exec(y: u64, m: u64) -> (n: u64)
    ensures
        n == month_length(y as int, m as int),
{
    if m == 2 {
        if is_leap_exec(y) {
            29
        } else {
            28
        }
    } else if m == 4 || m == 6 || m == 9 || m == 11 {
        30
    } else {
        31
    }
}

/// Days since the epoch to the Gregorian calendar date.
fn civil_from_days(days: u64) -> (r: (u64, u64, u64))
    requires
        days <= 0xffff_ffff_ffff,
    ensures
        valid_date((r.0 as int, r.1 as int, r.2 as int)),
        epoch_days((r.0 as int, r.1 as int, r.2 as int)) == days,
{
    let q = days / 146097;
    let mut rem = days % 146097;
    let mut y: u64 = 1970 + 400 * q;
    proof {
        lemma_four_centuries(q as int);
    }
    let ghost y0 = y;
    while rem >= year_length_exec(y)
        invariant
            y >= 1970,
            y0 <= y,
            y0 <= 1970 + 400 * 0xffff_ffff_ffff,
            (y - y0) * 365 + rem < 146097,
            days == days_before_year(y as int) + rem,
        decreases rem,
    {
        rem = rem - year_length_exec(y);
        y = y + 1;
    }
    let mut m: u64 = 1;
    while rem >= month_length_exec(y, m)
        invariant
            1 <= m <= 12,
            y >= 1970,
            days == days_before_year(y as int) + days_before_month(y as int, m as int) + rem,
            days_before_month(y as int, m as int) + rem < year_length(y as int),
            rem < 146097,
        decreases 12 - m,
    {
        proof {
            lemma_year_end(y as int);
        }
        rem = rem - month_length_exec(y, m);
        m = m + 1;
    }
    (y, m, rem + 1)
}


// ---------------------------------------------------------------------------
// Reading a timestamp back, and its order
// ---------------------------------------------------------------------------

/// Ten to the power `w`.
pub open spec fn pow10(w: nat) -> nat
    decreases w,
{
    if w == 0 {
        1
    } else {
        10 * pow10((w - 1) as nat)
    }
}

/// The last `w` decimal digits of `n`, most significant first.
pub open spec fn fixed_digits(n: nat, w: nat) -> Seq<char>
    decreases w,
{
    if w == 0 {
        Seq::empty()
    } else {
        fixed_digits(n / 10, (w - 1) as nat).push(digit_char(n % 10))
    }
}

/// The number that the decimal digits `s` spell.
pub open spec fn digits_value(s: Seq<char>) -> int
    decreases s.len(),
{
    if s.len() == 0 {
        0
    } else {
        digits_value(s.drop_last()) * 10 + (s.last() as int - 48)
    }
}

/// `a` comes before `b` in lexicographic order: at the first place where
/// they differ, `a` holds the smaller character.
pub open spec fn lex_before(a: Seq<char>, b: Seq<char>) -> bool {
    exists|i: int|
        0 <= i < a.len() && i < b.len() && a.take(i) == b.take(i) && (#[trigger] a[i] as u32) < (
        b[i] as u32)
}

/// The ISO-8601 text of a date and a time of day, its fields in order.
pub open spec fn stamp(y: nat, mo: nat, d: nat, h: nat, mi: nat, s: nat) -> Seq<char> {
    fixed_digits(y, 4) + (seq!['-'] + (fixed_digits(mo, 2) + (seq!['-'] + (fixed_digits(d, 2) + (
    seq!['T'] + (fixed_digits(h, 2) + (seq![':'] + (fixed_digits(mi, 2) + (seq![':'] + (
    fixed_digits(s, 2) + seq!['Z']))))))))))
}

proof fn lemma_decimal_fits(n: nat)
    ensures
        n < pow10(decimal(n).len()),
        decimal(n) == fixed_digits(n, decimal(n).len()),
    decreases n,
{
    if n >= 10 {
        lemma_decimal_fits(n / 10);
        let l = decimal(n / 10).len();
        assert(decimal(n).len() == l + 1);
        assert(((l + 1) as nat - 1) as nat == l);
        assert(pow10(l + 1) == 10 * pow10(l));
    } else {
        assert(fixed_digits(n / 10, 0) =~= Seq::<char>::empty());
        assert(pow10(0) == 1);
        assert(pow10(1) == 10 * pow10(0));
    }
}

proof fn lemma_fixed_zero_pad(n: nat, w: nat, k: nat)
    requires
        n < pow10(w),
    ensures
        fixed_digits(n, w + k) == Seq::new(k, |i: int| '0') + fixed_digits(n, w),
    decreases w, k,
{
    if w == 0 {
        if k > 0 {
            lemma_fixed_zero_pad(0, 0, (k - 1) as nat);
            assert(digit_char(0) == '0');
            assert(Seq::new(k, |i: int| '0') =~= Seq::new((k - 1) as nat, |i: int| '0').push('0'));
            assert(fixed_digits(0, 0) =~= Seq::<char>::empty());
            assert(Seq::new(k, |i: int| '0') + Seq::<char>::empty() =~= Seq::new(k, |i: int| '0'));
            assert(Seq::new((k - 1) as nat, |i: int| '0') + Seq::<char>::empty() =~= Seq::new(
                (k - 1) as nat,
                |i: int| '0',
            ));
        } else {
            assert(Seq::new(0, |i: int| '0') + fixed_digits(n, 0) =~= fixed_digits(n, 0));
        }
    } else {
        lemma_fixed_zero_pad(n / 10, (w - 1) as nat, k);
        assert((w + k - 1) as nat == ((w - 1) as nat + k) as nat);
        assert(Seq::new(k, |i: int| '0') + fixed_digits(n / 10, (w - 1) as nat).push(digit_char(n % 10))
            =~= (Seq::new(k, |i: int| '0') + fixed_digits(n / 10, (w - 1) as nat)).push(
            digit_char(n % 10),
        ));
    }
}

proof fn lemma_padded_fixed(n: nat, w: nat)
    requires
        n < pow10(w),
        1 <= w <= 4,
    ensures
        padded(n, w) == fixed_digits(n, w),
{
    lemma_decimal_fits(n);
    lemma_decimal_len(n);
    let l = decimal(n).len();
    assert(pow10(1) == 10 && pow10(2) == 100 && pow10(3) == 1000 && pow10(4) == 10000) by {
        reveal_with_fuel(pow10, 5);
    }
    assert(w == 1 || w == 2 || w == 3 || w == 4);
    assert(l <= w);
    lemma_fixed_zero_pad(n, l, (w - l) as nat);
    assert((l + (w - l) as nat) as nat == w);
}

proof fn lemma_fixed_len(n: nat, w: nat)
    ensures
        fixed_digits(n, w).len() == w,
    decreases w,
{
    if w > 0 {
        lemma_fixed_len(n / 10, (w - 1) as nat);
    }
}

proof fn lemma_fixed_value(n: nat, w: nat)
    requires
        n < pow10(w),
    ensures
        digits_value(fixed_digits(n, w)) == n,
    decreases w,
{
    if w > 0 {
        lemma_fixed_value(n / 10, (w - 1) as nat);
        let f = fixed_digits(n, w);
        assert(f.drop_last() =~= fixed_digits(n / 10, (w - 1) as nat));
        assert(f.last() == digit_char(n % 10));
        assert(digit_char(n % 10) as int == n % 10 + 48);
    }
}

proof fn lemma_fixed_order(a: nat, b: nat, w: nat)
    requires
        a < b < pow10(w),
    ensures
        lex_before(fixed_digits(a, w), fixed_digits(b, w)),
    decreases w,
{
    let fa = fixed_digits(a, w);
    let fb = fixed_digits(b, w);
    let pa = fixed_digits(a / 10, (w - 1) as nat);
    let pb = fixed_digits(b / 10, (w - 1) as nat);
    lemma_fixed_len(a / 10, (w - 1) as nat);
    lemma_fixed_len(b / 10, (w - 1) as nat);
    if a / 10 < b / 10 {
        lemma_fixed_order(a / 10, b / 10, (w - 1) as nat);
        let i = choose|i: int|
            0 <= i < pa.len() && i < pb.len() && pa.take(i) == pb.take(i) && (#[trigger] pa[i] as u32)
                < (pb[i] as u32);
        assert(fa.take(i) =~= pa.take(i));
        assert(fb.take(i) =~= pb.take(i));
        assert(fa[i] == pa[i] && fb[i] == pb[i]);
    } else {
        assert(a / 10 == b / 10);
        assert(a % 10 < b % 10);
        let i = pa.len() as int;
        assert(fa.take(i) =~= pa);
        assert(fb.take(i) =~= pb);
        assert(fa[i] == digit_char(a % 10) && fb[i] == digit_char(b % 10));
        assert(digit_char(a % 10) as u32 == a % 10 + 48);
        assert(digit_char(b % 10) as u32 == b % 10 + 48);
    }
}

proof fn lemma_before_then(a1: Seq<char>, a2: Seq<char>, r1: Seq<char>, r2: Seq<char>)
    requires
        a1.len() == a2.len(),
        lex_before(a1, a2),
    ensures
        lex_before(a1 + r1, a2 + r2),
{
    let i = choose|i: int|
        0 <= i < a1.len() && i < a2.len() && a1.take(i) == a2.take(i) && (#[trigger] a1[i] as u32)
            < (a2[i] as u32);
    assert((a1 + r1).take(i) =~= a1.take(i));
    assert((a2 + r2).take(i) =~= a2.take(i));
    assert((a1 + r1)[i] == a1[i] && (a2 + r2)[i] == a2[i]);
}

proof fn lemma_same_then(a: Seq<char>, r1: Seq<char>, r2: Seq<char>)
    requires
        lex_before(r1, r2),
    ensures
        lex_before(a + r1, a + r2),
{
    let i = choose|i: int|
        0 <= i < r1.len() && i < r2.len() && r1.take(i) == r2.take(i) && (#[trigger] r1[i] as u32)
            < (r2[i] as u32);
    let j = a.len() + i;
    assert((a + r1).take(j) =~= a + r1.take(i));
    assert((a + r2).take(j) =~= a + r2.take(i));
    assert((a + r1)[j] == r1[i] && (a + r2)[j] == r2[i]);
}

/// A field that grows, all fields before it being equal, puts the
/// stamp later.
proof fn lemma_field_then(a: nat, b: nat, w: nat, r1: Seq<char>, r2: Seq<char>)
    requires
        a < b < pow10(w),
    ensures
        lex_before(fixed_digits(a, w) + r1, fixed_digits(b, w) + r2),
{
    lemma_fixed_order(a, b, w);
    lemma_fixed_len(a, w);
    lemma_fixed_len(b, w);
    lemma_before_then(fixed_digits(a, w), fixed_digits(b, w), r1, r2);
}

#[verifier::spinoff_prover]
#[verifier::rlimit(40)]
proof fn lemma_stamp_order(
    t1: (nat, nat, nat, nat, nat, nat),
    t2: (nat, nat, nat, nat, nat, nat),
)
    requires
        t1.0 < 10000 && t2.0 < 10000,
        t1.1 < 100 && t2.1 < 100 && t1.2 < 100 && t2.2 < 100,
        t1.3 < 100 && t2.3 < 100 && t1.4 < 100 && t2.4 < 100 && t1.5 < 100 && t2.5 < 100,
        t1.0 < t2.0 || (t1.0 == t2.0 && (t1.1 < t2.1 || (t1.1 == t2.1 && (t1.2 < t2.2 || (t1.2
            == t2.2 && (t1.3 < t2.3 || (t1.3 == t2.3 && (t1.4 < t2.4 || (t1.4 == t2.4 && t1.5
            < t2.5))))))))),
    ensures
        lex_before(stamp(t1.0, t1.1, t1.2, t1.3, t1.4, t1.5), stamp(t2.0, t2.1, t2.2, t2.3, t2.4, t2.5)),
{
    assert(pow10(2) == 100 && pow10(4) == 10000) by {
        reveal_with_fuel(pow10, 5);
    }
    let (y1, mo1, d1, h1, mi1, s1) = t1;
    let (y2, mo2, d2, h2, mi2, s2) = t2;
    let z1 = fixed_digits(s1, 2) + seq!['Z'];
    let z2 = fixed_digits(s2, 2) + seq!['Z'];
    let e1 = fixed_digits(mi1, 2) + (seq![':'] + z1);
    let e2 = fixed_digits(mi2, 2) + (seq![':'] + z2);
    let c1 = fixed_digits(h1, 2) + (seq![':'] + e1);
    let c2 = fixed_digits(h2, 2) + (seq![':'] + e2);
    let b1 = fixed_digits(d1, 2) + (seq!['T'] + c1);
    let b2 = fixed_digits(d2, 2) + (seq!['T'] + c2);
    let a1 = fixed_digits(mo1, 2) + (seq!['-'] + b1);
    let a2 = fixed_digits(mo2, 2) + (seq!['-'] + b2);
    assert(stamp(y1, mo1, d1, h1, mi1, s1) == fixed_digits(y1, 4) + (seq!['-'] + a1));
    assert(stamp(y2, mo2, d2, h2, mi2, s2) == fixed_digits(y2, 4) + (seq!['-'] + a2));
    if y1 < y2 {
        lemma_field_then(y1, y2, 4, seq!['-'] + a1, seq!['-'] + a2);
    } else {
        if mo1 < mo2 {
            lemma_field_then(mo1, mo2, 2, seq!['-'] + b1, seq!['-'] + b2);
        } else {
            if d1 < d2 {
                lemma_field_then(d1, d2, 2, seq!['T'] + c1, seq!['T'] + c2);
            } else {
                if h1 < h2 {
                    lemma_field_then(h1, h2, 2, seq![':'] + e1, seq![':'] + e2);
                } else {
                    if mi1 < mi2 {
                        lemma_field_then(mi1, mi2, 2, seq![':'] + z1, seq![':'] + z2);
                    } else {
                        lemma_field_then(s1, s2, 2, seq!['Z'], seq!['Z']);
                        lemma_same_then(fixed_digits(mi1, 2) + seq![':'], z1, z2);
                        assert(fixed_digits(mi1, 2) + seq![':'] + z1 =~= e1);
                        assert(fixed_digits(mi1, 2) + seq![':'] + z2 =~= e2);
                    }
                    lemma_same_then(fixed_digits(h1, 2) + seq![':'], e1, e2);
                    assert(fixed_digits(h1, 2) + seq![':'] + e1 =~= c1);
                    assert(fixed_digits(h1, 2) + seq![':'] + e2 =~= c2);
                }
                lemma_same_then(fixed_digits(d1, 2) + seq!['T'], c1, c2);
                assert(fixed_digits(d1, 2) + seq!['T'] + c1 =~= b1);
                assert(fixed_digits(d1, 2) + seq!['T'] + c2 =~= b2);
            }
            lemma_same_then(fixed_digits(mo1, 2) + seq!['-'], b1, b2);
            assert(fixed_digits(mo1, 2) + seq!['-'] + b1 =~= a1);
            assert(fixed_digits(mo1, 2) + seq!['-'] + b2 =~= a2);
        }
        lemma_same_then(fixed_digits(y1, 4) + seq!['-'], a1, a2);
        assert(fixed_digits(y1, 4) + seq!['-'] + a1 =~= fixed_digits(y1, 4) + (seq!['-'] + a1));
        assert(fixed_digits(y1, 4) + seq!['-'] + a2 =~= fixed_digits(y1, 4) + (seq!['-'] + a2));
    }
}

/// The timestamp of `secs`, with its year before 10000, is the stamp of
/// its date and time of day.
#[verifier::spinoff_prover]
#[verifier::rlimit(40)]
proof fn lemma_iso_is_stamp(secs: nat)
    requires
        date_of((secs / 86400) as int).0 <= 9999,
    ensures
        ({
            let (y, mo, d) = date_of((secs / 86400) as int);
            let rem = secs % 86400;
            &&& valid_date((y, mo, d))
            &&& epoch_days((y, mo, d)) == secs / 86400
            &&& iso8601(secs) == stamp(
                y as nat,
                mo as nat,
                d as nat,
                rem / 3600,
                (rem % 3600) / 60,
                rem % 60,
            )
        }),
{
    let days = (secs / 86400) as int;
    let rem = secs % 86400;
    each_day_has_one_date(days, date_of(days));
    let (y, mo, d) = date_of(days);
    assert(pow10(2) == 100 && pow10(4) == 10000) by {
        reveal_with_fuel(pow10, 5);
    }
    lemma_padded_fixed(y as nat, 4);
    lemma_padded_fixed(mo as nat, 2);
    lemma_padded_fixed(d as nat, 2);
    lemma_padded_fixed(rem / 3600, 2);
    lemma_padded_fixed((rem % 3600) / 60, 2);
    lemma_padded_fixed(rem % 60, 2);
    reveal_strlit("-");
    reveal_strlit("T");
    reveal_strlit(":");
    reveal_strlit("Z");
    assert(iso8601(secs) =~= stamp(
        y as nat,
        mo as nat,
        d as nat,
        rem / 3600,
        (rem % 3600) / 60,
        rem % 60,
    ));
}

/// Reading the fields of a timestamp before the year 10000 back gives a
/// valid date and a time of day whose count of seconds since
/// 1970-01-01T00:00:00Z is the one it was made from.
#[verifier::spinoff_prover]
#[verifier::rlimit(40)]
pub proof fn iso8601_reads_back(secs: nat)
    requires
        secs < 253_402_300_800,
    ensures
        ({
            let s = iso8601(secs);
            let date = (
                digits_value(s.subrange(0, 4)),
                digits_value(s.subrange(5, 7)),
                digits_value(s.subrange(8, 10)),
            );
            let h = digits_value(s.subrange(11, 13));
            let mi = digits_value(s.subrange(14, 16));
            let sec = digits_value(s.subrange(17, 19));
            &&& valid_date(date)
            &&& 0 <= h < 24
            &&& 0 <= mi < 60
            &&& 0 <= sec < 60
            &&& epoch_days(date) * 86400 + h * 3600 + mi * 60 + sec == secs
        }),
{
    seconds_before_year_10000(secs);
    lemma_iso_is_stamp(secs);
    let (y, mo, d) = date_of((secs / 86400) as int);
    let rem = secs % 86400;
    let (h, mi, sec) = (rem / 3600, (rem % 3600) / 60, rem % 60);
    assert(pow10(2) == 100 && pow10(4) == 10000) by {
        reveal_with_fuel(pow10, 5);
    }
    lemma_fixed_len(y as nat, 4);
    lemma_fixed_len(mo as nat, 2);
    lemma_fixed_len(d as nat, 2);
    lemma_fixed_len(h, 2);
    lemma_fixed_len(mi, 2);
    lemma_fixed_len(sec, 2);
    lemma_fixed_value(y as nat, 4);
    lemma_fixed_value(mo as nat, 2);
    lemma_fixed_value(d as nat, 2);
    lemma_fixed_value(h, 2);
    lemma_fixed_value(mi, 2);
    lemma_fixed_value(sec, 2);
    let s = iso8601(secs);
    assert(s.subrange(0, 4) =~= fixed_digits(y as nat, 4));
    assert(s.subrange(5, 7) =~= fixed_digits(mo as nat, 2));
    assert(s.subrange(8, 10) =~= fixed_digits(d as nat, 2));
    assert(s.subrange(11, 13) =~= fixed_digits(h, 2));
    assert(s.subrange(14, 16) =~= fixed_digits(mi, 2));
    assert(s.subrange(17, 19) =~= fixed_digits(sec, 2));
    assert(secs == (secs / 86400) * 86400 + rem);
    assert(rem == h * 3600 + mi * 60 + sec);
}

/// Dates in calendar order have growing day counts.
#[verifier::spinoff_prover]
#[verifier::rlimit(40)]
proof fn lemma_date_order(t1: (int, int, int), t2: (int, int, int))
    requires
        valid_date(t1),
        valid_date(t2),
        epoch_days(t1) < epoch_days(t2),
    ensures
        t1.0 < t2.0 || (t1.0 == t2.0 && (t1.1 < t2.1 || (t1.1 == t2.1 && t1.2 < t2.2))),
{
    lemma_within_year(t1);
    lemma_within_year(t2);
    if t2.0 < t1.0 {
        lemma_year_monotone(t2.0 + 1, t1.0);
        assert(false);
    } else if t2.0 == t1.0 {
        let y = t1.0;
        lemma_month_bounds(y, t1.1);
        lemma_month_bounds(y, t2.1);
        if t2.1 < t1.1 {
            lemma_month_monotone(y, t2.1 + 1, t1.1);
            assert(days_before_month(y, t2.1 + 1) == days_before_month(y, t2.1) + month_length(
                y,
                t2.1,
            ));
            assert(false);
        }
    }
}

#[verifier::spinoff_prover]
#[verifier::rlimit(40)]
proof fn lemma_later_stamps(a: nat, b: nat)
    requires
        a < b,
        date_of((b / 86400) as int).0 <= 9999,
    ensures
        lex_before(iso8601(a), iso8601(b)),
{
    let da = (a / 86400) as int;
    let db = (b / 86400) as int;
    each_day_has_one_date(da, date_of(da));
    each_day_has_one_date(db, date_of(db));
    let ta = date_of(da);
    let tb = date_of(db);
    if da < db {
        lemma_date_order(ta, tb);
    } else {
        assert(da == db);
    }
    lemma_iso_is_stamp(a);
    lemma_iso_is_stamp(b);
    let ra = a % 86400;
    let rb = b % 86400;
    if da == db {
        assert(ra < rb);
    }
    lemma_stamp_order(
        (ta.0 as nat, ta.1 as nat, ta.2 as nat, ra / 3600, (ra % 3600) / 60, ra % 60),
        (tb.0 as nat, tb.1 as nat, tb.2 as nat, rb / 3600, (rb % 3600) / 60, rb % 60),
    );
}

/// Of two instants before 10000-01-01T00:00:00Z, the later one has the
/// later timestamp in lexicographic order.
pub proof fn later_instants_have_later_timestamps(a: nat, b: nat)
    requires
        a < b,
        b < 253_402_300_800,
    ensures
        lex_before(iso8601(a), iso8601(b)),
{
    seconds_before_year_10000(b);
    lemma_later_stamps(a, b);
}

} // verus!
