use vstd::prelude::*;
use crate::text::{
    all_digits, decimal_digits, digits_value, lemma_digits_order, lemma_zero_padded_value, pow10,
    push_char, push_zero_padded, text_lt, zero_padded,
};

verus! {

// ---------------------------------------------------------------------------
// The proleptic Gregorian calendar.
// ---------------------------------------------------------------------------

/// Leap year rule of the Gregorian calendar.
pub open spec fn is_leap_year(y: int) -> bool {
    y % 4 == 0 && (y % 100 != 0 || y % 400 == 0)
}

pub open spec fn year_length(y: int) -> int {
    if is_leap_year(y) {
        366
    } else {
        365
    }
}

/// Number of days in month `m` (1 = January) of year `y`.
pub open spec fn month_length(y: int, m: int) -> int {
    if m == 2 {
        if is_leap_year(y) {
            29
        } else {
            28
        }
    } else if m == 4 || m == 6 || m == 9 || m == 11 {
        30
    } else {
        31
    }
}

/// Days in the years `0 .. y`.
pub open spec fn days_before_year(y: nat) -> int
    decreases y,
{
    if y == 0 {
        0
    } else {
        days_before_year((y - 1) as nat) + year_length(y - 1)
    }
}

/// Days in the months `1 .. m` of year `y`.
pub open spec fn days_before_month(y: int, m: nat) -> int
    decreases m,
{
    if m <= 1 {
        0
    } else {
        days_before_month(y, (m - 1) as nat) + month_length(y, m - 1)
    }
}

pub open spec fn is_valid_date(y: nat, m: nat, d: nat) -> bool {
    1 <= m <= 12 && 1 <= d <= month_length(y as int, m as int)
}

/// Days from 1970-01-01 to the date `y-m-d`.
pub open spec fn days_since_epoch(y: nat, m: nat, d: nat) -> int {
    days_before_year(y) + days_before_month(y as int, m) + d - 1 - days_before_year(1970)
}

/// `y-m-d hh:mi:ss` UTC is the instant that lies `secs` seconds after
/// 1970-01-01 00:00:00 UTC.
pub open spec fn is_utc_breakdown(
    secs: int,
    y: nat,
    m: nat,
    d: nat,
    hh: nat,
    mi: nat,
    ss: nat,
) -> bool {
    &&& is_valid_date(y, m, d)
    &&& hh < 24 && mi < 60 && ss < 60
    &&& days_since_epoch(y, m, d) * 86400 + hh * 3600 + mi * 60 + ss == secs
}

// ---------------------------------------------------------------------------
// Lemmas
// ---------------------------------------------------------------------------

/// Days from 0000-03-01 to `y`-03-01.
spec fn march_start(y: int) -> int {
    365 * y + y / 4 - y / 100 + y / 400
}

proof fn lemma_days_before_year_closed(y: nat)
    ensures
        days_before_year(y) == 365 * y + (y + 3) / 4 - (y + 99) / 100 + (y + 399) / 400,
    decreases y,
{
    if y > 0 {
        lemma_days_before_year_closed((y - 1) as nat);
        let x = y - 1;
        assert((x + 4) / 4 - (x + 3) / 4 == if x % 4 == 0 { 1int } else { 0 });
        assert((x + 100) / 100 - (x + 99) / 100 == if x % 100 == 0 { 1int } else { 0 });
        assert((x + 400) / 400 - (x + 399) / 400 == if x % 400 == 0 { 1int } else { 0 });
    }
}

#[verifier::spinoff_prover]
#[verifier::rlimit(30)]
proof fn lemma_days_before_year_march(y: nat)
    ensures
        days_before_year(y) == march_start(y as int) + 1 - (if is_leap_year(y as int) { 1int } else { 0 }),
{
    lemma_days_before_year_closed(y);
    assert((y + 3) / 4 == y / 4 + if y % 4 == 0 { 0int } else { 1 });
    assert((y + 99) / 100 == y / 100 + if y % 100 == 0 { 0int } else { 1 });
    assert((y + 399) / 400 == y / 400 + if y % 400 == 0 { 0int } else { 1 });
    assert(y % 100 == 0 ==> y % 4 == 0);
    assert(y % 400 == 0 ==> y % 100 == 0);
}

proof fn lemma_march_start_step(y: int)
    requires
        y >= 0,
    ensures
        march_start(y + 1) == march_start(y) + 365 + (if is_leap_year(y + 1) { 1int } else { 0 }),
{
    let x = y + 1;
    assert(x / 4 - y / 4 == if x % 4 == 0 { 1int } else { 0 });
    assert(x / 100 - y / 100 == if x % 100 == 0 { 1int } else { 0 });
    assert(x / 400 - y / 400 == if x % 400 == 0 { 1int } else { 0 });
    assert(x % 100 == 0 ==> x % 4 == 0);
    assert(x % 400 == 0 ==> x % 100 == 0);
}

proof fn lemma_march_start_era(era: int, yoe: int)
    requires
        era >= 0,
        0 <= yoe < 400,
    ensures
        march_start(era * 400 + yoe) == era * 146097 + march_start(yoe),
{
    let y = era * 400 + yoe;
    assert(y / 4 == era * 100 + yoe / 4) by (nonlinear_arith)
        requires y == era * 400 + yoe, 0 <= yoe < 400, era >= 0;
    assert(y / 100 == era * 4 + yoe / 100) by (nonlinear_arith)
        requires y == era * 400 + yoe, 0 <= yoe < 400, era >= 0;
    assert(y / 400 == era) by (nonlinear_arith)
        requires y == era * 400 + yoe, 0 <= yoe < 400, era >= 0;
}

/// The year-of-era step of the day-to-date conversion.
proof fn lemma_year_of_era(doe: u32)
    requires
        doe < 146097,
    ensures
        ({
            let yoe = (doe - doe / 1460 + doe / 36524 - doe / 146096) / 365;
            &&& yoe < 400
            &&& 365 * yoe + yoe / 4 - yoe / 100 <= doe
            &&& doe < 365 * (yoe + 1) + (yoe + 1) / 4 - (yoe + 1) / 100 + (yoe + 1) / 400
        }),
{
    assert(doe < 146097 ==> {
        let yoe = (doe - doe / 1460 + doe / 36524 - doe / 146096) / 365;
        &&& yoe < 400
        &&& 365 * yoe + yoe / 4 - yoe / 100 <= doe
        &&& doe < 365 * (yoe + 1) + (yoe + 1) / 4 - (yoe + 1) / 100 + (yoe + 1) / 400
    }) by (bit_vector);
}

/// The month step of the day-to-date conversion (months counted from March).
proof fn lemma_month_of_year(doy: u32)
    requires
        doy < 366,
    ensures
        ({
            let mp = (5 * doy + 2) / 153;
            &&& mp <= 11
            &&& (153 * mp + 2) / 5 <= doy
            &&& doy < (153 * (mp + 1) + 2) / 5
        }),
{
    assert(doy < 366 ==> {
        let mp = (5 * doy + 2) / 153;
        &&& mp <= 11
        &&& (153 * mp + 2) / 5 <= doy
        &&& doy < (153 * (mp + 1) + 2) / 5
    }) by (bit_vector);
}


proof fn lemma_days_before_month_values(y: int)
    ensures
        ({
            let l = if is_leap_year(y) { 1int } else { 0 };
            &&& days_before_month(y, 1) == 0
            &&& days_before_month(y, 2) == 31
            &&& days_before_month(y, 3) == 59 + l
            &&& days_before_month(y, 4) == 90 + l
            &&& days_before_month(y, 5) == 120 + l
            &&& days_before_month(y, 6) == 151 + l
            &&& days_before_month(y, 7) == 181 + l
            &&& days_before_month(y, 8) == 212 + l
            &&& days_before_month(y, 9) == 243 + l
            &&& days_before_month(y, 10) == 273 + l
            &&& days_before_month(y, 11) == 304 + l
            &&& days_before_month(y, 12) == 334 + l
            &&& days_before_month(y, 13) == 365 + l
        }),
{
    reveal_with_fuel(days_before_month, 14);
}

/// The calendar date of day `days` after 1970-01-01, by the era / year-of-era
/// decomposition (eras of 400 years counted from 0000-03-01).
proof fn lemma_civil_from_days(days: int, era: int, doe: int, yoe: int, doy: int, mp: int)
    requires
        days >= 0,
        era == (days + 719468) / 146097,
        doe == days + 719468 - era * 146097,
        yoe == (doe - doe / 1460 + doe / 36524 - doe / 146096) / 365,
        doy == doe - (365 * yoe + yoe / 4 - yoe / 100),
        mp == (5 * doy + 2) / 153,
    ensures
        ({
            let y = yoe + era * 400;
            let d = doy - (153 * mp + 2) / 5 + 1;
            let mo = if mp < 10 { mp + 3 } else { mp - 9 };
            let year = if mo <= 2 { y + 1 } else { y };
            &&& 0 <= doy < 366
            &&& 0 <= mp <= 11
            &&& year >= 0
            &&& is_valid_date(year as nat, mo as nat, d as nat)
            &&& days_since_epoch(year as nat, mo as nat, d as nat) == days
        }),
{
    let z = days + 719468;
    assert(0 <= doe < 146097);
    lemma_year_of_era(doe as u32);
    assert(0 <= yoe < 400);
    let y = yoe + era * 400;
    assert(era >= 0);
    lemma_march_start_era(era, yoe);
    assert(march_start(yoe) == 365 * yoe + yoe / 4 - yoe / 100);
    assert(z == march_start(y) + doy);
    // the length of March-year y
    lemma_march_start_step(y);
    if yoe + 1 < 400 {
        lemma_march_start_era(era, yoe + 1);
    } else {
        lemma_march_start_era(era + 1, 0);
        assert(march_start(400) == 146097);
    }
    assert(doy < march_start(y + 1) - march_start(y));
    assert(0 <= doy < 366);
    lemma_month_of_year(doy as u32);
    let d = doy - (153 * mp + 2) / 5 + 1;
    let mo = if mp < 10 { mp + 3 } else { mp - 9 };
    let year = if mo <= 2 { y + 1 } else { y };
    lemma_days_before_year_march(y as nat);
    lemma_days_before_year_closed(1970);
    assert(days_before_year(1970) == 719528);
    lemma_days_before_month_values(y);
    lemma_days_before_month_values(y + 1);
    if mp < 10 {
        assert(days_since_epoch(year as nat, mo as nat, d as nat) == days);
        assert(is_valid_date(year as nat, mo as nat, d as nat));
    } else {
        assert(days_before_year((y + 1) as nat) == days_before_year(y as nat) + year_length(y));
        assert(days_since_epoch(year as nat, mo as nat, d as nat) == days);
        assert(is_valid_date(year as nat, mo as nat, d as nat));
    }
}

// ---------------------------------------------------------------------------
// ISO-8601 text
// ---------------------------------------------------------------------------

/// `YYYY-MM-DDTHH:MM:SSZ`, each field zero-padded (the year to at least four
/// digits).
pub open spec fn iso8601_text(y: nat, m: nat, d: nat, hh: nat, mi: nat, ss: nat) -> Seq<char> {
    zero_padded(y, 4) + seq!['-'] + zero_padded(m, 2) + seq!['-'] + zero_padded(d, 2) + seq!['T']
        + zero_padded(hh, 2) + seq![':'] + zero_padded(mi, 2) + seq![':'] + zero_padded(ss, 2)
        + seq!['Z']
}

/// The calendar date of the day `days` after 1970-01-01 (the era /
/// year-of-era decomposition of H. Hinnant's `civil_from_days`).
fn civil_from_days(days: i64) -> (r: (i64, u64, u64))
    requires
        0 <= days <= u64::MAX / 86400,
    ensures
        r.0 >= 0,
        is_valid_date(r.0 as nat, r.1 as nat, r.2 as nat),
        days_since_epoch(r.0 as nat, r.1 as nat, r.2 as nat) == days,
{
    let z = days + 719_468;
    let era = if z >= 0 { z } else { z - 146_096 } / 146_097;
    assert(0 <= era * 146_097 <= z) by (nonlinear_arith)
        requires era == z / 146_097, z >= 0;
    assert(era * 400 <= z) by (nonlinear_arith)
        requires 0 <= era * 146_097 <= z, era >= 0;
    let doe = (z - era * 146_097) as u64;
    proof {
        lemma_year_of_era(doe as u32);
    }
    let yoe = (doe - doe / 1460 + doe / 36_524 - doe / 146_096) / 365;
    let y = yoe as i64 + era * 400;
    let doy = doe - (365 * yoe + yoe / 4 - yoe / 100);
    proof {
        lemma_civil_from_days(days as int, era as int, doe as int, yoe as int, doy as int, (5 * doy + 2) / 153);
    }
    let mp = (5 * doy + 2) / 153;
    let d = doy - (153 * mp + 2) / 5 + 1;
    let mo = if mp < 10 { mp + 3 } else { mp - 9 };
    let year = if mo <= 2 { y + 1 } else { y };
    (year, mo, d)
}

/// The UTC time `secs` seconds after 1970-01-01T00:00:00Z, as
/// `YYYY-MM-DDTHH:MM:SSZ`.
pub fn iso8601_from_unix_secs(secs: u64) -> (r: String)
    ensures
        exists|y: nat, m: nat, d: nat, hh: nat, mi: nat, ss: nat|
            is_utc_breakdown(secs as int, y, m, d, hh, mi, ss) && r@ == iso8601_text(
                y,
                m,
                d,
                hh,
                mi,
                ss,
            ),
{
    let days = (secs / 86_400) as i64;
    let secs_of_day = (secs % 86_400) as u32;
    let h = secs_of_day / 3600;
    let m = (secs_of_day % 3600) / 60;
    let s = secs_of_day % 60;
    let (year, mo, d) = civil_from_days(days);
    assert(secs == days * 86400 + h * 3600 + m * 60 + s) by (nonlinear_arith)
        requires
            days == secs / 86400,
            secs_of_day == secs % 86400,
            h == secs_of_day / 3600,
            m == (secs_of_day % 3600) / 60,
            s == secs_of_day % 60,
    ;
    let ghost text = iso8601_text(year as nat, mo as nat, d as nat, h as nat, m as nat, s as nat);

    let mut out = String::new();
    push_zero_padded(&mut out, year as u64, 4);
    push_char(&mut out, '-');
    push_zero_padded(&mut out, mo, 2);
    push_char(&mut out, '-');
    push_zero_padded(&mut out, d, 2);
    push_char(&mut out, 'T');
    push_zero_padded(&mut out, h as u64, 2);
    push_char(&mut out, ':');
    push_zero_padded(&mut out, m as u64, 2);
    push_char(&mut out, ':');
    push_zero_padded(&mut out, s as u64, 2);
    push_char(&mut out, 'Z');
    assert(out@ =~= text);
    assert(is_utc_breakdown(secs as int, year as nat, mo as nat, d as nat, h as nat, m as nat, s as nat));
    out
}


// ---------------------------------------------------------------------------
// Laws
// ---------------------------------------------------------------------------

proof fn lemma_days_before_year_monotonic(a: nat, b: nat)
    requires
        a <= b,
    ensures
        days_before_year(a) <= days_before_year(b),
        a < b ==> days_before_year(a) + year_length(a as int) <= days_before_year(b),
    decreases b - a,
{
    if a < b {
        lemma_days_before_year_monotonic(a, (b - 1) as nat);
    }
}

/// The day of the year of a valid date lies within the year.
proof fn lemma_day_of_year_bounds(y: nat, m: nat, d: nat)
    requires
        is_valid_date(y, m, d),
    ensures
        0 <= days_before_month(y as int, m) + d - 1 < year_length(y as int),
{
    lemma_days_before_month_values(y as int);
}

/// Distinct valid dates of one year have distinct days of the year.
proof fn lemma_day_of_year_unique(y: nat, m1: nat, d1: nat, m2: nat, d2: nat)
    requires
        is_valid_date(y, m1, d1),
        is_valid_date(y, m2, d2),
        days_before_month(y as int, m1) + d1 == days_before_month(y as int, m2) + d2,
    ensures
        m1 == m2 && d1 == d2,
{
    lemma_days_before_month_values(y as int);
}

/// An instant has one breakdown into UTC date and time of day: the text
/// `iso8601_from_unix_secs` returns is determined by its argument.
pub proof fn lemma_utc_breakdown_unique(
    secs: int,
    y1: nat,
    m1: nat,
    d1: nat,
    hh1: nat,
    mi1: nat,
    ss1: nat,
    y2: nat,
    m2: nat,
    d2: nat,
    hh2: nat,
    mi2: nat,
    ss2: nat,
)
    requires
        is_utc_breakdown(secs, y1, m1, d1, hh1, mi1, ss1),
        is_utc_breakdown(secs, y2, m2, d2, hh2, mi2, ss2),
    ensures
        y1 == y2 && m1 == m2 && d1 == d2 && hh1 == hh2 && mi1 == mi2 && ss1 == ss2,
{
    let e1 = days_since_epoch(y1, m1, d1);
    let e2 = days_since_epoch(y2, m2, d2);
    let t1 = hh1 * 3600 + mi1 * 60 + ss1;
    let t2 = hh2 * 3600 + mi2 * 60 + ss2;
    assert(e1 == e2 && t1 == t2) by (nonlinear_arith)
        requires
            e1 * 86400 + t1 == e2 * 86400 + t2,
            0 <= t1 < 86400,
            0 <= t2 < 86400,
    ;
    assert(hh1 == hh2 && mi1 == mi2 && ss1 == ss2) by (nonlinear_arith)
        requires
            hh1 * 3600 + mi1 * 60 + ss1 == hh2 * 3600 + mi2 * 60 + ss2,
            mi1 < 60,
            ss1 < 60,
            mi2 < 60,
            ss2 < 60,
    ;
    lemma_day_of_year_bounds(y1, m1, d1);
    lemma_day_of_year_bounds(y2, m2, d2);
    if y1 < y2 {
        lemma_days_before_year_monotonic(y1, y2);
    } else if y2 < y1 {
        lemma_days_before_year_monotonic(y2, y1);
    }
    assert(y1 == y2);
    lemma_day_of_year_unique(y1, m1, d1, m2, d2);
}

proof fn lemma_two_digits(n: nat)
    requires
        n < 100,
    ensures
        zero_padded(n, 2).len() == 2,
{
    reveal_with_fuel(decimal_digits, 3);
}

proof fn lemma_four_digits(n: nat)
    requires
        1000 <= n <= 9999,
    ensures
        zero_padded(n, 4).len() == 4,
{
    reveal_with_fuel(decimal_digits, 5);
    assert(decimal_digits(n).len() == 4);
}

/// For a year of four digits the ISO-8601 text is 20 characters long, with
/// its separators at fixed places: `YYYY-MM-DDTHH:MM:SSZ`.
pub proof fn lemma_iso8601_shape(y: nat, m: nat, d: nat, hh: nat, mi: nat, ss: nat)
    requires
        is_valid_date(y, m, d),
        hh < 24,
        mi < 60,
        ss < 60,
        1000 <= y <= 9999,
    ensures
        ({
            let t = iso8601_text(y, m, d, hh, mi, ss);
            &&& t.len() == 20
            &&& t[4] == '-' && t[7] == '-' && t[10] == 'T'
            &&& t[13] == ':' && t[16] == ':' && t[19] == 'Z'
        }),
{
    lemma_four_digits(y);
    lemma_two_digits(m);
    lemma_two_digits(d);
    lemma_two_digits(hh);
    lemma_two_digits(mi);
    lemma_two_digits(ss);
}

// ---------------------------------------------------------------------------
// Reading the text back, and its order
// ---------------------------------------------------------------------------

/// The last instant whose UTC year has four digits is one second before
/// 10000-01-01T00:00:00Z, which is this many seconds after the epoch.
pub open spec fn four_digit_year_end() -> int {
    253402300800
}

/// The text has the form `YYYY-MM-DDTHH:MM:SSZ`: 20 characters, ASCII digits
/// in the fields and the separators in their places.
pub open spec fn is_iso8601_form(t: Seq<char>) -> bool {
    &&& t.len() == 20
    &&& t[4] == '-' && t[7] == '-' && t[10] == 'T' && t[13] == ':' && t[16] == ':' && t[19] == 'Z'
    &&& all_digits(t.subrange(0, 4)) && all_digits(t.subrange(5, 7)) && all_digits(t.subrange(8, 10))
    &&& all_digits(t.subrange(11, 13)) && all_digits(t.subrange(14, 16)) && all_digits(t.subrange(17, 19))
}

/// The year, month, day, hour, minute and second written in such a text.
pub open spec fn iso8601_fields(t: Seq<char>) -> (nat, nat, nat, nat, nat, nat) {
    (
        digits_value(t.subrange(0, 4)),
        digits_value(t.subrange(5, 7)),
        digits_value(t.subrange(8, 10)),
        digits_value(t.subrange(11, 13)),
        digits_value(t.subrange(14, 16)),
        digits_value(t.subrange(17, 19)),
    )
}

/// The seconds since 1970-01-01T00:00:00Z of the UTC instant such a text
/// names.
pub open spec fn iso8601_seconds(t: Seq<char>) -> int {
    let f = iso8601_fields(t);
    days_since_epoch(f.0, f.1, f.2) * 86400 + f.3 * 3600 + f.4 * 60 + f.5
}

proof fn lemma_year_below_10000(secs: int, y: nat, m: nat, d: nat, hh: nat, mi: nat, ss: nat)
    requires
        is_utc_breakdown(secs, y, m, d, hh, mi, ss),
        secs < four_digit_year_end(),
    ensures
        y <= 9999,
{
    if y >= 10000 {
        lemma_days_before_year_monotonic(10000, y);
        lemma_days_before_year_closed(10000);
        lemma_days_before_year_closed(1970);
        lemma_day_of_year_bounds(y, m, d);
        assert(days_since_epoch(y, m, d) >= 2932897);
    }
}

/// Where each field of the text lies.
proof fn lemma_iso8601_layout(y: nat, m: nat, d: nat, hh: nat, mi: nat, ss: nat)
    requires
        y <= 9999,
        m < 100,
        d < 100,
        hh < 100,
        mi < 100,
        ss < 100,
    ensures
        ({
            let t = iso8601_text(y, m, d, hh, mi, ss);
            &&& t.len() == 20
            &&& t.subrange(0, 4) == zero_padded(y, 4)
            &&& t.subrange(5, 7) == zero_padded(m, 2)
            &&& t.subrange(8, 10) == zero_padded(d, 2)
            &&& t.subrange(11, 13) == zero_padded(hh, 2)
            &&& t.subrange(14, 16) == zero_padded(mi, 2)
            &&& t.subrange(17, 19) == zero_padded(ss, 2)
            &&& t.take(5) == zero_padded(y, 4) + seq!['-']
            &&& t.take(8) == zero_padded(y, 4) + seq!['-'] + zero_padded(m, 2) + seq!['-']
            &&& t.take(11) == zero_padded(y, 4) + seq!['-'] + zero_padded(m, 2) + seq!['-'] + zero_padded(d, 2)
                + seq!['T']
            &&& t.take(14) == zero_padded(y, 4) + seq!['-'] + zero_padded(m, 2) + seq!['-'] + zero_padded(d, 2)
                + seq!['T'] + zero_padded(hh, 2) + seq![':']
            &&& t.take(17) == zero_padded(y, 4) + seq!['-'] + zero_padded(m, 2) + seq!['-'] + zero_padded(d, 2)
                + seq!['T'] + zero_padded(hh, 2) + seq![':'] + zero_padded(mi, 2) + seq![':']
            &&& all_digits(zero_padded(y, 4)) && digits_value(zero_padded(y, 4)) == y
            &&& all_digits(zero_padded(m, 2)) && digits_value(zero_padded(m, 2)) == m
            &&& all_digits(zero_padded(d, 2)) && digits_value(zero_padded(d, 2)) == d
            &&& all_digits(zero_padded(hh, 2)) && digits_value(zero_padded(hh, 2)) == hh
            &&& all_digits(zero_padded(mi, 2)) && digits_value(zero_padded(mi, 2)) == mi
            &&& all_digits(zero_padded(ss, 2)) && digits_value(zero_padded(ss, 2)) == ss
        }),
{
    reveal_with_fuel(pow10, 5);
    lemma_zero_padded_value(y, 4);
    lemma_zero_padded_value(m, 2);
    lemma_zero_padded_value(d, 2);
    lemma_zero_padded_value(hh, 2);
    lemma_zero_padded_value(mi, 2);
    lemma_zero_padded_value(ss, 2);
    let t = iso8601_text(y, m, d, hh, mi, ss);
    let zy = zero_padded(y, 4);
    let zm = zero_padded(m, 2);
    let zd = zero_padded(d, 2);
    let zh = zero_padded(hh, 2);
    let zi = zero_padded(mi, 2);
    let zs = zero_padded(ss, 2);
    assert(t.subrange(0, 4) =~= zy);
    assert(t.subrange(5, 7) =~= zm);
    assert(t.subrange(8, 10) =~= zd);
    assert(t.subrange(11, 13) =~= zh);
    assert(t.subrange(14, 16) =~= zi);
    assert(t.subrange(17, 19) =~= zs);
    assert(t.take(5) =~= zy + seq!['-']);
    assert(t.take(8) =~= zy + seq!['-'] + zm + seq!['-']);
    assert(t.take(11) =~= zy + seq!['-'] + zm + seq!['-'] + zd + seq!['T']);
    assert(t.take(14) =~= zy + seq!['-'] + zm + seq!['-'] + zd + seq!['T'] + zh + seq![':']);
    assert(t.take(17) =~= zy + seq!['-'] + zm + seq!['-'] + zd + seq!['T'] + zh + seq![':'] + zi + seq![':']);
}

/// The text of an instant with a four-digit year has the form
/// `YYYY-MM-DDTHH:MM:SSZ`, its fields are the instant's UTC date and time
/// (a valid Gregorian date, hours below 24, minutes and seconds below 60),
/// and read back they give the instant's seconds since the epoch.
pub proof fn lemma_iso8601_read_back(secs: int, y: nat, m: nat, d: nat, hh: nat, mi: nat, ss: nat)
    requires
        0 <= secs < four_digit_year_end(),
        is_utc_breakdown(secs, y, m, d, hh, mi, ss),
    ensures
        ({
            let t = iso8601_text(y, m, d, hh, mi, ss);
            &&& is_iso8601_form(t)
            &&& iso8601_fields(t) == (y, m, d, hh, mi, ss)
            &&& is_valid_date(y, m, d) && hh < 24 && mi < 60 && ss < 60
            &&& iso8601_seconds(t) == secs
        }),
{
    lemma_year_below_10000(secs, y, m, d, hh, mi, ss);
    lemma_iso8601_layout(y, m, d, hh, mi, ss);
    lemma_iso8601_shape_any(y, m, d, hh, mi, ss);
}

proof fn lemma_iso8601_shape_any(y: nat, m: nat, d: nat, hh: nat, mi: nat, ss: nat)
    requires
        y <= 9999,
        m < 100,
        d < 100,
        hh < 100,
        mi < 100,
        ss < 100,
    ensures
        ({
            let t = iso8601_text(y, m, d, hh, mi, ss);
            t[4] == '-' && t[7] == '-' && t[10] == 'T' && t[13] == ':' && t[16] == ':' && t[19] == 'Z'
        }),
{
    lemma_iso8601_layout(y, m, d, hh, mi, ss);
    let t = iso8601_text(y, m, d, hh, mi, ss);
    assert(t.take(5)[4] == t[4]);
    assert(t.take(8)[7] == t[7]);
    assert(t.take(11)[10] == t[10]);
    assert(t.take(14)[13] == t[13]);
    assert(t.take(17)[16] == t[16]);
}

/// Date and time `a` comes before `b` (by year, then month, day, hour,
/// minute, second).
pub open spec fn date_time_lt(a: (nat, nat, nat, nat, nat, nat), b: (nat, nat, nat, nat, nat, nat)) -> bool {
    ||| a.0 < b.0
    ||| a.0 == b.0 && a.1 < b.1
    ||| a.0 == b.0 && a.1 == b.1 && a.2 < b.2
    ||| a.0 == b.0 && a.1 == b.1 && a.2 == b.2 && a.3 < b.3
    ||| a.0 == b.0 && a.1 == b.1 && a.2 == b.2 && a.3 == b.3 && a.4 < b.4
    ||| a.0 == b.0 && a.1 == b.1 && a.2 == b.2 && a.3 == b.3 && a.4 == b.4 && a.5 < b.5
}

proof fn lemma_days_before_month_monotonic(y: int, a: nat, b: nat)
    requires
        1 <= a <= b,
    ensures
        days_before_month(y, a) <= days_before_month(y, b),
    decreases b - a,
{
    if a < b {
        lemma_days_before_month_monotonic(y, a, (b - 1) as nat);
    }
}

/// A later date lies more days after the epoch.
proof fn lemma_days_since_epoch_order(ya: nat, ma: nat, da: nat, yb: nat, mb: nat, db: nat)
    requires
        is_valid_date(ya, ma, da),
        is_valid_date(yb, mb, db),
        ya < yb || (ya == yb && ma < mb) || (ya == yb && ma == mb && da < db),
    ensures
        days_since_epoch(ya, ma, da) < days_since_epoch(yb, mb, db),
{
    lemma_day_of_year_bounds(ya, ma, da);
    lemma_day_of_year_bounds(yb, mb, db);
    if ya < yb {
        lemma_days_before_year_monotonic(ya, yb);
    } else if ma < mb {
        lemma_days_before_month_monotonic(ya as int, ma + 1, mb);
        assert(days_before_month(ya as int, ma + 1) == days_before_month(ya as int, ma) + month_length(ya as int, ma as int));
    }
}

/// A later date and time is a later instant.
proof fn lemma_breakdown_order(
    sa: int,
    a: (nat, nat, nat, nat, nat, nat),
    sb: int,
    b: (nat, nat, nat, nat, nat, nat),
)
    requires
        is_utc_breakdown(sa, a.0, a.1, a.2, a.3, a.4, a.5),
        is_utc_breakdown(sb, b.0, b.1, b.2, b.3, b.4, b.5),
        date_time_lt(a, b),
    ensures
        sa < sb,
{
    let ea = days_since_epoch(a.0, a.1, a.2);
    let eb = days_since_epoch(b.0, b.1, b.2);
    if a.0 < b.0 || (a.0 == b.0 && a.1 < b.1) || (a.0 == b.0 && a.1 == b.1 && a.2 < b.2) {
        lemma_days_since_epoch_order(a.0, a.1, a.2, b.0, b.1, b.2);
        assert(ea + 1 <= eb);
    }
}

/// Between two instants with four-digit years, the earlier has the text that
/// comes first, character by character, and the texts are equal exactly when
/// the instants are.
pub proof fn lemma_iso8601_order(
    s1: int,
    y1: nat,
    m1: nat,
    d1: nat,
    hh1: nat,
    mi1: nat,
    ss1: nat,
    s2: int,
    y2: nat,
    m2: nat,
    d2: nat,
    hh2: nat,
    mi2: nat,
    ss2: nat,
)
    requires
        0 <= s1 <= s2 < four_digit_year_end(),
        is_utc_breakdown(s1, y1, m1, d1, hh1, mi1, ss1),
        is_utc_breakdown(s2, y2, m2, d2, hh2, mi2, ss2),
    ensures
        ({
            let t1 = iso8601_text(y1, m1, d1, hh1, mi1, ss1);
            let t2 = iso8601_text(y2, m2, d2, hh2, mi2, ss2);
            &&& s1 < s2 ==> text_lt(t1, t2)
            &&& (t1 == t2) == (s1 == s2)
        }),
{
    let t1 = iso8601_text(y1, m1, d1, hh1, mi1, ss1);
    let t2 = iso8601_text(y2, m2, d2, hh2, mi2, ss2);
    let a = (y1, m1, d1, hh1, mi1, ss1);
    let b = (y2, m2, d2, hh2, mi2, ss2);
    if s1 == s2 {
        lemma_utc_breakdown_unique(s1, y1, m1, d1, hh1, mi1, ss1, y2, m2, d2, hh2, mi2, ss2);
    } else {
        if !date_time_lt(a, b) {
            if a == b {
            } else {
                assert(date_time_lt(b, a));
                lemma_breakdown_order(s2, b, s1, a);
            }
        }
        assert(date_time_lt(a, b));
        lemma_year_below_10000(s1, y1, m1, d1, hh1, mi1, ss1);
        lemma_year_below_10000(s2, y2, m2, d2, hh2, mi2, ss2);
        lemma_iso8601_layout(y1, m1, d1, hh1, mi1, ss1);
        lemma_iso8601_layout(y2, m2, d2, hh2, mi2, ss2);
        if y1 < y2 {
            assert(t1.take(0) =~= t2.take(0));
            lemma_digits_order(t1.subrange(0, 4), t2.subrange(0, 4));
            lemma_text_lt_at(t1, t2, 0, 4);
        } else if m1 < m2 {
            lemma_digits_order(t1.subrange(5, 7), t2.subrange(5, 7));
            lemma_text_lt_at(t1, t2, 5, 2);
        } else if d1 < d2 {
            lemma_digits_order(t1.subrange(8, 10), t2.subrange(8, 10));
            lemma_text_lt_at(t1, t2, 8, 2);
        } else if hh1 < hh2 {
            lemma_digits_order(t1.subrange(11, 13), t2.subrange(11, 13));
            lemma_text_lt_at(t1, t2, 11, 2);
        } else if mi1 < mi2 {
            lemma_digits_order(t1.subrange(14, 16), t2.subrange(14, 16));
            lemma_text_lt_at(t1, t2, 14, 2);
        } else {
            lemma_digits_order(t1.subrange(17, 19), t2.subrange(17, 19));
            assert(t1.take(17) == t2.take(17));
            lemma_text_lt_at(t1, t2, 17, 2);
        }
        let i = choose|i: int|
            0 <= i < t1.len() && i < t2.len() && t1.take(i) == t2.take(i) && (t1[i] as u32) < (#[trigger] t2[i] as u32);
        assert(t1 != t2) by {
            if t1 == t2 {
                assert(t1[i] == t2[i]);
            }
        }
    }
}

/// Texts that agree before `start` and whose parts at `start..start + w`
/// are in order are in order.
proof fn lemma_text_lt_at(t1: Seq<char>, t2: Seq<char>, start: int, w: int)
    requires
        0 <= start,
        0 <= w,
        start + w <= t1.len(),
        start + w <= t2.len(),
        t1.take(start) == t2.take(start),
        text_lt(t1.subrange(start, start + w), t2.subrange(start, start + w)),
    ensures
        text_lt(t1, t2),
{
    let x = t1.subrange(start, start + w);
    let y = t2.subrange(start, start + w);
    let i = choose|i: int| 0 <= i < x.len() && i < y.len() && x.take(i) == y.take(i) && (x[i] as u32) < (#[trigger] y[i] as u32);
    assert(t1.take(start + i) =~= t1.take(start) + x.take(i));
    assert(t2.take(start + i) =~= t2.take(start) + y.take(i));
    assert(t1[start + i] == x[i] && t2[start + i] == y[i]);
}

} // verus!
