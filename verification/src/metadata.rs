//! Calendar dates and the timestamp texts built from them.
use vstd::prelude::*;

use crate::fs::Timestamp;
use crate::text::{push_dec, push_pad0, push_pad0_signed, push_str};

verus! {

/// Proleptic Gregorian (year, month, day) of the day `z` days after 1970-01-01,
/// by the era / day-of-era decomposition (400-year eras of 146097 days, years
/// counted from March).
pub open spec fn civil(z: int) -> (int, int, int) {
    let z2 = z + 719468;
    let era = z2 / 146097;
    let doe = z2 % 146097;
    let yoe = (doe - doe / 1460 + doe / 36524 - doe / 146096) / 365;
    let y = yoe + era * 400;
    let doy = doe - (365 * yoe + yoe / 4 - yoe / 100);
    let mp = (5 * doy + 2) / 153;
    let d = doy - (153 * mp + 2) / 5 + 1;
    let m = if mp < 10 { mp + 3 } else { mp - 9 };
    (if m <= 2 { y + 1 } else { y }, m, d)
}

/// Converts a day count since 1970-01-01 into a (year, month, day) date.
pub fn civil_from_days(z: i64) -> (r: (i64, i64, i64))
    requires
        -0x1000_0000_0000_0000 <= z <= 0x1000_0000_0000_0000,
    ensures
        (r.0 as int, r.1 as int, r.2 as int) == civil(z as int),
{
    let z2 = z + 719_468;
    let era = z2.checked_div_euclid(146_097).unwrap();
    let doe = z2.checked_rem_euclid(146_097).unwrap();
    assert(0 <= doe < 146097);
    let yoe = (doe - doe / 1460 + doe / 36_524 - doe / 146_096) / 365;
    let y = yoe + era * 400;
    let doy = doe - (365 * yoe + yoe / 4 - yoe / 100);
    let mp = (5 * doy + 2) / 153;
    let d = doy - (153 * mp + 2) / 5 + 1;
    let m = if mp < 10 { mp + 3 } else { mp - 9 };
    (if m <= 2 { y + 1 } else { y }, m, d)
}


/// Within one 400-year era (from a March 1st), the year of the era leaves a day of the
/// year of at most 365, and 365 only in a year whose February (in the next calendar
/// year) is a leap February.
#[verifier::rlimit(100)]
proof fn lemma_era_year(doe: u32)
    by (bit_vector)
    requires
        doe < 146097,
    ensures
        ({
            let yoe = (doe - doe / 1460 + doe / 36524 - doe / 146096) / 365;
            let doy = doe - (365 * yoe + yoe / 4 - yoe / 100);
            &&& yoe <= 399
            &&& 0 <= doy <= 365
            &&& doy == 365 ==> ((yoe + 1) % 4 == 0 && ((yoe + 1) % 100 != 0 || (yoe + 1) % 400 == 0))
        }),
{
}

/// Within a year counted from March, the month decomposition gives a valid month and
/// day.
#[verifier::rlimit(100)]
proof fn lemma_year_day(yoe: u32, doy: u32)
    by (bit_vector)
    requires
        yoe <= 399,
        doy <= 365,
        doy == 365 ==> (yoe % 4 == 3 && (yoe % 100 != 99 || yoe % 400 == 399)),
    ensures
        ({
            let mp: u32 = ((5 * doy + 2) / 153) as u32;
            let d: u32 = (doy + 1 - (153 * mp + 2) / 5) as u32;
            let m: u32 = if mp < 10 { (mp + 3) as u32 } else { (mp - 9) as u32 };
            let y: u32 = if m <= 2 { (yoe + 1) as u32 } else { yoe };
            let len: u32 = if m == 2 {
                if (y % 4 == 0 && y % 100 != 0) || y % 400 == 0 { 29u32 } else { 28u32 }
            } else if m == 4 || m == 6 || m == 9 || m == 11 {
                30u32
            } else {
                31u32
            };
            &&& 1 <= m <= 12
            &&& 1 <= d <= len
        }),
{
}

/// Leap years up to a year of an era: `leaps_before` counts them before the year, and
/// with the year's own leap day they are the quarter years less the centuries, plus
/// year 0 of the era.
proof fn lemma_era_leaps(y: int)
    requires
        0 <= y <= 399,
    ensures
        ((y % 4 == 0 && y % 100 != 0) || y % 400 == 0) ==> (y + 3) / 4 - (y + 99) / 100 + (y + 399) / 400 + 1
            == y / 4 - y / 100 + 1,
        !((y % 4 == 0 && y % 100 != 0) || y % 400 == 0) ==> (y + 3) / 4 - (y + 99) / 100 + (y + 399) / 400
            == y / 4 - y / 100 + 1,
        (y + 4) / 4 - (y + 100) / 100 + (y + 400) / 400 == y / 4 - y / 100 + 1,
{
}

/// Gregorian leap year.
pub open spec fn is_leap(y: int) -> bool {
    (y % 4 == 0 && y % 100 != 0) || y % 400 == 0
}

/// Days in month `m` (1..=12) of year `y`.
pub open spec fn month_len(y: int, m: int) -> int {
    if m == 2 {
        if is_leap(y) { 29 } else { 28 }
    } else if m == 4 || m == 6 || m == 9 || m == 11 {
        30
    } else {
        31
    }
}

/// Days of year `y` before the first day of month `m` (1..=12).
pub open spec fn days_before_month(y: int, m: int) -> int {
    let base: int = if m == 1 {
        0
    } else if m == 2 {
        31
    } else if m == 3 {
        59
    } else if m == 4 {
        90
    } else if m == 5 {
        120
    } else if m == 6 {
        151
    } else if m == 7 {
        181
    } else if m == 8 {
        212
    } else if m == 9 {
        243
    } else if m == 10 {
        273
    } else if m == 11 {
        304
    } else {
        334
    };
    base + if m > 2 && is_leap(y) { 1int } else { 0int }
}

/// Leap years in `[0, y)`, counted negatively below zero.
pub open spec fn leaps_before(y: int) -> int {
    (y + 3) / 4 - (y + 99) / 100 + (y + 399) / 400
}

/// Days from 1970-01-01 to the date (y, m, d) of the proleptic Gregorian calendar.
pub open spec fn days_from_civil(y: int, m: int, d: int) -> int {
    365 * (y - 1970) + leaps_before(y) - leaps_before(1970) + days_before_month(y, m) + d - 1
}


proof fn lemma_era_shift(yy: int, e: int)
    ensures
        leaps_before(yy + 400 * e) == leaps_before(yy) + 97 * e,
        is_leap(yy + 400 * e) == is_leap(yy),
        forall|m: int| #[trigger] days_before_month(yy + 400 * e, m) == days_before_month(yy, m),
        forall|m: int| #[trigger] month_len(yy + 400 * e, m) == month_len(yy, m),
{
    assert((yy + 400 * e + 3) / 4 == (yy + 3) / 4 + 100 * e);
    assert((yy + 400 * e + 99) / 100 == (yy + 99) / 100 + 4 * e);
    assert((yy + 400 * e + 399) / 400 == (yy + 399) / 400 + e);
    assert((yy + 400 * e) % 4 == yy % 4);
    assert((yy + 400 * e) % 100 == yy % 100);
    assert((yy + 400 * e) % 400 == yy % 400);
}

/// Every day count since 1970-01-01 names a valid date of the proleptic Gregorian
/// calendar, and counting the days from 1970-01-01 to that date gives the count back.
pub proof fn lemma_civil_days(z: int)
    ensures
        ({
            let (y, m, d) = civil(z);
            &&& 1 <= m <= 12
            &&& 1 <= d <= month_len(y, m)
            &&& days_from_civil(y, m, d) == z
        }),
{
    let z2 = z + 719468;
    let era = z2 / 146097;
    let doe = z2 % 146097;
    assert(0 <= doe < 146097);
    assert(z2 == 146097 * era + doe);
    lemma_era_year(doe as u32);
    let yoe = (doe - doe / 1460 + doe / 36524 - doe / 146096) / 365;
    let doy = doe - (365 * yoe + yoe / 4 - yoe / 100);
    assert(0 <= yoe <= 399 && 0 <= doy <= 365);
    assert(doy == 365 ==> (yoe % 4 == 3 && (yoe % 100 != 99 || yoe % 400 == 399)));
    lemma_year_day(yoe as u32, doy as u32);
    let mp = (5 * doy + 2) / 153;
    let d = doy - (153 * mp + 2) / 5 + 1;
    let m = if mp < 10 { mp + 3 } else { mp - 9 };
    let yy = if m <= 2 { yoe + 1 } else { yoe };
    assert(0 <= mp <= 11);
    assert(civil(z) == (yy + 400 * era, m, d));
    lemma_era_shift(yy, era);
    lemma_era_leaps(yoe);
    assert(1 <= m <= 12 && 1 <= d <= month_len(yy, m));
    assert(365 * yy + leaps_before(yy) + days_before_month(yy, m) + d - 1 == doe + 60) by {
        if mp == 0 {} else if mp == 1 {} else if mp == 2 {} else if mp == 3 {} else if mp == 4 {}
        else if mp == 5 {} else if mp == 6 {} else if mp == 7 {} else if mp == 8 {} else if mp == 9 {}
        else if mp == 10 {} else {}
    }
    assert(leaps_before(1970) == 478);
}

/// `secs` since the epoch as `YYYY-MM-DD HH:MM` (UTC).
pub open spec fn timestamp_text(secs: int) -> Seq<char> {
    let days = secs / 86400;
    let rem = secs % 86400;
    let (y, mo, d) = civil(days);
    crate::text::pad0_signed(y, 4) + "-"@ + crate::text::pad0_signed(mo, 2) + "-"@ + crate::text::pad0_signed(d, 2) + " "@ + crate::text::pad0(
        (rem / 3600) as nat,
        2,
    ) + ":"@ + crate::text::pad0(((rem % 3600) / 60) as nat, 2)
}

/// Formats seconds since the epoch as a compact date, e.g. `2026-08-12 14:30`.
pub fn format_timestamp(secs: i64) -> (r: String)
    ensures
        r@ == timestamp_text(secs as int),
{
    let days = secs.checked_div_euclid(86400).unwrap();
    let rem = secs.checked_rem_euclid(86400).unwrap();
    let (y, mo, d) = civil_from_days(days);
    let mut out = String::new();
    push_pad0_signed(&mut out, y, 4);
    push_str(&mut out, "-");
    push_pad0_signed(&mut out, mo, 2);
    push_str(&mut out, "-");
    push_pad0_signed(&mut out, d, 2);
    push_str(&mut out, " ");
    push_pad0(&mut out, (rem / 3600) as u64, 2);
    push_str(&mut out, ":");
    push_pad0(&mut out, ((rem % 3600) / 60) as u64, 2);
    assert(out@ =~= timestamp_text(secs as int));
    out
}

/// A modification time as a compact date, or `before 1970` for earlier times.
pub open spec fn time_text(t: Timestamp) -> Seq<char> {
    if t.secs < 0 {
        "before 1970"@
    } else {
        timestamp_text(t.secs as int)
    }
}

/// Renders a file modification time as a compact date, e.g. `2026-08-12 14:30`.
pub fn format_time(time: Timestamp) -> (r: String)
    ensures
        r@ == time_text(time),
{
    if time.secs < 0 {
        "before 1970".to_owned()
    } else {
        format_timestamp(time.secs)
    }
}

/// `secs` since the epoch as `YYYY-MM-DDTHH:MM:SS`; times before the epoch count as the epoch.
pub open spec fn deletion_date_text(secs: int) -> Seq<char> {
    let s = if secs < 0 { 0 } else { secs };
    let days = s / 86400;
    let rem = s % 86400;
    let (y, mo, d) = civil(days);
    crate::text::pad0_signed(y, 4) + "-"@ + crate::text::pad0_signed(mo, 2) + "-"@ + crate::text::pad0_signed(d, 2) + "T"@ + crate::text::pad0(
        (rem / 3600) as nat,
        2,
    ) + ":"@ + crate::text::pad0(((rem % 3600) / 60) as nat, 2) + ":"@ + crate::text::pad0((rem % 60) as nat, 2)
}

proof fn lemma_pad2(n: nat)
    requires
        n < 100,
    ensures
        ({
            let p = crate::text::pad0(n, 2);
            &&& p.len() == 2
            &&& '0' <= p[0] <= '9' && '0' <= p[1] <= '9'
            &&& (p[0] as int - 48) * 10 + (p[1] as int - 48) == n
        }),
{
    reveal_with_fuel(crate::text::dec, 2);
    if n < 10 {
        assert(crate::text::dec(n) == seq![crate::text::digit_char(n)]);
        assert(crate::text::pad0(n, 2) =~= seq!['0', crate::text::digit_char(n)]);
    } else {
        assert(crate::text::dec(n / 10) == seq![crate::text::digit_char(n / 10)]);
        assert(crate::text::dec(n) =~= seq![crate::text::digit_char(n / 10), crate::text::digit_char(n % 10)]);
    }
}

proof fn lemma_clock(rem: int)
    requires
        0 <= rem < 86400,
    ensures
        0 <= rem / 3600 < 24,
        0 <= (rem % 3600) / 60 < 60,
        0 <= rem % 60 < 60,
        (rem / 3600) * 3600 + ((rem % 3600) / 60) * 60 + rem % 60 == rem,
{
}

/// The clock part of a deletion date after the date part `a`.
proof fn lemma_clock_text(a: Seq<char>, rem: int)
    requires
        0 <= rem < 86400,
    ensures
        ({
            let t = a + "T"@ + crate::text::pad0((rem / 3600) as nat, 2) + ":"@ + crate::text::pad0(
                ((rem % 3600) / 60) as nat,
                2,
            ) + ":"@ + crate::text::pad0((rem % 60) as nat, 2);
            let k = t.len() as int;
            let h = (t[k - 8] as int - 48) * 10 + (t[k - 7] as int - 48);
            let m = (t[k - 5] as int - 48) * 10 + (t[k - 4] as int - 48);
            let s = (t[k - 2] as int - 48) * 10 + (t[k - 1] as int - 48);
            &&& k >= 9
            &&& t[k - 9] == 'T' && t[k - 6] == ':' && t[k - 3] == ':'
            &&& '0' <= t[k - 8] <= '9' && '0' <= t[k - 7] <= '9'
            &&& '0' <= t[k - 5] <= '9' && '0' <= t[k - 4] <= '9'
            &&& '0' <= t[k - 2] <= '9' && '0' <= t[k - 1] <= '9'
            &&& 0 <= h < 24 && 0 <= m < 60 && 0 <= s < 60
            &&& h * 3600 + m * 60 + s == rem
        }),
{
    reveal_strlit("T");
    reveal_strlit(":");
    lemma_clock(rem);
    let hh = (rem / 3600) as nat;
    let mm = ((rem % 3600) / 60) as nat;
    let ss = (rem % 60) as nat;
    lemma_pad2(hh);
    lemma_pad2(mm);
    lemma_pad2(ss);
    let (ph, pm, ps) = (crate::text::pad0(hh, 2), crate::text::pad0(mm, 2), crate::text::pad0(ss, 2));
    let tail = seq!['T', ph[0], ph[1], ':', pm[0], pm[1], ':', ps[0], ps[1]];
    let t = a + "T"@ + ph + ":"@ + pm + ":"@ + ps;
    assert(t =~= a + tail);
    let k = t.len() as int;
    assert(k == a.len() + 9);
    assert forall|j: int| 0 <= j < 9 implies t[a.len() + j] == tail[j] by {}
    assert(t[k - 9] == tail[0] && t[k - 8] == tail[1] && t[k - 7] == tail[2]);
    assert(t[k - 6] == tail[3] && t[k - 5] == tail[4] && t[k - 4] == tail[5]);
    assert(t[k - 3] == tail[6] && t[k - 2] == tail[7] && t[k - 1] == tail[8]);
}

/// The time of day in a deletion date is a 24-hour clock: the text ends with
/// `Thh:mm:ss`, two decimal digits each, with hours below 24 and minutes and seconds
/// below 60, and reading them back gives the second of the day of the moment (of the
/// epoch for moments before it).
pub proof fn lemma_deletion_time_of_day(secs: int)
    ensures
        ({
            let t = deletion_date_text(secs);
            let k = t.len() as int;
            let h = (t[k - 8] as int - 48) * 10 + (t[k - 7] as int - 48);
            let m = (t[k - 5] as int - 48) * 10 + (t[k - 4] as int - 48);
            let s = (t[k - 2] as int - 48) * 10 + (t[k - 1] as int - 48);
            &&& k >= 9
            &&& t[k - 9] == 'T' && t[k - 6] == ':' && t[k - 3] == ':'
            &&& '0' <= t[k - 8] <= '9' && '0' <= t[k - 7] <= '9'
            &&& '0' <= t[k - 5] <= '9' && '0' <= t[k - 4] <= '9'
            &&& '0' <= t[k - 2] <= '9' && '0' <= t[k - 1] <= '9'
            &&& 0 <= h < 24 && 0 <= m < 60 && 0 <= s < 60
            &&& h * 3600 + m * 60 + s == (if secs < 0 { 0 } else { secs }) % 86400
        }),
{
    let x = if secs < 0 { 0 } else { secs };
    let rem = x % 86400;
    let (y, mo, d) = civil(x / 86400);
    let a = crate::text::pad0_signed(y, 4) + "-"@ + crate::text::pad0_signed(mo, 2) + "-"@ + crate::text::pad0_signed(d, 2);
    lemma_clock_text(a, rem);
}

/// The trash deletion date for a moment given as seconds since the epoch.
pub fn chrono_ish_timestamp(now_secs: i64) -> (r: String)
    ensures
        r@ == deletion_date_text(now_secs as int),
{
    let secs: i64 = if now_secs < 0 { 0 } else { now_secs };
    let days = secs / 86400;
    let rem = secs % 86400;
    let (y, mo, d) = civil_from_days(days);
    let mut out = String::new();
    push_pad0_signed(&mut out, y, 4);
    push_str(&mut out, "-");
    push_pad0_signed(&mut out, mo, 2);
    push_str(&mut out, "-");
    push_pad0_signed(&mut out, d, 2);
    push_str(&mut out, "T");
    push_pad0(&mut out, (rem / 3600) as u64, 2);
    push_str(&mut out, ":");
    push_pad0(&mut out, ((rem % 3600) / 60) as u64, 2);
    push_str(&mut out, ":");
    push_pad0(&mut out, (rem % 60) as u64, 2);
    assert(out@ =~= deletion_date_text(now_secs as int));
    out
}

/// How long ago something happened, coarsely: `just now`, minutes, hours or days.
pub open spec fn relative_text(secs: nat) -> Seq<char> {
    if secs < 60 {
        "just now"@
    } else if secs < 3600 {
        crate::text::dec(secs / 60) + "m ago"@
    } else if secs < 86400 {
        crate::text::dec(secs / 3600) + "h ago"@
    } else {
        crate::text::dec(secs / 86400) + "d ago"@
    }
}

/// Describes an age in seconds, e.g. `5m ago`.
pub fn relative_time(secs: u64) -> (r: String)
    ensures
        r@ == relative_text(secs as nat),
{
    let mut out = String::new();
    if secs < 60 {
        push_str(&mut out, "just now");
    } else if secs < 3600 {
        push_dec(&mut out, secs / 60);
        push_str(&mut out, "m ago");
    } else if secs < 86400 {
        push_dec(&mut out, secs / 3600);
        push_str(&mut out, "h ago");
    } else {
        push_dec(&mut out, secs / 86400);
        push_str(&mut out, "d ago");
    }
    out
}

} // verus!
