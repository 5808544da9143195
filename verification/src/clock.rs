//! Calendar date and time of day (UTC) of a moment, for clock replies.

use vstd::prelude::*;
use vstd::arithmetic::div_mod::{lemma_fundamental_div_mod, lemma_fundamental_div_mod_converse};

verus! {

/// Leap year of the Gregorian calendar.
pub open spec fn is_leap(y: int) -> bool {
    (y % 4 == 0 && y % 100 != 0) || y % 400 == 0
}

pub open spec fn year_len(y: int) -> int {
    if is_leap(y) {
        366
    } else {
        365
    }
}

/// Days in month `m` (1 to 12) of year `y`.
pub open spec fn month_len(y: int, m: int) -> int {
    if m == 2 {
        if is_leap(y) {
            29
        } else {
            28
        }
    } else if m == 4 || m == 6 || m == 9 || m == 11 {
        30
    } else {
        31
    }
}

/// Days from 1970-01-01 to January 1 of year `y` (from 1970 on).
pub open spec fn days_to_year(y: int) -> int
    decreases y - 1970,
{
    if y <= 1970 {
        0
    } else {
        days_to_year(y - 1) + year_len(y - 1)
    }
}

/// Days from January 1 to the first day of month `m` of year `y`.
pub open spec fn days_to_month(y: int, m: int) -> int
    decreases m,
{
    if m <= 1 {
        0
    } else {
        days_to_month(y, m - 1) + month_len(y, m - 1)
    }
}

/// A calendar date with a time of day.
#[derive(Clone, Copy, Debug, PartialEq, Eq, Structural)]
pub struct CivilTime {
    pub year: u64,
    pub month: u32,
    pub day: u32,
    pub hour: u32,
    pub minute: u32,
    pub second: u32,
}

/// `t` is the moment `secs` seconds after 1970-01-01 00:00:00 UTC: a valid
/// date that many whole days after 1970-01-01, and the time of day of the
/// remaining seconds.
pub open spec fn is_moment(t: CivilTime, secs: nat) -> bool {
    &&& t.year >= 1970
    &&& 1 <= t.month <= 12
    &&& 1 <= t.day <= month_len(t.year as int, t.month as int)
    &&& days_to_year(t.year as int) + days_to_month(t.year as int, t.month as int) + t.day - 1 == secs / 86400
    &&& t.hour * 3600 + t.minute * 60 + t.second == secs % 86400
    &&& t.minute < 60
    &&& t.second < 60
}

/// Leap days among the years 1 to `x`.
spec fn leaps(x: int) -> int {
    x / 4 - x / 100 + x / 400
}

/// Days before March 1 of year `yoe` of a 400-year era of March-based years.
spec fn era_days(yoe: int) -> int {
    365 * yoe + yoe / 4 - yoe / 100
}

/// Days before the first of month `mp` of a March-based year (0 is March).
spec fn march_days(mp: int) -> int {
    if mp == 0 {
        0
    } else if mp == 1 {
        31
    } else if mp == 2 {
        61
    } else if mp == 3 {
        92
    } else if mp == 4 {
        122
    } else if mp == 5 {
        153
    } else if mp == 6 {
        184
    } else if mp == 7 {
        214
    } else if mp == 8 {
        245
    } else if mp == 9 {
        275
    } else if mp == 10 {
        306
    } else {
        337
    }
}

/// Days before the first of month `m` in a common year.
spec fn common_days(m: int) -> int {
    if m == 1 {
        0
    } else if m == 2 {
        31
    } else if m == 3 {
        59
    } else if m == 4 {
        90
    } else if m == 5 {
        120
    } else if m == 6 {
        151
    } else if m == 7 {
        181
    } else if m == 8 {
        212
    } else if m == 9 {
        243
    } else if m == 10 {
        273
    } else if m == 11 {
        304
    } else {
        334
    }
}

proof fn lemma_year_of_era(doe: u32)
    requires
        doe < 146097,
    ensures
        ({
            let yoe = (doe - doe / 1460 + doe / 36524 - doe / 146096) / 365;
            &&& 0 <= yoe <= 399
            &&& 365 * yoe + yoe / 4 - yoe / 100 <= doe
            &&& doe - (365 * yoe + yoe / 4 - yoe / 100) <= 364 + (if (yoe + 1) % 4 == 0 && ((yoe + 1) % 100 != 0 || yoe == 399) { 1int } else { 0int })
            &&& doe >= 135080 ==> yoe >= 369
        }),
{
    assert({
        let yoe = ((doe - doe / 1460 + doe / 36524 - doe / 146096) / 365) as u32;
        &&& yoe <= 399
        &&& 365 * yoe + yoe / 4 - yoe / 100 <= doe
        &&& doe - (365 * yoe + yoe / 4 - yoe / 100) <= 364 + (if (yoe + 1) % 4 == 0 && ((yoe + 1) % 100 != 0 || yoe == 399) { 1u32 } else { 0u32 })
        &&& doe >= 135080 ==> yoe >= 369
    }) by (bit_vector)
        requires
            doe < 146097,
    ;
    assert(doe - doe / 1460 + doe / 36524 - doe / 146096 >= 0);
    assert((doe - doe / 1460 + doe / 36524 - doe / 146096) / 365 < 0x1_0000_0000);
}

proof fn lemma_day_of_year(doy: u32)
    requires
        doy <= 365,
    ensures
        ({
            let mp = (5 * doy + 2) / 153;
            let s = (153 * mp + 2) / 5;
            &&& 0 <= mp <= 11
            &&& s == march_days(mp)
            &&& s <= doy
            &&& mp == 0 ==> doy - s < 31
            &&& mp == 1 ==> doy - s < 30
            &&& mp == 2 ==> doy - s < 31
            &&& mp == 3 ==> doy - s < 30
            &&& mp == 4 ==> doy - s < 31
            &&& mp == 5 ==> doy - s < 31
            &&& mp == 6 ==> doy - s < 30
            &&& mp == 7 ==> doy - s < 31
            &&& mp == 8 ==> doy - s < 30
            &&& mp == 9 ==> doy - s < 31
            &&& mp == 10 ==> doy - s < 31
            &&& mp == 11 ==> (doy - s < 28 || doy == 365)
            &&& doy >= 306 ==> mp >= 10
        }),
{
    assert({
        let mp = ((5 * doy + 2) / 153) as u32;
        let s = ((153 * mp + 2) / 5) as u32;
        &&& mp <= 11
        &&& s <= doy
        &&& mp == 0 ==> s == 0 && doy - s < 31
        &&& mp == 1 ==> s == 31 && doy - s < 30
        &&& mp == 2 ==> s == 61 && doy - s < 31
        &&& mp == 3 ==> s == 92 && doy - s < 30
        &&& mp == 4 ==> s == 122 && doy - s < 31
        &&& mp == 5 ==> s == 153 && doy - s < 31
        &&& mp == 6 ==> s == 184 && doy - s < 30
        &&& mp == 7 ==> s == 214 && doy - s < 31
        &&& mp == 8 ==> s == 245 && doy - s < 30
        &&& mp == 9 ==> s == 275 && doy - s < 31
        &&& mp == 10 ==> s == 306 && doy - s < 31
        &&& mp == 11 ==> s == 337 && (doy - s < 28 || doy == 365)
        &&& doy >= 306 ==> mp >= 10
    }) by (bit_vector)
        requires
            doy <= 365,
    ;
}

/// `x / k` steps up by one exactly where `k` divides `x`.
proof fn lemma_div_step(x: int, k: int)
    requires
        x >= 1,
        k >= 1,
    ensures
        x / k - (x - 1) / k == if x % k == 0 {
            1int
        } else {
            0int
        },
{
    lemma_fundamental_div_mod(x - 1, k);
    let q = (x - 1) / k;
    let r = (x - 1) % k;
    if r == k - 1 {
        assert(x == (q + 1) * k + 0) by (nonlinear_arith)
            requires
                x - 1 == k * q + r,
                r == k - 1,
        ;
        lemma_fundamental_div_mod_converse(x, k, q + 1, 0);
    } else {
        assert(x == q * k + (r + 1)) by (nonlinear_arith)
            requires
                x - 1 == k * q + r,
        ;
        lemma_fundamental_div_mod_converse(x, k, q, r + 1);
    }
}

/// Leap days up to `x` grow by one exactly in leap years.
proof fn lemma_leaps_step(x: int)
    requires
        x >= 1,
    ensures
        leaps(x) - leaps(x - 1) == if is_leap(x) {
            1int
        } else {
            0int
        },
{
    lemma_div_step(x, 4);
    lemma_div_step(x, 100);
    lemma_div_step(x, 400);
    if x % 100 == 0 {
        lemma_fundamental_div_mod(x, 100);
        let q = x / 100;
        lemma_fundamental_div_mod_converse(x, 4, 25 * q, 0);
    }
    if x % 400 == 0 {
        lemma_fundamental_div_mod(x, 400);
        let q = x / 400;
        lemma_fundamental_div_mod_converse(x, 100, 4 * q, 0);
    }
}

/// Days before a year, in closed form.
proof fn lemma_days_to_year(y: int)
    requires
        y >= 1970,
    ensures
        days_to_year(y) == 365 * (y - 1970) + leaps(y - 1) - 477,
    decreases y - 1970,
{
    if y > 1970 {
        lemma_days_to_year(y - 1);
        lemma_leaps_step(y - 1);
    }
}

/// Days before a month, in closed form.
proof fn lemma_days_to_month(y: int, m: int)
    requires
        1 <= m <= 12,
    ensures
        days_to_month(y, m) == common_days(m) + if m > 2 && is_leap(y) {
            1int
        } else {
            0int
        },
    decreases m,
{
    if m > 1 {
        lemma_days_to_month(y, m - 1);
    }
}

/// The March-based year `400 * era + yoe` starts `365 * year + leaps(year)`
/// days after March 1 of year 0.
proof fn lemma_era_start(era: int, yoe: int)
    requires
        era >= 0,
        0 <= yoe <= 399,
    ensures
        365 * (400 * era + yoe) + leaps(400 * era + yoe) == 146097 * era + era_days(yoe),
{
    let y = 400 * era + yoe;
    lemma_fundamental_div_mod(yoe, 4);
    lemma_fundamental_div_mod(yoe, 100);
    lemma_fundamental_div_mod_converse(y, 4, 100 * era + yoe / 4, yoe % 4);
    lemma_fundamental_div_mod_converse(y, 100, 4 * era + yoe / 100, yoe % 100);
    lemma_fundamental_div_mod_converse(y, 400, era, yoe);
}

/// The year after March-based year `400 * era + yoe` is a leap year when
/// the era's year count says so.
proof fn lemma_next_leap(era: int, yoe: int)
    requires
        era >= 0,
        0 <= yoe <= 399,
        (yoe + 1) % 4 == 0 && ((yoe + 1) % 100 != 0 || yoe == 399),
    ensures
        is_leap(400 * era + yoe + 1),
{
    let y = 400 * era + yoe + 1;
    if yoe == 399 {
        lemma_fundamental_div_mod_converse(y, 400, era + 1, 0);
    } else {
        lemma_fundamental_div_mod(yoe + 1, 4);
        lemma_fundamental_div_mod(yoe + 1, 100);
        lemma_fundamental_div_mod_converse(y, 4, 100 * era + (yoe + 1) / 4, (yoe + 1) % 4);
        lemma_fundamental_div_mod_converse(y, 100, 4 * era + (yoe + 1) / 100, (yoe + 1) % 100);
    }
}

/// The calendar date and time of day (UTC) `secs` seconds after
/// 1970-01-01 00:00:00.
pub fn civil_time(secs: u64) -> (r: CivilTime)
    ensures
        is_moment(r, secs as nat),
{
    let days: u64 = secs / 86400;
    let tod: u64 = secs % 86400;
    let hour: u64 = tod / 3600;
    let minute: u64 = (tod % 3600) / 60;
    let second: u64 = tod % 60;
    let z: u64 = days + 719468;
    let era: u64 = z / 146097;
    let doe: u64 = z - era * 146097;
    proof {
        lemma_year_of_era(doe as u32);
    }
    let yoe: u64 = (doe - doe / 1460 + doe / 36524 - doe / 146096) / 365;
    let y0: u64 = yoe + era * 400;
    let doy: u64 = doe - (365 * yoe + yoe / 4 - yoe / 100);
    proof {
        lemma_day_of_year(doy as u32);
    }
    let mp: u64 = (5 * doy + 2) / 153;
    let d: u64 = doy - (153 * mp + 2) / 5 + 1;
    let m: u64 = if mp < 10 {
        mp + 3
    } else {
        mp - 9
    };
    let y: u64 = if m <= 2 {
        y0 + 1
    } else {
        y0
    };
    proof {
        lemma_date(days as int, era as int, yoe as int, doy as int, mp as int, d as int, m as int, y as int);
        lemma_fundamental_div_mod(tod as int, 3600);
        lemma_fundamental_div_mod((tod % 3600) as int, 60);
        lemma_fundamental_div_mod(tod as int, 60);
        lemma_fundamental_div_mod_converse(tod as int, 60, 60 * hour + minute, ((tod % 3600) % 60) as int);
    }
    CivilTime { year: y, month: m as u32, day: d as u32, hour: hour as u32, minute: minute as u32, second: second as u32 }
}

/// The date the era arithmetic arrives at is the date `days` days after
/// 1970-01-01.
proof fn lemma_date(days: int, era: int, yoe: int, doy: int, mp: int, d: int, m: int, y: int)
    requires
        days >= 0,
        era == (days + 719468) / 146097,
        0 <= yoe <= 399,
        days + 719468 - 146097 * era == era_days(yoe) + doy,
        0 <= doy,
        doy <= 364 + (if (yoe + 1) % 4 == 0 && ((yoe + 1) % 100 != 0 || yoe == 399) { 1int } else { 0int }),
        days + 719468 - 146097 * era >= 135080 ==> yoe >= 369,
        0 <= mp <= 11,
        d == doy - march_days(mp) + 1,
        march_days(mp) <= doy,
        mp == 0 ==> doy - march_days(mp) < 31,
        mp == 1 ==> doy - march_days(mp) < 30,
        mp == 2 ==> doy - march_days(mp) < 31,
        mp == 3 ==> doy - march_days(mp) < 30,
        mp == 4 ==> doy - march_days(mp) < 31,
        mp == 5 ==> doy - march_days(mp) < 31,
        mp == 6 ==> doy - march_days(mp) < 30,
        mp == 7 ==> doy - march_days(mp) < 31,
        mp == 8 ==> doy - march_days(mp) < 30,
        mp == 9 ==> doy - march_days(mp) < 31,
        mp == 10 ==> doy - march_days(mp) < 31,
        mp == 11 ==> (doy - march_days(mp) < 28 || doy == 365),
        doy >= 306 ==> mp >= 10,
        m == if mp < 10 {
            mp + 3
        } else {
            mp - 9
        },
        y == if m <= 2 {
            yoe + 400 * era + 1
        } else {
            yoe + 400 * era
        },
    ensures
        y >= 1970,
        1 <= m <= 12,
        1 <= d <= month_len(y, m),
        days_to_year(y) + days_to_month(y, m) + d - 1 == days,
{
    let z = days + 719468;
    let yp = 400 * era + yoe;
    lemma_fundamental_div_mod(z, 146097);
    lemma_era_start(era, yoe);
    assert(z == 365 * yp + leaps(yp) + doy);
    assert(era >= 4);
    assert(yp >= 1969);
    assert(yp == 1969 ==> mp >= 10) by {
        if yp == 1969 {
            assert(era == 4 && yoe == 369);
            assert(era_days(369) == 134774);
        }
    }
    lemma_days_to_month(y, m);
    if mp < 10 {
        assert(yp >= 1970);
        lemma_days_to_year(yp);
        lemma_leaps_step(yp);
    } else {
        lemma_days_to_year(yp + 1);
        if mp == 11 && doy == 365 {
            lemma_next_leap(era, yoe);
        }
    }
}

} // verus!
