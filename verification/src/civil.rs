//! Conversion between civil calendar dates (proleptic Gregorian, UTC only)
//! and a linear count of seconds since 1970-01-01 00:00:00.
//!
//! Days are converted with the era-based civil-from-days scheme: the day
//! count is shifted so that it is measured from March 1 of year 0, split
//! into 400-year eras of 146097 days each, and the year, month and day are
//! recovered from the day-of-era by closed-form polynomials.  The month
//! numbering is March-based internally (March is month 0), so that the leap
//! day falls at the very end of the shifted year.

use vstd::arithmetic::div_mod::{
    lemma_div_is_ordered, lemma_fundamental_div_mod, lemma_fundamental_div_mod_converse,
};
use vstd::prelude::*;

verus! {

/// Seconds of the last representable instant of year 9999
/// (9999-12-31 23:59:59).
pub const MAX_CIVIL_EPOCH: u64 = 253_402_300_799;

/// Year of era picked for a day-of-era `doe` in `[0, 146097)`, by the
/// closed-form polynomial of the civil-from-days scheme.
pub open spec fn year_of_era_of(doe: int) -> int {
    (doe - doe / 1460 + doe / 36524 - doe / 146096) / 365
}

/// Days from March 1 of year-of-era 0 to March 1 of year-of-era `yoe`.
pub open spec fn days_before_year_of_era(yoe: int) -> int {
    365 * yoe + yoe / 4 - yoe / 100
}

/// Day of the shifted (March-based) year on which shifted month `mp` begins.
pub open spec fn days_before_month(mp: int) -> int {
    (153 * mp + 2) / 5
}

/// The calendar date reached `days` days after 1970-01-01, as
/// `(year, month, day)` with January-based months.
pub open spec fn civil_of_days(days: int) -> (int, int, int) {
    let z = days + 719468;
    let era = z / 146097;
    let doe = z % 146097;
    let yoe = year_of_era_of(doe);
    let doy = doe - days_before_year_of_era(yoe);
    let mp = (5 * doy + 2) / 153;
    let d = doy - days_before_month(mp) + 1;
    let m = if mp < 10 { mp + 3 } else { mp - 9 };
    let y = yoe + era * 400 + if m <= 2 { 1int } else { 0int };
    (y, m, d)
}

/// The `(year, month, day, hour, minute, second)` tuple reached `epoch`
/// seconds after 1970-01-01 00:00:00.
pub open spec fn civil_of_epoch(epoch: int) -> (int, int, int, int, int, int) {
    let ymd = civil_of_days(epoch / 86400);
    (ymd.0, ymd.1, ymd.2, (epoch / 3600) % 24, (epoch / 60) % 60, epoch % 60)
}

/// The syntactic range check applied to civil fields: months 1 to 12, days
/// 1 to 31 (with no per-month day-count validation), and in-range time of
/// day.  The year is deliberately unconstrained.
pub open spec fn civil_fields_in_range(y: int, m: int, d: int, hh: int, mm: int, ss: int) -> bool {
    &&& 1 <= m <= 12
    &&& 1 <= d <= 31
    &&& 0 <= hh <= 23
    &&& 0 <= mm <= 59
    &&& 0 <= ss <= 59
}

/// Seconds since 1970-01-01 00:00:00 of the civil tuple, as an unbounded
/// integer: negative for instants before 1970.  Defined for every tuple;
/// meaningful when the fields are in range and the year is positive.
pub open spec fn epoch_of_civil(y: int, m: int, d: int, hh: int, mm: int, ss: int) -> int {
    let yy = if m <= 2 { y - 1 } else { y };
    let mp = if m <= 2 { m + 9 } else { m - 3 };
    let era = yy / 400;
    let yoe = yy % 400;
    let doy = days_before_month(mp) + d - 1;
    let doe = days_before_year_of_era(yoe) + doy;
    (era * 146097 + doe - 719468) * 86400 + hh * 3600 + mm * 60 + ss
}

/// The year-of-era polynomial picks exactly the year that contains `doe`:
/// the year of era stays within the era and the remaining day-of-year is
/// between 0 and 365.
proof fn lemma_year_of_era_bounds(doe: u64)
    requires
        doe < 146097,
    ensures
        0 <= year_of_era_of(doe as int) <= 399,
        days_before_year_of_era(year_of_era_of(doe as int)) <= doe,
        doe - days_before_year_of_era(year_of_era_of(doe as int)) <= 365,
{
    let d = doe as u32;
    assert((d - d / 1460 + d / 36524 - d / 146096) / 365 <= 399 && 365 * ((d - d / 1460 + d / 36524
        - d / 146096) / 365) + ((d - d / 1460 + d / 36524 - d / 146096) / 365) / 4 - ((d - d / 1460
        + d / 36524 - d / 146096) / 365) / 100 <= d && d - (365 * ((d - d / 1460 + d / 36524 - d
        / 146096) / 365) + ((d - d / 1460 + d / 36524 - d / 146096) / 365) / 4 - ((d - d / 1460 + d
        / 36524 - d / 146096) / 365) / 100) <= 365) by (bit_vector)
        requires
            d < 146097,
    ;
}

/// The month polynomial splits a day-of-year in `[0, 365]` into a shifted
/// month `mp` in `[0, 11]` and a day-of-month in `[1, 31]`, and the month
/// start it subtracts never exceeds the day-of-year.
proof fn lemma_month_of_doy_bounds(doy: u64)
    requires
        doy <= 365,
    ensures
        0 <= (5 * doy as int + 2) / 153 <= 11,
        days_before_month((5 * doy as int + 2) / 153) <= doy,
        1 <= doy - days_before_month((5 * doy as int + 2) / 153) + 1 <= 31,
{
    let d = doy as u32;
    assert((5 * d + 2) / 153 <= 11 && (153 * ((5 * d + 2) / 153) + 2) / 5 <= d && d - (153 * ((5 * d
        + 2) / 153) + 2) / 5 + 1 <= 31) by (bit_vector)
        requires
            d <= 365,
    ;
}

/// An epoch-second count splits uniquely into whole days and an in-range
/// time of day, and the hour, minute and second fields recover exactly the
/// part of `epoch` below one day.
proof fn lemma_time_of_day(epoch: int)
    requires
        epoch >= 0,
    ensures
        0 <= (epoch / 3600) % 24 <= 23,
        0 <= (epoch / 60) % 60 <= 59,
        0 <= epoch % 60 <= 59,
        epoch == (epoch / 86400) * 86400 + ((epoch / 3600) % 24) * 3600 + ((epoch / 60) % 60) * 60
            + epoch % 60,
        epoch / 86400 >= 0,
{
    let a = epoch / 86400;
    let r = epoch % 86400;
    lemma_fundamental_div_mod(epoch, 86400);
    let b = r / 3600;
    let r2 = r % 3600;
    lemma_fundamental_div_mod(r, 3600);
    let c = r2 / 60;
    let s = r2 % 60;
    lemma_fundamental_div_mod(r2, 60);
    assert(b <= 23) by {
        lemma_div_is_ordered(r, 86399, 3600);
    }
    assert(c <= 59) by {
        lemma_div_is_ordered(r2, 3599, 60);
    }
    assert(epoch == (24 * a + b) * 3600 + r2);
    lemma_fundamental_div_mod_converse(epoch, 3600, 24 * a + b, r2);
    lemma_fundamental_div_mod_converse(24 * a + b, 24, a, b);
    assert(epoch == (1440 * a + 60 * b + c) * 60 + s);
    lemma_fundamental_div_mod_converse(epoch, 60, 1440 * a + 60 * b + c, s);
    lemma_fundamental_div_mod_converse(1440 * a + 60 * b + c, 60, 24 * a + b, c);
}

/// Convert seconds since the UNIX epoch to
/// `(year, month, day, hour, minute, second)` in UTC.
///
/// Every input yields a tuple whose fields pass the syntactic range check,
/// whose year is at least 1970, and which maps back to exactly the given
/// epoch; inputs up to the end of year 9999 stay below year 10000.
pub fn epoch_to_datetime(epoch: u64) -> (r: (u64, u64, u64, u64, u64, u64))
    ensures
        (r.0 as int, r.1 as int, r.2 as int, r.3 as int, r.4 as int, r.5 as int)
            == civil_of_epoch(epoch as int),
        civil_fields_in_range(r.0 as int, r.1 as int, r.2 as int, r.3 as int, r.4 as int,
            r.5 as int),
        r.0 >= 1970,
        epoch_of_civil(r.0 as int, r.1 as int, r.2 as int, r.3 as int, r.4 as int, r.5 as int)
            == epoch,
        epoch <= MAX_CIVIL_EPOCH ==> r.0 <= 9999,
{
    proof {
        lemma_civil_of_epoch_in_range(epoch);
        lemma_epoch_round_trip(epoch);
    }
    let sec = epoch % 60;
    let min = (epoch / 60) % 60;
    let hour = (epoch / 3600) % 24;
    let days = epoch / 86400;

    let z = days + 719_468;
    let era = z / 146_097;
    let doe = z % 146_097;
    proof {
        lemma_year_of_era_bounds(doe);
    }
    let yoe = (doe - doe / 1460 + doe / 36524 - doe / 146_096) / 365;
    let y = yoe + era * 400;
    let doy = doe - (365 * yoe + yoe / 4 - yoe / 100);
    proof {
        lemma_month_of_doy_bounds(doy);
    }
    let mp = (5 * doy + 2) / 153;
    let d = doy - (153 * mp + 2) / 5 + 1;
    let m = if mp < 10 {
        mp + 3
    } else {
        mp - 9
    };
    let y = if m <= 2 {
        y + 1
    } else {
        y
    };

    (y, m, d, hour, min, sec)
}

/// The fields produced by `civil_of_epoch` always pass the syntactic range
/// check, the year is at least 1970, and epochs up to `MAX_CIVIL_EPOCH`
/// stay below year 10000.
pub proof fn lemma_civil_of_epoch_in_range(epoch: u64)
    ensures
        ({
            let c = civil_of_epoch(epoch as int);
            &&& civil_fields_in_range(c.0, c.1, c.2, c.3, c.4, c.5)
            &&& c.0 >= 1970
            &&& epoch <= MAX_CIVIL_EPOCH ==> c.0 <= 9999
        }),
{
    let e = epoch as int;
    lemma_time_of_day(e);
    let days = e / 86400;
    let z = days + 719468;
    let era = z / 146097;
    let doe = z % 146097;
    lemma_fundamental_div_mod(z, 146097);
    assert(0 <= doe < 146097);
    let yoe = year_of_era_of(doe);
    let doy = doe - days_before_year_of_era(yoe);
    lemma_year_of_era_bounds(doe as u64);
    let mp = (5 * doy + 2) / 153;
    lemma_month_of_doy_bounds(doy as u64);
    let m = if mp < 10 { mp + 3 } else { mp - 9 };
    let y = yoe + era * 400 + if m <= 2 { 1int } else { 0int };
    assert(1 <= m <= 12);

    // Year lower bound: days >= 0 puts the date at or after 1970-01-01.
    assert(era >= 4) by {
        lemma_div_is_ordered(584388, z, 146097);
    }
    if era == 4 {
        assert(doe == z - 4 * 146097);
        assert(doe >= 135080);
        if yoe <= 368 {
            // The whole year of era would then end before day 135080.
            assert(365 * yoe <= 365 * 368);
            assert(yoe / 4 <= 92) by {
                lemma_div_is_ordered(yoe, 368, 4);
            }
            assert(yoe / 100 >= 0);
            assert(doe <= days_before_year_of_era(yoe) + 365);
            assert(false);
        }
        if yoe == 369 {
            assert(days_before_year_of_era(369) == 365 * 369 + 92 - 3);
            assert(doy >= 306);
            assert(mp >= 10) by {
                lemma_div_is_ordered(1532, 5 * doy + 2, 153);
            }
            assert(m <= 2);
            assert(y == 1970);
        } else {
            assert(yoe >= 370);
            assert(y >= 1970);
        }
    } else {
        assert(era >= 5);
        assert(y >= 2000);
    }

    // Year upper bound for epochs within year 9999.
    if epoch <= MAX_CIVIL_EPOCH {
        assert(days <= 2932896) by {
            lemma_div_is_ordered(e, 253402300799, 86400);
        }
        assert(z <= 3652364);
        assert(era <= 24) by {
            lemma_div_is_ordered(z, 3652364, 146097);
        }
        if era == 24 {
            assert(doe == z - 24 * 146097);
            assert(doe <= 146036);
            if yoe == 399 {
                assert(days_before_year_of_era(399) == 365 * 399 + 99 - 3);
                assert(doy <= 305);
                assert(mp <= 9) by {
                    lemma_div_is_ordered(5 * doy + 2, 1527, 153);
                }
                assert(m >= 3);
                assert(y == 9999);
            } else {
                assert(y <= 9999);
            }
        } else {
            assert(y <= 9600);
        }
    }
}

/// Round trip: converting an epoch to a civil tuple and back yields the
/// same epoch, for every epoch-second count.
pub proof fn lemma_epoch_round_trip(epoch: u64)
    ensures
        ({
            let c = civil_of_epoch(epoch as int);
            epoch_of_civil(c.0, c.1, c.2, c.3, c.4, c.5) == epoch
        }),
{
    let e = epoch as int;
    lemma_time_of_day(e);
    let days = e / 86400;
    let z = days + 719468;
    let era = z / 146097;
    let doe = z % 146097;
    lemma_fundamental_div_mod(z, 146097);
    assert(0 <= doe < 146097);
    let yoe = year_of_era_of(doe);
    let doy = doe - days_before_year_of_era(yoe);
    lemma_year_of_era_bounds(doe as u64);
    let mp = (5 * doy + 2) / 153;
    lemma_month_of_doy_bounds(doy as u64);
    let d = doy - days_before_month(mp) + 1;
    let m = if mp < 10 { mp + 3 } else { mp - 9 };
    let y0 = yoe + era * 400;
    let c = civil_of_epoch(e);
    assert(c.1 == m && c.2 == d);
    assert(c.0 == y0 + if m <= 2 { 1int } else { 0int });

    // The inverse transform undoes the January/March shift exactly.
    let yy = if c.1 <= 2 { c.0 - 1 } else { c.0 };
    let mp_back = if c.1 <= 2 { c.1 + 9 } else { c.1 - 3 };
    assert(yy == y0);
    assert(mp_back == mp);
    lemma_fundamental_div_mod_converse(yy, 400, era, yoe);
    assert(yy / 400 == era && yy % 400 == yoe);
    assert(days_before_month(mp_back) + d - 1 == doy);
    assert(days_before_year_of_era(yoe) + doy == doe);
    assert(era * 146097 + doe - 719468 == days);
    assert(epoch_of_civil(c.0, c.1, c.2, c.3, c.4, c.5) == days * 86400 + c.3 * 3600 + c.4 * 60
        + c.5);
}

/// Strict lexicographic order on civil tuples: by year, then month, day,
/// hour, minute and second.
pub open spec fn civil_lt(
    a: (int, int, int, int, int, int),
    b: (int, int, int, int, int, int),
) -> bool {
    ||| a.0 < b.0
    ||| (a.0 == b.0 && a.1 < b.1)
    ||| (a.0 == b.0 && a.1 == b.1 && a.2 < b.2)
    ||| (a.0 == b.0 && a.1 == b.1 && a.2 == b.2 && a.3 < b.3)
    ||| (a.0 == b.0 && a.1 == b.1 && a.2 == b.2 && a.3 == b.3 && a.4 < b.4)
    ||| (a.0 == b.0 && a.1 == b.1 && a.2 == b.2 && a.3 == b.3 && a.4 == b.4 && a.5 < b.5)
}

/// Two successive years of era begin at least 365 days apart.
proof fn lemma_days_before_year_of_era_gap(a: u64, b: u64)
    requires
        a < b,
        b <= 399,
    ensures
        days_before_year_of_era(a as int) + 365 <= days_before_year_of_era(b as int),
{
    let x = a as u32;
    let y = b as u32;
    assert(365 * x + x / 4 - x / 100 + 365 <= 365 * y + y / 4 - y / 100) by (bit_vector)
        requires
            x < y,
            y <= 399,
    ;
}

/// Later day counts map to later calendar dates, in the lexicographic
/// order on (year, month, day).
proof fn lemma_civil_of_days_monotone(days1: int, days2: int)
    requires
        0 <= days1 < days2,
    ensures
        ({
            let t1 = civil_of_days(days1);
            let t2 = civil_of_days(days2);
            t1.0 < t2.0 || (t1.0 == t2.0 && t1.1 < t2.1) || (t1.0 == t2.0 && t1.1 == t2.1 && t1.2
                < t2.2)
        }),
{
    let z1 = days1 + 719468;
    let z2 = days2 + 719468;
    let era1 = z1 / 146097;
    let doe1 = z1 % 146097;
    let era2 = z2 / 146097;
    let doe2 = z2 % 146097;
    lemma_fundamental_div_mod(z1, 146097);
    lemma_fundamental_div_mod(z2, 146097);
    lemma_div_is_ordered(z1, z2, 146097);
    assert(0 <= doe1 < 146097 && 0 <= doe2 < 146097);
    let yoe1 = year_of_era_of(doe1);
    let yoe2 = year_of_era_of(doe2);
    lemma_year_of_era_bounds(doe1 as u64);
    lemma_year_of_era_bounds(doe2 as u64);
    let doy1 = doe1 - days_before_year_of_era(yoe1);
    let doy2 = doe2 - days_before_year_of_era(yoe2);
    let mp1 = (5 * doy1 + 2) / 153;
    let mp2 = (5 * doy2 + 2) / 153;
    lemma_month_of_doy_bounds(doy1 as u64);
    lemma_month_of_doy_bounds(doy2 as u64);
    let sy1 = era1 * 400 + yoe1;
    let sy2 = era2 * 400 + yoe2;

    if era1 == era2 {
        assert(doe1 < doe2);
        // The year of era cannot go down: the whole year starting at a
        // larger year of era would lie beyond `doe2`.
        if yoe1 > yoe2 {
            lemma_days_before_year_of_era_gap(yoe2 as u64, yoe1 as u64);
            assert(doe2 <= days_before_year_of_era(yoe2) + 365);
            assert(doe1 >= days_before_year_of_era(yoe1));
            assert(false);
        }
        if yoe1 == yoe2 {
            assert(doy1 < doy2);
            assert(mp1 <= mp2) by {
                lemma_div_is_ordered(5 * doy1 + 2, 5 * doy2 + 2, 153);
            }
        } else {
            assert(sy1 < sy2);
        }
    } else {
        assert(era1 < era2);
        assert(sy1 < sy2);
    }
    lemma_shift_to_civil_order(sy1, mp1, doy1 - days_before_month(mp1) + 1, sy2, mp2, doy2
        - days_before_month(mp2) + 1);
}

/// The March-based (shifted year, shifted month, day) order carries over
/// to the January-based (year, month, day) order: unrotating the last two
/// months of the shifted year into the next civil year preserves order.
proof fn lemma_shift_to_civil_order(sy1: int, mp1: int, d1: int, sy2: int, mp2: int, d2: int)
    requires
        0 <= mp1 <= 11,
        0 <= mp2 <= 11,
        sy1 < sy2 || (sy1 == sy2 && mp1 < mp2) || (sy1 == sy2 && mp1 == mp2 && d1 < d2),
    ensures
        ({
            let m1 = if mp1 < 10 { mp1 + 3 } else { mp1 - 9 };
            let m2 = if mp2 < 10 { mp2 + 3 } else { mp2 - 9 };
            let y1 = sy1 + if m1 <= 2 { 1int } else { 0int };
            let y2 = sy2 + if m2 <= 2 { 1int } else { 0int };
            y1 < y2 || (y1 == y2 && m1 < m2) || (y1 == y2 && m1 == m2 && d1 < d2)
        }),
{
}

/// Later instants map to later civil tuples, lexicographically.
pub proof fn lemma_civil_of_epoch_monotone(e1: int, e2: int)
    requires
        0 <= e1 < e2,
    ensures
        civil_lt(civil_of_epoch(e1), civil_of_epoch(e2)),
{
    lemma_time_of_day(e1);
    lemma_time_of_day(e2);
    let days1 = e1 / 86400;
    let days2 = e2 / 86400;
    lemma_div_is_ordered(e1, e2, 86400);
    if days1 < days2 {
        lemma_civil_of_days_monotone(days1, days2);
    } else {
        // Same day: the time-of-day fields decide, and they compare like
        // a three-digit positional number.
        let c1 = civil_of_epoch(e1);
        let c2 = civil_of_epoch(e2);
        assert(c1.3 * 3600 + c1.4 * 60 + c1.5 < c2.3 * 3600 + c2.4 * 60 + c2.5);
        assert(c1.3 <= c2.3);
        if c1.3 == c2.3 {
            assert(c1.4 <= c2.4);
        }
    }
}

/// Convert a civil tuple to seconds since the UNIX epoch.
///
/// Returns `None` when a field fails the syntactic range check (months
/// outside 1..=12, days outside 1..=31, hour above 23, minute or second
/// above 59 — day counts are deliberately not validated against the
/// month), when the instant lies before 1970, or when the second count
/// does not fit in a `u64`.
pub fn civil_to_epoch(year: u64, month: u64, day: u64, hour: u64, minute: u64, second: u64) -> (r:
    Option<u64>)
    ensures
        ({
            let e = epoch_of_civil(year as int, month as int, day as int, hour as int,
                minute as int, second as int);
            if civil_fields_in_range(year as int, month as int, day as int, hour as int,
                minute as int, second as int) && !(year == 0 && month <= 2) && 0 <= e <= u64::MAX
                 as int {
                r == Some(e as u64)
            } else {
                r is None
            }
        }),
{
    if !(1 <= month && month <= 12 && 1 <= day && day <= 31 && hour <= 23 && minute <= 59 && second
        <= 59) {
        return None;
    }
    let (yy, mp): (u64, u64) = if month <= 2 {
        if year == 0 {
            return None;
        }
        (year - 1, month + 9)
    } else {
        (year, month - 3)
    };
    let era: u128 = (yy as u128) / 400;
    let yoe: u128 = (yy as u128) % 400;
    let doy: u128 = (153 * (mp as u128) + 2) / 5 + (day as u128) - 1;
    let doe: u128 = 365 * yoe + yoe / 4 - yoe / 100 + doy;
    let days_from_ref: u128 = era * 146_097 + doe;
    if days_from_ref < 719_468 {
        // The instant lies before 1970-01-01.
        proof {
            lemma_epoch_of_civil_negative(year as int, month as int, day as int, hour as int,
                minute as int, second as int);
        }
        return None;
    }
    let days: u128 = days_from_ref - 719_468;
    let total: u128 = days * 86_400 + (hour as u128) * 3600 + (minute as u128) * 60 + (
    second as u128);
    if total > u64::MAX as u128 {
        return None;
    }
    Some(total as u64)
}

/// When the shifted day count stays below the epoch shift, the signed
/// epoch formula is negative.
proof fn lemma_epoch_of_civil_negative(y: int, m: int, d: int, hh: int, mm: int, ss: int)
    requires
        civil_fields_in_range(y, m, d, hh, mm, ss),
        y >= 1 || m >= 3,
        ({
            let yy = if m <= 2 { y - 1 } else { y };
            let mp = if m <= 2 { m + 9 } else { m - 3 };
            (yy / 400) * 146097 + days_before_year_of_era(yy % 400) + days_before_month(mp) + d - 1
                < 719468
        }),
    ensures
        epoch_of_civil(y, m, d, hh, mm, ss) < 0,
{
    let yy = if m <= 2 { y - 1 } else { y };
    let mp = if m <= 2 { m + 9 } else { m - 3 };
    let days = (yy / 400) * 146097 + days_before_year_of_era(yy % 400) + days_before_month(mp) + d
        - 1 - 719468;
    assert(days <= -1);
    assert(days * 86400 <= -86400);
    assert(epoch_of_civil(y, m, d, hh, mm, ss) <= days * 86400 + 23 * 3600 + 59 * 60 + 59);
}

} // verus!
