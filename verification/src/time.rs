//! Reading the times the inputs carry.
//!
//! The planner never asks what time it is: a deadline arrives as a field, and
//! how old a window is, is measured against the invalidation that names it. So
//! all that is needed is to read what the documents say.

use vstd::prelude::*;
use vstd::utf8::encode_utf8;

use crate::text::{
    ascii_bytes, boundary, field, is_boundary, is_dec_digit, padded, push_char, push_padded,
    read_field, tail,
};

verus! {

// ---------------------------------------------------------------------------
// The calendar.
// ---------------------------------------------------------------------------

/// Days since 1970-01-01 for a proleptic Gregorian date, by Howard Hinnant's
/// `days_from_civil`: the year is shifted to start in March, so that the
/// leap day falls last.
pub open spec fn civil_days(year: int, month: int, day: int) -> int {
    let y = year - (if month <= 2 {
        1int
    } else {
        0
    });
    let era = y / 400;
    let yoe = y - era * 400;
    let mp = month + (if month > 2 {
        -3int
    } else {
        9
    });
    let doy = (153 * mp + 2) / 5 + day - 1;
    let doe = yoe * 365 + yoe / 4 - yoe / 100 + doy;
    era * 146097 + doe - 719468
}

/// Every step of [`civil_days`] stays within an `i64`.
pub open spec fn civil_days_fits(year: int, month: int, day: int) -> bool {
    let y = year - (if month <= 2 {
        1int
    } else {
        0
    });
    let era = y / 400;
    let yoe = y - era * 400;
    let mp = month + (if month > 2 {
        -3int
    } else {
        9
    });
    let doy = (153 * mp + 2) / 5 + day - 1;
    let doe = yoe * 365 + yoe / 4 - yoe / 100 + doy;
    &&& y >= i64::MIN + 399
    &&& i64::MIN <= era * 146097 <= i64::MAX
    &&& i64::MIN <= era * 146097 + doe <= i64::MAX
    &&& i64::MIN <= era * 146097 + doe - 719468 <= i64::MAX
}

/// The date `days` after 1970-01-01, as `(year, month, day)`: Hinnant's
/// `civil_from_days`, the inverse of [`civil_days`].
pub open spec fn civil_of(days: int) -> (int, int, int) {
    let z = days + 719468;
    let era = z / 146097;
    let doe = z - era * 146097;
    let yoe = (doe - doe / 1460 + doe / 36524 - doe / 146096) / 365;
    let y = yoe + era * 400;
    let doy = doe - (365 * yoe + yoe / 4 - yoe / 100);
    let mp = (5 * doy + 2) / 153;
    let d = doy - (153 * mp + 2) / 5 + 1;
    let m = if mp < 10 {
        mp + 3
    } else {
        mp - 9
    };
    (y + (if m <= 2 {
        1int
    } else {
        0
    }), m, d)
}

/// A date written `YYYY-MM-DD`, each field zero-padded as `format!` pads it.
pub open spec fn date_text(date: (int, int, int)) -> Seq<char> {
    padded(date.0, 4) + seq!['-'] + padded(date.1, 2) + seq!['-'] + padded(date.2, 2)
}

/// Whether `y` is a leap year in the proleptic Gregorian calendar.
pub open spec fn is_leap(y: int) -> bool {
    (y % 4 == 0 && y % 100 != 0) || y % 400 == 0
}

/// How many days month `m` of year `y` has.
pub open spec fn days_in_month(y: int, m: int) -> int {
    if m == 2 {
        if is_leap(y) {
            29
        } else {
            28
        }
    } else if m == 4 || m == 6 || m == 9 || m == 11 {
        30
    } else {
        31
    }
}

/// A real calendar date.
pub open spec fn is_date(y: int, m: int, d: int) -> bool {
    1 <= m <= 12 && 1 <= d <= days_in_month(y, m)
}

/// The day after a real calendar date.
pub open spec fn next_date(y: int, m: int, d: int) -> (int, int, int) {
    if d < days_in_month(y, m) {
        (y, m, d + 1)
    } else if m < 12 {
        (y, m + 1, 1)
    } else {
        (y + 1, 1, 1)
    }
}

// ---------------------------------------------------------------------------
// Reading dates and times out of text.
// ---------------------------------------------------------------------------

/// `YYYY-MM-DD` at the start of the bytes, as days since the epoch. The year
/// is read as a signed integer and the month and day as unsigned ones, as
/// `str::parse` reads them, and the month and day must be in range.
pub open spec fn date_of_bytes(b: Seq<u8>) -> Option<int> {
    if b.len() < 10 || b[4] != 45 || b[7] != 45 {
        None
    } else {
        match (field(b, 0, 4, true), field(b, 5, 7, false), field(b, 8, 10, false)) {
            (Some(y), Some(m), Some(d)) => if 1 <= m <= 12 && 1 <= d <= 31 {
                Some(civil_days(y, m, d))
            } else {
                None
            },
            _ => None,
        }
    }
}

/// The last byte offset holding a `+` or a `-`.
pub open spec fn last_sign(t: Seq<u8>) -> Option<int>
    decreases t.len(),
{
    if t.len() == 0 {
        None
    } else if t.last() == 43 || t.last() == 45 {
        Some(t.len() - 1)
    } else {
        last_sign(t.drop_last())
    }
}

/// The zone offset in seconds that the time part `t` ends with: zero for a
/// trailing `Z` or `z`, else what follows the last sign, as hours and
/// optional minutes.
pub open spec fn offset_of_bytes(t: Seq<u8>) -> Option<int> {
    if t.len() > 0 && (t.last() == 90 || t.last() == 122) {
        Some(0)
    } else {
        match last_sign(t) {
            None => None,
            Some(i) => if !is_boundary(t, i + 1) {
                None
            } else {
                let o = t.subrange(i + 1, t.len() as int);
                match field(o, 0, 2, true) {
                    None => None,
                    Some(h) => {
                        let mn = match field(o, 3, 5, true) {
                            Some(v) => v,
                            None => 0,
                        };
                        let secs = h * 3600 + mn * 60;
                        Some(
                            if t[i] == 45 {
                                -secs
                            } else {
                                secs
                            },
                        )
                    },
                }
            },
        }
    }
}

/// An RFC 3339 timestamp as seconds since the epoch: the date, a `T`, `t` or
/// space, hours and minutes, optional seconds (fractions dropped), and the
/// zone.
pub open spec fn timestamp_of_bytes(b: Seq<u8>) -> Option<int> {
    match date_of_bytes(b) {
        None => None,
        Some(days) => if !is_boundary(b, 10) {
            None
        } else {
            let rest = b.subrange(10, b.len() as int);
            if rest.len() == 0 || !(rest[0] == 84 || rest[0] == 116 || rest[0] == 32) {
                None
            } else {
                let t = rest.drop_first();
                match (field(t, 0, 2, true), field(t, 3, 5, true)) {
                    (Some(h), Some(mi)) => {
                        let sec = match field(t, 6, 8, true) {
                            Some(v) => v,
                            None => 0,
                        };
                        if h > 23 || mi > 59 || sec > 60 {
                            None
                        } else {
                            match offset_of_bytes(t) {
                                None => None,
                                Some(off) => Some(days * 86400 + h * 3600 + mi * 60 + sec - off),
                            }
                        }
                    },
                    _ => None,
                }
            }
        },
    }
}

/// How many days older the window is than the reference, never negative.
pub open spec fn age_of_bytes(window: Seq<u8>, reference: Seq<u8>) -> Option<int> {
    match (date_of_bytes(window), date_of_bytes(reference)) {
        (Some(w), Some(r)) => Some(if r - w > 0 {
            r - w
        } else {
            0
        }),
        _ => None,
    }
}

// ---------------------------------------------------------------------------
// The functions.
// ---------------------------------------------------------------------------

/// Days since 1970-01-01 for a proleptic Gregorian date.
pub fn days_from_civil(year: i64, month: u32, day: u32) -> (res: i64)
    requires
        civil_days_fits(year as int, month as int, day as int),
    ensures
        res == civil_days(year as int, month as int, day as int),
{
    let year = year - (if month <= 2 {
        1i64
    } else {
        0i64
    });
    let era = (if year >= 0 {
        year
    } else {
        year - 399
    }) / 400;
    let year_of_era = year - era * 400;
    let month = month as i64;
    let day_of_year = (153 * (month + if month > 2 {
        -3i64
    } else {
        9i64
    }) + 2) / 5 + (day as i64) - 1;
    let day_of_era = year_of_era * 365 + year_of_era / 4 - year_of_era / 100 + day_of_year;
    era * 146_097 + day_of_era - 719_468
}

/// The ranges every step of [`civil_of`] stays in.
proof fn lemma_civil_ranges(days: int)
    ensures
        ({
            let z = days + 719468;
            let era = z / 146097;
            let doe = z - era * 146097;
            let yoe = (doe - doe / 1460 + doe / 36524 - doe / 146096) / 365;
            let doy = doe - (365 * yoe + yoe / 4 - yoe / 100);
            let mp = (5 * doy + 2) / 153;
            let d = doy - (153 * mp + 2) / 5 + 1;
            &&& 0 <= doe <= 146096
            &&& 0 <= yoe <= 399
            &&& 0 <= doy <= 365
            &&& 0 <= mp <= 11
            &&& 1 <= d <= 31
        }),
{
}

/// `(year, month, day)` for `days` after 1970-01-01.
fn civil_parts(days: i64) -> (res: (i64, i64, i64))
    requires
        days <= i64::MAX - 719_468,
    ensures
        (res.0 as int, res.1 as int, res.2 as int) == civil_of(days as int),
        1 <= res.1 <= 12,
        1 <= res.2 <= 31,
        res.0 > i64::MIN,
{
    proof {
        lemma_civil_ranges(days as int);
    }
    let ghost zs = days + 719_468;
    let ghost eras = zs / 146097;
    let z = days + 719_468;
    let shifted = if z >= 0 {
        z
    } else {
        z - 146_096
    };
    let era = shifted / 146_097;
    proof {
        assert(era == eras);
    }
    let day_of_era = z - era * 146_097;
    let year_of_era = (day_of_era - day_of_era / 1460 + day_of_era / 36_524 - day_of_era / 146_096)
        / 365;
    let year = year_of_era + era * 400;
    let day_of_year = day_of_era - (365 * year_of_era + year_of_era / 4 - year_of_era / 100);
    let month_prime = (5 * day_of_year + 2) / 153;
    let day = day_of_year - (153 * month_prime + 2) / 5 + 1;
    let month = if month_prime < 10 {
        month_prime + 3
    } else {
        month_prime - 9
    };
    let year = year + (if month <= 2 {
        1i64
    } else {
        0i64
    });
    (year, month, day)
}

/// The date `days` after 1970-01-01, as `YYYY-MM-DD`.
///
/// What it is for is the day after a window: a window ends where the next one
/// starts, and "the next day" is a calendar question rather than an
/// arithmetic one.
pub fn civil_from_days(days: i64) -> (res: String)
    requires
        days <= i64::MAX - 719_468,
    ensures
        res@ == date_text(civil_of(days as int)),
{
    let (year, month, day) = civil_parts(days);
    let mut out = String::new();
    push_padded(&mut out, year, 4);
    push_char(&mut out, '-');
    push_padded(&mut out, month, 2);
    push_char(&mut out, '-');
    push_padded(&mut out, day, 2);
    proof {
        assert(out@ =~= date_text(civil_of(days as int)));
    }
    out
}

fn date_of_slice(b: &[u8]) -> (res: Option<i64>)
    ensures
        match res {
            Some(v) => date_of_bytes(b@) == Some(v as int),
            None => date_of_bytes(b@) is None,
        },
        res matches Some(v) ==> -10_000_000 <= v <= 10_000_000,
{
    if b.len() < 10 || b[4] != 45 || b[7] != 45 {
        return None;
    }
    let year = match read_field(b, 0, 4, true) {
        Some(v) => v,
        None => return None,
    };
    let month = match read_field(b, 5, 7, false) {
        Some(v) => v,
        None => return None,
    };
    let day = match read_field(b, 8, 10, false) {
        Some(v) => v,
        None => return None,
    };
    proof {
        crate::text::lemma_field_bounds(b@, 0, 4, true);
        crate::text::lemma_field_bounds(b@, 5, 7, false);
        crate::text::lemma_field_bounds(b@, 8, 10, false);
    }
    if month < 1 || month > 12 || day < 1 || day > 31 {
        return None;
    }
    Some(days_from_civil(year, month as u32, day as u32))
}

/// `YYYY-MM-DD` at the start of a string, as days since the epoch.
///
/// Takes the date off the front, so an ISO 8601 interval (`2026-08-23/P1D`)
/// and a timestamp (`2026-08-24T02:00:00Z`) both work. What follows the date
/// does not change which day it is.
pub fn date_of(text: &str) -> (res: Option<i64>)
    ensures
        match res {
            Some(v) => date_of_bytes(encode_utf8(text@)) == Some(v as int),
            None => date_of_bytes(encode_utf8(text@)) is None,
        },
        res matches Some(v) ==> -10_000_000 <= v <= 10_000_000,
{
    date_of_slice(text.as_bytes())
}

/// The last offset in `t` holding a `+` or a `-`.
fn rfind_sign(t: &[u8]) -> (res: Option<usize>)
    ensures
        match res {
            Some(i) => last_sign(t@) == Some(i as int),
            None => last_sign(t@) is None,
        },
{
    let mut i = t.len();
    proof {
        assert(t@.take(i as int) =~= t@);
    }
    while i > 0
        invariant
            i <= t@.len(),
            last_sign(t@) == last_sign(t@.take(i as int)),
        decreases i,
    {
        let c = t[i - 1];
        proof {
            assert(t@.take(i as int).drop_last() =~= t@.take(i - 1));
            assert(t@.take(i as int).last() == c);
        }
        if c == 43 || c == 45 {
            return Some(i - 1);
        }
        i = i - 1;
    }
    proof {
        assert(t@.take(0).len() == 0);
    }
    None
}

/// The zone offset in seconds that a time part ends with.
fn offset_of(t: &[u8]) -> (res: Option<i64>)
    ensures
        match res {
            Some(v) => offset_of_bytes(t@) == Some(v as int),
            None => offset_of_bytes(t@) is None,
        },
{
    if t.len() > 0 && (t[t.len() - 1] == 90 || t[t.len() - 1] == 122) {
        return Some(0);
    }
    let sign_at = match rfind_sign(t) {
        Some(i) => i,
        None => return None,
    };
    proof {
        assert(last_sign(t@) is Some ==> last_sign(t@)->Some_0 < t@.len()) by {
            lemma_last_sign_in_range(t@);
        }
    }
    if !boundary(t, sign_at + 1) {
        return None;
    }
    let offset = tail(t, sign_at + 1);
    let hours = match read_field(offset.as_slice(), 0, 2, true) {
        Some(h) => h,
        None => return None,
    };
    let minutes = match read_field(offset.as_slice(), 3, 5, true) {
        Some(m) => m,
        None => 0,
    };
    proof {
        crate::text::lemma_field_bounds(offset@, 0, 2, true);
        crate::text::lemma_field_bounds(offset@, 3, 5, true);
    }
    let seconds = hours * 3600 + minutes * 60;
    if t[sign_at] == 45 {
        Some(-seconds)
    } else {
        Some(seconds)
    }
}

proof fn lemma_last_sign_in_range(t: Seq<u8>)
    ensures
        last_sign(t) matches Some(i) ==> 0 <= i < t.len() && (t[i] == 43 || t[i] == 45),
    decreases t.len(),
{
    if t.len() > 0 && !(t.last() == 43 || t.last() == 45) {
        lemma_last_sign_in_range(t.drop_last());
    }
}

/// An RFC 3339 timestamp as seconds since the epoch.
///
/// Accepts `Z` and numeric offsets. Fractional seconds are read and dropped:
/// nothing here is decided at a finer grain than a second.
pub fn timestamp_of(text: &str) -> (res: Option<i64>)
    ensures
        match res {
            Some(v) => timestamp_of_bytes(encode_utf8(text@)) == Some(v as int),
            None => timestamp_of_bytes(encode_utf8(text@)) is None,
        },
{
    let b = text.as_bytes();
    let days = match date_of_slice(b) {
        Some(d) => d,
        None => return None,
    };
    if !boundary(b, 10) {
        return None;
    }
    let rest = tail(b, 10);
    if rest.len() == 0 || !(rest[0] == 84 || rest[0] == 116 || rest[0] == 32) {
        return None;
    }
    let t = tail(rest.as_slice(), 1);
    proof {
        assert(t@ =~= rest@.drop_first());
    }
    let hour = match read_field(t.as_slice(), 0, 2, true) {
        Some(h) => h,
        None => return None,
    };
    let minute = match read_field(t.as_slice(), 3, 5, true) {
        Some(m) => m,
        None => return None,
    };
    let second = match read_field(t.as_slice(), 6, 8, true) {
        Some(s) => s,
        None => 0,
    };
    proof {
        crate::text::lemma_field_bounds(t@, 0, 2, true);
        crate::text::lemma_field_bounds(t@, 3, 5, true);
        crate::text::lemma_field_bounds(t@, 6, 8, true);
    }
    if hour > 23 || minute > 59 || second > 60 {
        return None;
    }
    let offset = match offset_of(t.as_slice()) {
        Some(o) => o,
        None => return None,
    };
    proof {
        lemma_offset_bounds(t@);
    }
    Some(days * 86_400 + hour * 3600 + minute * 60 + second - offset)
}

proof fn lemma_offset_bounds(t: Seq<u8>)
    ensures
        offset_of_bytes(t) matches Some(v) ==> -100_000_000 <= v <= 100_000_000,
{
    if let Some(i) = last_sign(t) {
        if is_boundary(t, i + 1) {
            let o = t.subrange(i + 1, t.len() as int);
            crate::text::lemma_field_bounds(o, 0, 2, true);
            crate::text::lemma_field_bounds(o, 3, 5, true);
        }
    }
}

/// How many days older `window` is than `reference`, never negative.
///
/// A window from after the invalidation is not evidence from the future to be
/// discounted; it is as current as evidence gets.
pub fn age_in_days(window: &str, reference: &str) -> (res: Option<i64>)
    ensures
        match res {
            Some(v) => age_of_bytes(encode_utf8(window@), encode_utf8(reference@)) == Some(
                v as int,
            ),
            None => age_of_bytes(encode_utf8(window@), encode_utf8(reference@)) is None,
        },
{
    let window = match date_of(window) {
        Some(w) => w,
        None => return None,
    };
    let reference = match date_of(reference) {
        Some(r) => r,
        None => return None,
    };
    if reference - window > 0 {
        Some(reference - window)
    } else {
        Some(0)
    }
}

// ---------------------------------------------------------------------------
// Laws of the calendar.
// ---------------------------------------------------------------------------

/// Day zero is 1970-01-01.
pub proof fn law_epoch()
    ensures
        civil_days(1970, 1, 1) == 0,
        civil_of(0) == (1970int, 1int, 1int),
{
}

/// Any day count names a real calendar date, and counting that date's days
/// gives the same count back: `civil_from_days` is the inverse of
/// `days_from_civil`.
#[verifier::rlimit(50)]
pub proof fn law_days_round_trip(days: int)
    ensures
        is_date(civil_of(days).0, civil_of(days).1, civil_of(days).2),
        civil_days(civil_of(days).0, civil_of(days).1, civil_of(days).2) == days,
{
    lemma_civil_ranges(days);
    let (y, m, d) = civil_of(days);
    if m != 2 {
        assert(d <= days_in_month(y, m));
    } else {
        lemma_feb_has_leap_day(days);
    }
}

/// February's twenty-ninth only ever comes out of a leap year.
#[verifier::rlimit(50)]
proof fn lemma_feb_has_leap_day(days: int)
    ensures
        civil_of(days).1 == 2 ==> civil_of(days).2 <= days_in_month(civil_of(days).0, 2),
{
    lemma_civil_ranges(days);
}

/// Shifted years: one more year adds 365 days, and one more for a leap day.
#[verifier::rlimit(50)]
proof fn lemma_year_step(ys: int)
    ensures
        ({
            let era = ys / 400;
            let yoe = ys - era * 400;
            let era2 = (ys + 1) / 400;
            let yoe2 = (ys + 1) - era2 * 400;
            era2 * 146097 + yoe2 * 365 + yoe2 / 4 - yoe2 / 100 == era * 146097 + yoe * 365 + yoe
                / 4 - yoe / 100 + 365 + (if is_leap(ys + 1) {
                1int
            } else {
                0
            })
        }),
{
    let era = ys / 400;
    let yoe = ys - era * 400;
    assert(0 <= yoe < 400);
    assert((ys + 1) % 4 == (yoe + 1) % 4) by {
        assert(ys + 1 == (yoe + 1) + 4 * (era * 100));
    }
    assert((ys + 1) % 100 == (yoe + 1) % 100) by {
        assert(ys + 1 == (yoe + 1) + 100 * (era * 4));
    }
    assert((ys + 1) % 400 == (yoe + 1) % 400) by {
        assert(ys + 1 == (yoe + 1) + 400 * era);
    }
    if yoe == 399 {
        assert((ys + 1) / 400 == era + 1);
        assert(is_leap(ys + 1));
    } else {
        assert((ys + 1) / 400 == era);
        assert((yoe + 1) % 400 != 0);
        assert((yoe + 1) / 4 == yoe / 4 + (if (yoe + 1) % 4 == 0 {
            1int
        } else {
            0
        }));
        assert((yoe + 1) / 100 == yoe / 100 + (if (yoe + 1) % 100 == 0 {
            1int
        } else {
            0
        }));
    }
}

/// Consecutive calendar dates are consecutive day counts: with
/// [`law_epoch`], this is what makes [`civil_days`] the day count of the
/// proleptic Gregorian calendar.
#[verifier::rlimit(50)]
pub proof fn law_next_day(y: int, m: int, d: int)
    requires
        is_date(y, m, d),
    ensures
        civil_days(next_date(y, m, d).0, next_date(y, m, d).1, next_date(y, m, d).2) == civil_days(
            y,
            m,
            d,
        ) + 1,
{
    if d < days_in_month(y, m) {
    } else if m == 2 {
        lemma_year_step(y - 1);
    } else if m == 12 {
    } else {
    }
}

#[verifier::rlimit(100)]
proof fn lemma_yoe_inverse(yoe: int, doy: int)
    requires
        0 <= yoe <= 399,
        0 <= doy <= 364 || (doy == 365 && ((yoe + 1) % 4 == 0 && ((yoe + 1) % 100 != 0 || yoe
            == 399))),
    ensures
        ({
            let doe = yoe * 365 + yoe / 4 - yoe / 100 + doy;
            0 <= doe <= 146096 && (doe - doe / 1460 + doe / 36524 - doe / 146096) / 365 == yoe
        }),
{
}

/// A real calendar date survives being counted and read back.
#[verifier::rlimit(100)]
#[verifier::spinoff_prover]
pub proof fn law_date_round_trip(y: int, m: int, d: int)
    requires
        is_date(y, m, d),
    ensures
        civil_of(civil_days(y, m, d)) == (y, m, d),
{
    let ys = y - (if m <= 2 {
        1int
    } else {
        0
    });
    let era = ys / 400;
    let yoe = ys - era * 400;
    let mp = m + (if m > 2 {
        -3int
    } else {
        9
    });
    let doy = (153 * mp + 2) / 5 + d - 1;
    assert(0 <= yoe <= 399);
    assert(0 <= doy <= 365);
    assert(doy == 365 ==> m == 2 && d == 29);
    if m == 2 && d == 29 {
        lemma_leap_shifted(y);
    }
    lemma_yoe_inverse(yoe, doy);
}

proof fn lemma_leap_shifted(y: int)
    requires
        is_leap(y),
    ensures
        ({
            let ys = y - 1;
            let yoe = ys - (ys / 400) * 400;
            (yoe + 1) % 4 == 0 && ((yoe + 1) % 100 != 0 || yoe == 399)
        }),
{
}

/// A date whose year takes four characters, written out, reads back as the
/// same day.
pub proof fn law_a_date_reads_back(y: int, m: int, d: int)
    requires
        -999 <= y <= 9999,
        1 <= m <= 12,
        1 <= d <= 31,
    ensures
        date_of_bytes(encode_utf8(date_text((y, m, d)))) == Some(civil_days(y, m, d)),
{
    reveal_with_fuel(crate::text::pow10, 5);
    let py = padded(y, 4);
    let pm = padded(m, 2);
    let pd = padded(d, 2);
    if y >= 0 {
        crate::text::lemma_padded_reads_back(y as nat, 4);
    } else {
        crate::text::lemma_padded_negative_reads_back(y, 4);
    }
    crate::text::lemma_padded_reads_back(m as nat, 2);
    crate::text::lemma_padded_reads_back(d as nat, 2);
    let t = date_text((y, m, d));
    assert(t == py + seq!['-'] + pm + seq!['-'] + pd);
    assert(t.len() == 10);
    assert(vstd::utf8::is_ascii_chars(t)) by {
        assert forall|i: int| 0 <= i < t.len() implies '\0' <= #[trigger] t[i] <= '\u{7f}' by {
            if i < 4 {
                assert(t[i] == py[i]);
            } else if 5 <= i < 7 {
                assert(t[i] == pm[i - 5]);
            } else if 8 <= i < 10 {
                assert(t[i] == pd[i - 8]);
            }
        }
    }
    vstd::utf8::is_ascii_chars_encode_utf8(t);
    let b = encode_utf8(t);
    assert(b =~= ascii_bytes(t));
    assert(b.subrange(0, 4) =~= ascii_bytes(py));
    assert(b.subrange(5, 7) =~= ascii_bytes(pm));
    assert(b.subrange(8, 10) =~= ascii_bytes(pd));
    assert(b[4] == 45);
    assert(b[7] == 45);
    let sy = b.subrange(0, 4);
    let sm = b.subrange(5, 7);
    let sd = b.subrange(8, 10);
    if y >= 0 {
        assert(is_dec_digit(sy[0]));
    } else {
        assert(sy[0] == 45);
        assert(sy.drop_first() =~= ascii_bytes(py).drop_first());
    }
    assert(is_dec_digit(sm[0]));
    assert(is_dec_digit(sd[0]));
    assert(is_dec_digit(b[5]));
    assert(is_dec_digit(b[8]));
    assert(field(b, 0, 4, true) == Some(y));
    assert(field(b, 5, 7, false) == Some(m));
    assert(field(b, 8, 10, false) == Some(d));
}

/// Every day whose year takes four characters survives being written as a
/// date and read back: `date_of` undoes `civil_from_days`.
pub proof fn law_a_day_survives_the_round_trip(days: int)
    requires
        -999 <= civil_of(days).0 <= 9999,
    ensures
        date_of_bytes(encode_utf8(date_text(civil_of(days)))) == Some(days),
{
    law_days_round_trip(days);
    let (y, m, d) = civil_of(days);
    law_a_date_reads_back(y, m, d);
}

} // verus!
