//! The calendar, with no clock in it.

use okibi::time::{age_in_days, civil_from_days, date_of, days_from_civil, timestamp_of};

#[test]
fn the_epoch_is_where_it_should_be() {
    assert_eq!(days_from_civil(1970, 1, 1), 0);
    assert_eq!(days_from_civil(1969, 12, 31), -1);
    assert_eq!(days_from_civil(2026, 8, 24), 20689);
}

#[test]
fn a_leap_day_is_a_day() {
    let feb = days_from_civil(2024, 2, 28);
    assert_eq!(days_from_civil(2024, 3, 1) - feb, 2);
    // 2100 is not a leap year, being a century that is not a fourth one.
    let feb = days_from_civil(2100, 2, 28);
    assert_eq!(days_from_civil(2100, 3, 1) - feb, 1);
}

/// Every day for a century, there and back again.
#[test]
fn a_day_survives_the_round_trip() {
    for days in 0..36_525 {
        let date = civil_from_days(days);
        assert_eq!(date_of(&date), Some(days), "{date}");
    }
}

#[test]
fn the_day_after_a_month_is_in_the_next_one() {
    let last_of_august = days_from_civil(2026, 8, 31);
    assert_eq!(civil_from_days(last_of_august + 1), "2026-09-01");

    let leap = days_from_civil(2024, 2, 28);
    assert_eq!(civil_from_days(leap + 1), "2024-02-29");

    let not_leap = days_from_civil(2100, 2, 28);
    assert_eq!(civil_from_days(not_leap + 1), "2100-03-01");
}

#[test]
fn a_date_is_read_off_the_front_of_whatever_carries_it() {
    let day = days_from_civil(2026, 8, 23);
    assert_eq!(date_of("2026-08-23"), Some(day));
    assert_eq!(date_of("2026-08-23/P1D"), Some(day));
    assert_eq!(date_of("2026-08-23T14:00:00Z"), Some(day));
}

#[test]
fn time_refuses_what_is_not_a_date() {
    assert_eq!(date_of("yesterday"), None);
    assert_eq!(date_of("2026-13-01"), None);
    assert_eq!(date_of("2026-08"), None);
}

#[test]
fn a_timestamp_is_seconds_from_the_epoch() {
    let midnight = days_from_civil(2026, 8, 24) * 86_400;
    assert_eq!(timestamp_of("2026-08-24T00:00:00Z"), Some(midnight));
    assert_eq!(timestamp_of("2026-08-24T02:00:00Z"), Some(midnight + 7200));
    assert_eq!(timestamp_of("2026-08-24T02:00:00.500Z"), Some(midnight + 7200));
}

#[test]
fn an_offset_moves_the_time_it_qualifies() {
    let utc = timestamp_of("2026-08-24T02:00:00Z").unwrap();
    assert_eq!(timestamp_of("2026-08-24T11:00:00+09:00"), Some(utc));
    assert_eq!(timestamp_of("2026-08-23T21:00:00-05:00"), Some(utc));
}

#[test]
fn a_deadline_is_a_span_of_seconds_from_the_event() {
    let event = timestamp_of("2026-08-24T02:00:00Z").unwrap();
    let deadline = timestamp_of("2026-08-24T08:00:00Z").unwrap();
    assert_eq!(deadline - event, 6 * 3600);
}

/// Ages are whole days here: a window is a day, and the evidence in it is
/// as old as the days between it and the event.
#[test]
fn evidence_from_after_the_event_is_not_discounted() {
    assert_eq!(age_in_days("2026-08-23/P1D", "2026-08-24T02:00:00Z"), Some(1));
    assert_eq!(age_in_days("2026-08-24/P1D", "2026-08-24T02:00:00Z"), Some(0));
    assert_eq!(age_in_days("2026-08-30/P1D", "2026-08-24T02:00:00Z"), Some(0));
}

#[test]
fn the_first_day_is_written_as_the_epoch() {
    assert_eq!(civil_from_days(0), "1970-01-01");
    assert_eq!(civil_from_days(-1), "1969-12-31");
}

#[test]
fn a_timestamp_without_a_zone_is_not_read() {
    assert_eq!(timestamp_of("2026-08-24T02:00:00"), None);
    assert_eq!(timestamp_of("2026-08-24T25:00:00Z"), None);
    assert_eq!(timestamp_of("2026-08-24 02:00Z"), Some(days_from_civil(2026, 8, 24) * 86_400 + 7200));
}

#[test]
fn an_age_needs_two_dates() {
    assert_eq!(age_in_days("soon", "2026-08-24T02:00:00Z"), None);
    assert_eq!(age_in_days("2026-08-23/P1D", "later"), None);
}
