//! The day a digest covers.

use okibi::window::{parse, Window};

#[test]
fn a_window_is_the_day_it_names() {
    let window = Window::parse("2026-08-23").unwrap();
    assert_eq!(window.interval(), "2026-08-23/P1D");
    assert_eq!(
        window.bounds(),
        ("2026-08-23 00:00:00".into(), "2026-08-24 00:00:00".into())
    );
}

#[test]
fn a_window_at_the_end_of_a_month_ends_in_the_next_one() {
    assert_eq!(Window::parse("2026-08-31").unwrap().bounds().1, "2026-09-01 00:00:00");
    assert_eq!(Window::parse("2026-12-31").unwrap().bounds().1, "2027-01-01 00:00:00");
    assert_eq!(Window::parse("2024-02-28").unwrap().bounds().1, "2024-02-29 00:00:00");
}

#[test]
fn window_refuses_what_is_not_a_date() {
    assert!(Window::parse("yesterday").is_err());
    assert!(Window::parse("2026-13-01").is_err());
    assert!(Window::parse("2026-08-23T00:00:00Z").is_err());
    // The command line reads a date the same way.
    assert!(parse("yesterday").is_err());
}

#[test]
fn a_window_keeps_the_date_it_was_given() {
    let window = parse("2026-08-23").unwrap();
    assert_eq!(window.date(), "2026-08-23");
    assert_eq!(window.date().len(), 10);
    assert_eq!(parse("tomorrow").unwrap_err().0, "tomorrow");
}

#[test]
fn the_day_before_crosses_months_and_years() {
    let window = Window::parse("2026-03-01").unwrap();
    assert_eq!(window.day_before().unwrap().date(), "2026-02-28");
    let window = Window::parse("2024-03-01").unwrap();
    assert_eq!(window.day_before().unwrap().date(), "2024-02-29");
    let window = Window::parse("2027-01-01").unwrap();
    assert_eq!(window.day_before().unwrap().date(), "2026-12-31");
    assert!(window.day_before().unwrap().interval().ends_with("/P1D"));
}
