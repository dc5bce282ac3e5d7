//! What a pull request is told, and what a warm run reports.

use okibi::digest::{kind_name, parse_kind, Kind};
use okibi::invalidation::{Axis, InvalidationEvent, Scope};
use okibi::report::{axis, duration_text, group_thousands, MARKER};
use okibi::warm::{Report, WARM_HEADER};

#[test]
fn the_axis_is_named_as_the_file_names_it() {
    let mut event = InvalidationEvent {
        event: "okibi-invalidation/1".into(),
        service: "papers".into(),
        tileset: "t".into(),
        axis: Axis::Source,
        epoch_from: "a".into(),
        epoch_to: "b".into(),
        scope: Scope::All,
        occurred_at: "2026-08-24T02:00:00Z".into(),
        deadline: None,
    };
    assert_eq!(axis(&event), "source");
    event.axis = Axis::Algo;
    assert_eq!(axis(&event), "algo");
    event.axis = Axis::Param;
    assert_eq!(axis(&event), "param");
    assert!(MARKER.starts_with("<!--"));
}

#[test]
fn a_fresh_report_has_fetched_nothing() {
    let report = Report::default();
    assert_eq!(report.fetched, 0);
    assert!(report.failed.is_empty());
    assert_eq!(WARM_HEADER, "X-Okibi-Warm");
}

#[test]
fn kinds_are_read_back_as_they_are_written() {
    for kind in [Kind::Content, Kind::Tileset, Kind::Subtree, Kind::Meta] {
        assert_eq!(parse_kind(kind_name(kind)), Some(kind));
    }
    assert_eq!(parse_kind("hologram"), None);
    assert!(Kind::Content.is_placed());
    assert!(!Kind::Meta.is_placed());
}

#[test]
fn a_duration_reads_as_one() {
    assert_eq!(duration_text(45), "45s");
    assert_eq!(duration_text(600), "10m");
    assert_eq!(duration_text(8830), "2h27m");
    assert_eq!(duration_text(18000), "5h00m");
    assert_eq!(duration_text(0), "0s");
}

#[test]
fn numbers_read_the_way_people_read_them() {
    assert_eq!(group_thousands("4210"), "4,210");
    assert_eq!(group_thousands("999"), "999");
    assert_eq!(group_thousands("1234567"), "1,234,567");
    assert_eq!(group_thousands(""), "");
    assert_eq!(duration_text(8830), "2h27m");
}
