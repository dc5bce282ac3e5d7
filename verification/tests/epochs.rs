//! Deriving what died from what changed in `okibi.epochs.json`.

use okibi::epochs::{axis_that_moved, between, value_of, EpochsFile};
use okibi::invalidation::{Axis, Scope, INVALIDATION_VERSION};
use okibi::manifest::Epoch;
use okibi::sorted_map::TextMap;

fn epoch(source: &str, algo: &str, param: &str) -> Epoch {
    Epoch { source: source.to_string(), algo: algo.to_string(), param: param.to_string() }
}

fn epochs(tilesets: &[(&str, &str, &str, &str)]) -> EpochsFile {
    let mut map = TextMap::new();
    for (name, source, algo, param) in tilesets {
        map.insert(name.to_string(), epoch(source, algo, param));
    }
    EpochsFile { service: "papers".into(), tilesets: map }
}

const AT: &str = "2026-08-24T02:00:00Z";

#[test]
fn a_changed_epoch_is_an_invalidation() {
    let before = epochs(&[("a", "osm-08-18", "ezu-0.7.1", "r12")]);
    let after = epochs(&[("a", "osm-08-18", "ezu-0.7.1", "r13")]);

    let events = between(&before, &after, AT, Some("2026-08-24T08:00:00Z"));
    assert_eq!(events.len(), 1);
    assert_eq!(events[0].axis, Axis::Param);
    assert_eq!(events[0].epoch_from, "r12");
    assert_eq!(events[0].epoch_to, "r13");
    assert_eq!(events[0].tileset, "a");
    assert_eq!(events[0].scope, Scope::All);
    assert_eq!(events[0].deadline.as_deref(), Some("2026-08-24T08:00:00Z"));
}

#[test]
fn an_untouched_tileset_did_not_die() {
    let before = epochs(&[("a", "s", "g", "p"), ("b", "s", "g", "p")]);
    let after = epochs(&[("a", "s", "g", "p2"), ("b", "s", "g", "p")]);

    let events = between(&before, &after, AT, None);
    assert_eq!(events.len(), 1);
    assert_eq!(events[0].tileset, "a");
}

/// Nothing was cached under a tileset that did not exist.
#[test]
fn a_new_tileset_is_not_an_invalidation() {
    let before = epochs(&[("a", "s", "g", "p")]);
    let after = epochs(&[("a", "s", "g", "p"), ("b", "s", "g", "p")]);

    assert!(between(&before, &after, AT, None).is_empty());
}

#[test]
fn a_removed_tileset_raises_nothing_either() {
    let before = epochs(&[("a", "s", "g", "p"), ("b", "s", "g", "p")]);
    let after = epochs(&[("a", "s", "g", "p")]);

    assert!(between(&before, &after, AT, None).is_empty());
}

#[test]
fn the_most_fundamental_axis_is_the_one_reported() {
    let before = epochs(&[("a", "osm-07", "ezu-0.7.1", "r12")]);
    let after = epochs(&[("a", "osm-08", "ezu-0.8.0", "r13")]);

    let events = between(&before, &after, AT, None);
    assert_eq!(events[0].axis, Axis::Source);
    assert_eq!(events[0].epoch_from, "osm-07");
}

#[test]
fn several_tilesets_come_back_in_a_settled_order() {
    let before = epochs(&[("c", "s", "g", "p"), ("a", "s", "g", "p")]);
    let after = epochs(&[("c", "s", "g", "p2"), ("a", "s", "g", "p2")]);

    let events = between(&before, &after, AT, None);
    let tilesets: Vec<&str> = events.iter().map(|e| e.tileset.as_str()).collect();
    assert_eq!(tilesets, ["a", "c"]);
}

/// A service whose versions live in a cache key has nothing to put here.
#[test]
fn a_tileset_with_no_recorded_epochs_has_none() {
    let epochs = EpochsFile { service: "papers".into(), tilesets: TextMap::new() };

    assert_eq!(epochs.epoch_for("style-aoi-04"), Epoch::default());
}

#[test]
fn a_recorded_tileset_has_its_own_epochs() {
    let file = epochs(&[("a", "s1", "g1", "p1"), ("b", "s2", "g2", "p2")]);
    assert_eq!(file.epoch_for("b"), epoch("s2", "g2", "p2"));
    assert!(!file.epoch_for("a").is_empty());
    assert!(Epoch::default().is_empty());
}

#[test]
fn an_unchanged_file_raises_nothing() {
    let file = epochs(&[("a", "s", "g", "p"), ("b", "s", "g", "p")]);
    assert!(between(&file, &file, AT, None).is_empty());
}

#[test]
fn an_event_says_where_it_came_from() {
    let before = epochs(&[("a", "s", "g1", "p")]);
    let after = epochs(&[("a", "s", "g2", "p")]);
    let events = between(&before, &after, AT, None);
    assert_eq!(events[0].event, INVALIDATION_VERSION);
    assert_eq!(events[0].service, "papers");
    assert_eq!(events[0].occurred_at, AT);
    assert_eq!(events[0].deadline, None);
    assert_eq!(events[0].axis, Axis::Algo);
}

#[test]
fn each_axis_names_its_own_part() {
    let old = epoch("s1", "g1", "p1");
    let new = epoch("s1", "g1", "p2");
    assert_eq!(axis_that_moved(&old, &new), Some(Axis::Param));
    assert_eq!(axis_that_moved(&old, &old), None);
    assert_eq!(value_of(&old, Axis::Source), "s1");
    assert_eq!(value_of(&old, Axis::Algo), "g1");
    assert_eq!(value_of(&new, Axis::Param), "p2");
}
