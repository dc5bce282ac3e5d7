//! What died, matched against where demand was.

use okibi::invalidation::Scope;

#[test]
fn a_region_and_a_cell_can_contain_each_other() {
    let scope = Scope::QkPrefixes { prefixes: vec!["133002".into()] };

    // The cell is inside the region.
    assert!(scope.touches_cell("13300211"));
    // The region is inside the cell, so part of the cell died.
    assert!(scope.touches_cell("1330"));
    assert!(!scope.touches_cell("13300311"));
}

#[test]
fn a_tile_is_covered_only_if_the_prefix_reaches_it() {
    let scope = Scope::QkPrefixes { prefixes: vec!["133002".into()] };

    assert!(scope.covers_tile("13300211231022", "14/14552/6451"));
    assert!(!scope.covers_tile("13300311231022", "14/1/1"));
}

#[test]
fn named_ids_are_settled_at_the_tile_and_not_the_cell() {
    let scope = Scope::Ids { ids: vec!["14/14552/6451".into()] };

    assert!(scope.touches_cell("13300211"));
    assert!(scope.covers_tile("13300211231022", "14/14552/6451"));
    assert!(!scope.covers_tile("13300211231022", "14/14552/6452"));
}

#[test]
fn everything_is_covered_when_everything_died() {
    assert!(Scope::All.touches_cell("13300211"));
    assert!(Scope::All.covers_tile("1", "anything"));
}

/// A covered tile is always in a touched cell.
#[test]
fn a_covered_tile_lies_in_a_touched_cell() {
    let scope = Scope::QkPrefixes { prefixes: vec!["1330021".into(), "2".into()] };
    for qk in ["13300211231022", "2000", "21"] {
        assert!(scope.covers_tile(qk, "x"));
        let cell: String = qk.chars().take(8).collect();
        assert!(scope.touches_cell(&cell), "{qk}");
    }
}

#[test]
fn no_region_touches_nothing() {
    let scope = Scope::QkPrefixes { prefixes: vec![] };
    assert!(!scope.touches_cell("13300211"));
    assert!(!scope.covers_tile("13300211", "x"));
}
