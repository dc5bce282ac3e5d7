//! Reading a plan rather than producing one.

use okibi::review::{changes, first_position};

fn urls(names: &[&str]) -> Vec<String> {
    names.iter().map(|s| s.to_string()).collect()
}

#[test]
fn a_diff_says_what_came_and_went_and_what_only_moved() {
    let before = urls(&["a", "b"]);
    let after = urls(&["b", "c"]);

    let diff = changes(&before, &after);
    assert_eq!(diff.added, ["c"]);
    assert_eq!(diff.removed, ["a"]);
    assert_eq!(diff.moved, [("b".to_string(), 1, 0)]);
}

#[test]
fn two_runs_of_the_same_plan_differ_in_nothing() {
    let plan = urls(&["a"]);
    let diff = changes(&plan, &plan);
    assert!(diff.added.is_empty());
    assert!(diff.removed.is_empty());
    assert!(diff.moved.is_empty());
}

#[test]
fn what_changed_comes_back_in_url_order() {
    let before = urls(&["z", "m", "a", "q"]);
    let after = urls(&["q", "y", "b", "m"]);
    let diff = changes(&before, &after);
    assert_eq!(diff.added, ["b", "y"]);
    assert_eq!(diff.removed, ["a", "z"]);
    assert_eq!(diff.moved, [("m".to_string(), 1, 3), ("q".to_string(), 3, 0)]);
}

#[test]
fn a_url_is_found_at_its_first_position() {
    let urls: Vec<String> = vec!["a".into(), "b".into(), "a".into()];
    assert_eq!(first_position(&urls, "a"), Some(0));
    assert_eq!(first_position(&urls, "b"), Some(1));
    assert_eq!(first_position(&urls, "c"), None);
}
