//! Asking whether a plan's URLs are URLs.

use okibi::verify::{sample, tally, Checked};

fn services(names: &[&str]) -> Vec<String> {
    names.iter().map(|s| s.to_string()).collect()
}

/// The head of a plan is its hottest cell. A template that works there can
/// still be wrong further down, which is the whole reason for looking.
#[test]
fn the_sample_reaches_past_the_top_of_the_plan() {
    let plan = services(&["papers"; 100]);

    let ranks = sample(&plan, 4);

    assert_eq!(ranks.len(), 4);
    assert_eq!(ranks[0], 0, "the first entry, which is the metadata one");
    assert!(ranks[3] > 50, "and something from the tail: {ranks:?}");
}

/// Two services in one plan are two templates, and one of them can be wrong
/// on its own.
#[test]
fn every_service_is_asked_about() {
    let plan = services(&["papers", "papers", "terrain"]);

    let asked: Vec<&str> = sample(&plan, 1).iter().map(|&rank| plan[rank].as_str()).collect();

    assert!(asked.contains(&"papers"), "{asked:?}");
    assert!(asked.contains(&"terrain"), "{asked:?}");
}

#[test]
fn asks_for_no_more_than_there_is() {
    let plan = services(&["papers"]);
    assert_eq!(sample(&plan, 20).len(), 1);
}

/// A 404 is the plan being wrong. A 503 is an origin having a bad minute.
#[test]
fn a_missing_url_is_the_plans_fault_and_a_broken_origin_is_not() {
    let checked = |status: u16| Checked {
        url: "https://a.test/1".into(),
        service: "papers".into(),
        rank: 0,
        status: Some(status),
        error: None,
    };

    assert!(checked(404).is_wrong());
    assert!(checked(410).is_wrong());
    assert!(!checked(503).is_wrong());
    assert!(!checked(200).is_wrong());
    assert!(checked(200).ok());
    assert!(!checked(404).ok());
}

#[test]
fn no_answer_is_neither_wrong_nor_ok() {
    let checked = Checked {
        url: "https://a.test/1".into(),
        service: "papers".into(),
        rank: 3,
        status: None,
        error: Some("timed out".into()),
    };
    assert!(!checked.is_wrong());
    assert!(!checked.ok());
}

#[test]
fn the_sample_is_spread_evenly_and_comes_back_in_plan_order() {
    let plan = services(&["a", "b", "a", "b", "a", "b", "a", "b", "a", "b"]);
    // Five of each, two wanted: every third of a service's entries.
    assert_eq!(sample(&plan, 2), [0, 1, 6, 7]);
    // Asking for none still asks about the first of each.
    assert_eq!(sample(&plan, 0), [0, 1]);
    assert!(sample(&services(&[]), 3).is_empty());
}

#[test]
fn a_sample_is_tallied_by_what_it_says_about_the_plan() {
    let checked = |status: Option<u16>| Checked {
        url: "https://a.test/1".into(),
        service: "papers".into(),
        rank: 0,
        status,
        error: None,
    };
    let answers = vec![checked(Some(200)), checked(Some(404)), checked(Some(503)), checked(None)];
    assert_eq!(tally(&answers), (1, 1));
    assert_eq!(tally(&vec![]), (0, 0));
}
