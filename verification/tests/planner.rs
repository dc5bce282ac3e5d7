//! What refuses or bounds a plan before any demand is weighed.

use okibi::digest::Kind;
use okibi::invalidation::{Axis, InvalidationEvent, Scope, INVALIDATION_VERSION};
use okibi::manifest::{Epoch, ServiceManifest, ZoomSemantics, MANIFEST_VERSION};
use okibi::plan::{lane_after_cut, Lane};
use okibi::planner::{
    check_epochs, deadline_seconds, locate, manifest_for, reaches_document, reaches_record,
    CellWindow, PlanError, Rank, Sources,
};
use okibi::sorted_map::TextMap;

fn manifest(service: &str, template: &str) -> ServiceManifest {
    ServiceManifest {
        manifest: MANIFEST_VERSION.into(),
        service: service.into(),
        url_template: template.into(),
        meta_urls: TextMap::new(),
        lanes: None,
        depends_on: vec![],
        zoom_semantics: ZoomSemantics::Resolution,
    }
}

fn event(scope: Scope, deadline: Option<&str>) -> InvalidationEvent {
    InvalidationEvent {
        event: INVALIDATION_VERSION.into(),
        service: "papers".into(),
        tileset: "style-aoi-04".into(),
        axis: Axis::Param,
        epoch_from: "r12".into(),
        epoch_to: "r13".into(),
        scope,
        occurred_at: "2026-08-24T02:00:00Z".into(),
        deadline: deadline.map(|d| d.to_string()),
    }
}

fn epoch(param: &str) -> Epoch {
    Epoch { source: String::new(), algo: String::new(), param: param.into() }
}

#[test]
fn refuses_to_plan_for_a_service_it_knows_nothing_about() {
    let manifests = vec![manifest("terrain", "https://t/{id}")];
    assert_eq!(
        manifest_for(&manifests, "papers").unwrap_err(),
        PlanError::NoManifest { service: "papers".into() }
    );
}

#[test]
fn the_first_manifest_naming_the_service_is_the_one() {
    let manifests = vec![
        manifest("terrain", "https://t/{id}"),
        manifest("papers", "https://p1/{id}"),
        manifest("papers", "https://p2/{id}"),
    ];
    assert_eq!(manifest_for(&manifests, "papers").unwrap().url_template, "https://p1/{id}");
}

#[test]
fn a_template_that_asks_for_no_epoch_needs_none() {
    let m = manifest("papers", "https://p/{tileset}/{id}");
    assert_eq!(check_epochs(&m, &Epoch::default()), Ok(()));
}

#[test]
fn a_template_that_asks_for_an_epoch_must_be_given_it() {
    let m = manifest("papers", "https://p/{id}?e={epoch.param}");
    assert_eq!(
        check_epochs(&m, &Epoch::default()),
        Err(PlanError::EpochMissing {
            axis: "param",
            template: "https://p/{id}?e={epoch.param}".into()
        })
    );
    assert_eq!(check_epochs(&m, &epoch("r13")), Ok(()));
}

#[test]
fn a_metadata_template_is_checked_too() {
    let mut m = manifest("papers", "https://p/{id}");
    m.meta_urls.insert("subtree".into(), None);
    m.meta_urls.insert("tileset".into(), Some("https://p/{epoch.source}/tileset.json".into()));
    assert_eq!(
        check_epochs(&m, &epoch("r13")),
        Err(PlanError::EpochMissing {
            axis: "source",
            template: "https://p/{epoch.source}/tileset.json".into()
        })
    );
}

#[test]
fn the_first_missing_axis_is_the_one_reported() {
    let m = manifest("papers", "{epoch.param}{epoch.algo}");
    assert_eq!(
        check_epochs(&m, &Epoch::default()),
        Err(PlanError::EpochMissing { axis: "algo", template: "{epoch.param}{epoch.algo}".into() })
    );
}

#[test]
fn a_document_is_fetched_from_its_kinds_template() {
    let mut m = manifest("papers", "https://p/{tileset}/{id}");
    m.meta_urls.insert("tileset".into(), Some("https://p/{tileset}/tileset.json".into()));
    m.meta_urls.insert("subtree".into(), None);
    let e = Epoch::default();

    assert_eq!(
        locate(&m, "papers", Kind::Content, "t", "1/2/3", &e),
        Ok(Some((Rank::Content, "https://p/t/1/2/3".to_string())))
    );
    assert_eq!(
        locate(&m, "papers", Kind::Tileset, "t", "tileset.json", &e),
        Ok(Some((Rank::Metadata, "https://p/t/tileset.json".to_string())))
    );
    // Named, and nothing warming it would achieve: counted, not fetched.
    assert_eq!(locate(&m, "papers", Kind::Subtree, "t", "0.subtree", &e), Ok(None));
    // Never mentioned: refused rather than guessed at.
    assert_eq!(
        locate(&m, "papers", Kind::Meta, "t", "x", &e),
        Err(PlanError::NoMetaUrl { service: "papers".into(), kind: "meta" })
    );
}

#[test]
fn demand_outside_the_invalidation_is_left_alone() {
    let region = event(Scope::QkPrefixes { prefixes: vec!["133002".into()] }, None);
    assert!(reaches_record(&region, "papers", "style-aoi-04", Kind::Content, "13300211"));
    assert!(!reaches_record(&region, "papers", "style-aoi-04", Kind::Content, "13300311"));
    assert!(!reaches_record(&region, "terrain", "style-aoi-04", Kind::Content, "13300211"));
    assert!(!reaches_record(&region, "papers", "other", Kind::Content, "13300211"));
}

#[test]
fn metadata_survives_a_scope_that_names_a_region() {
    let region = event(Scope::QkPrefixes { prefixes: vec!["133002".into()] }, None);
    assert!(reaches_record(&region, "papers", "style-aoi-04", Kind::Tileset, "-"));
    assert!(reaches_document(&region.scope, "tileset.json"));
}

#[test]
fn metadata_is_left_out_when_the_scope_names_other_things() {
    let ids = Scope::Ids { ids: vec!["14/14552/6451".into()] };
    assert!(!reaches_document(&ids, "tileset.json"));
    assert!(reaches_document(&ids, "14/14552/6451"));
    assert!(reaches_document(&Scope::All, "tileset.json"));
}

#[test]
fn a_deadline_leaves_the_seconds_between_it_and_the_event() {
    let e = event(Scope::All, Some("2026-08-24T08:00:00Z"));
    assert_eq!(deadline_seconds(&e, true), Ok(Some(6 * 3600)));
    assert_eq!(deadline_seconds(&e, false), Ok(None));
    assert_eq!(deadline_seconds(&event(Scope::All, None), true), Ok(None));
    let past = event(Scope::All, Some("2026-08-24T01:00:00Z"));
    assert_eq!(deadline_seconds(&past, true), Ok(Some(0)));
}

#[test]
fn a_timestamp_that_cannot_be_read_is_refused() {
    let e = event(Scope::All, Some("tomorrow"));
    assert_eq!(
        deadline_seconds(&e, true),
        Err(PlanError::BadTime { field: "deadline", value: "tomorrow".into() })
    );
    let mut e = event(Scope::All, Some("2026-08-24T08:00:00Z"));
    e.occurred_at = "now".into();
    assert_eq!(
        deadline_seconds(&e, true),
        Err(PlanError::BadTime { field: "occurred_at", value: "now".into() })
    );
}

#[test]
fn nothing_is_urgent_when_nothing_was_cut() {
    assert_eq!(lane_after_cut(5, 5), Lane::Warm);
    assert_eq!(lane_after_cut(0, 0), Lane::Warm);
}

#[test]
fn a_deadline_cuts_the_plan_and_makes_the_rest_urgent() {
    assert_eq!(lane_after_cut(3, 5), Lane::Urgent);
}

#[test]
fn the_sources_start_empty() {
    let sources = Sources::default();
    assert!(sources.digest.is_empty());
    assert!(sources.invalidation.is_empty());
    assert_eq!(sources.manifests.len(), 0);
    assert!(sources.pricing.is_empty());
}

#[test]
fn the_freshest_window_measures_a_cell() {
    let mut seen = CellWindow::default();
    assert!(seen.absorb(20688, 12));
    assert!(!seen.absorb(20687, 40));
    assert!(seen.absorb(20688, 3));
    assert_eq!(seen, CellWindow { newest: 20688, tiles_observed: 40 });
    assert!(seen.absorb(20689, 0));
    assert_eq!(seen.newest, 20689);
}
