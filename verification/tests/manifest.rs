//! What a service says about itself, and the URLs it says to fetch.

use okibi::manifest::{Epoch, MetaUrl, ServiceManifest, ZoomSemantics, MANIFEST_VERSION};
use okibi::sorted_map::TextMap;

fn manifest() -> ServiceManifest {
    let mut meta_urls = TextMap::new();
    meta_urls.insert("tileset".to_string(), Some("https://p/{tileset}/meta.json".to_string()));
    ServiceManifest {
        manifest: MANIFEST_VERSION.into(),
        service: "papers".into(),
        url_template: "https://papers.reearth.land/t/{tileset}/{id}?e={epoch.param}".into(),
        meta_urls,
        lanes: None,
        depends_on: vec![],
        zoom_semantics: ZoomSemantics::Resolution,
    }
}

#[test]
fn a_url_is_the_services_own_template_filled_in() {
    let epoch = Epoch {
        source: "osm-2026-08-18".into(),
        algo: "ezu-0.7.1".into(),
        param: "style-aoi-04@r13".into(),
    };

    assert_eq!(
        manifest().url_for("style-aoi-04", "14/14552/6451", &epoch),
        "https://papers.reearth.land/t/style-aoi-04/14/14552/6451?e=style-aoi-04@r13"
    );
    assert_eq!(
        manifest().meta_url_for("tileset", "style-aoi-04", "meta.json", &epoch),
        MetaUrl::At("https://p/style-aoi-04/meta.json".to_string())
    );
    assert_eq!(manifest().meta_url_for("subtree", "style-aoi-04", "x", &epoch), MetaUrl::Unnamed);
}

/// A kind the service named and gave no URL for is not the same as one it
/// never mentioned.
#[test]
fn a_kind_can_be_named_and_still_have_nowhere_to_fetch() {
    let mut manifest = manifest();
    manifest.meta_urls.insert("subtree".into(), None);

    assert_eq!(
        manifest.meta_url_for("subtree", "style-aoi-04", "x", &Epoch::default()),
        MetaUrl::NotWarmable
    );
}

#[test]
fn every_placeholder_is_filled_wherever_it_occurs() {
    let mut manifest = manifest();
    manifest.url_template =
        "{tileset}/{id}/{tileset}?s={epoch.source}&a={epoch.algo}&p={epoch.param}".into();
    let epoch = Epoch { source: "s".into(), algo: "a".into(), param: "p".into() };
    assert_eq!(manifest.url_for("t", "1/2/3", &epoch), "t/1/2/3/t?s=s&a=a&p=p");
}

#[test]
fn an_epoch_is_empty_only_when_every_part_is() {
    assert!(Epoch::default().is_empty());
    let epoch = Epoch { source: String::new(), algo: String::new(), param: "p".into() };
    assert!(!epoch.is_empty());
}
