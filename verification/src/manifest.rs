//! What a service says about itself.

use vstd::prelude::*;

use crate::text::{replace, replace_all};
use crate::sorted_map::TextMap;

verus! {

/// The version a service manifest carries.
pub const MANIFEST_VERSION: &'static str = "okibi-service/1";

/// The parts of a cache key that are not per-tile, spelled as the key spells
/// them.
///
/// Three names for what a part is for, rather than three parts every service
/// must have: a key made of two pieces fills two and leaves the third empty.
#[derive(Debug, PartialEq, Eq)]
pub struct Epoch {
    pub source: String,
    pub algo: String,
    pub param: String,
}

impl Clone for Epoch {
    fn clone(&self) -> (res: Epoch)
        ensures
            res == *self,
    {
        Epoch { source: self.source.clone(), algo: self.algo.clone(), param: self.param.clone() }
    }
}

impl Default for Epoch {
    /// No epoch at all: every part empty.
    fn default() -> (res: Epoch)
        ensures
            res.source@.len() == 0,
            res.algo@.len() == 0,
            res.param@.len() == 0,
    {
        Epoch { source: String::new(), algo: String::new(), param: String::new() }
    }
}

impl Epoch {
    /// Whether this says anything at all.
    ///
    /// An event with no epoch could never be matched against an invalidation,
    /// so it would aggregate into a cell no plan can ever act on.
    pub fn is_empty(&self) -> (res: bool)
        ensures
            res == (self.source@.len() == 0 && self.algo@.len() == 0 && self.param@.len() == 0),
    {
        self.source.as_str().unicode_len() == 0 && self.algo.as_str().unicode_len() == 0
            && self.param.as_str().unicode_len() == 0
    }
}

/// What a manifest says about fetching a document with no coordinates.
#[derive(Debug, Clone, PartialEq)]
pub enum MetaUrl {
    /// Fetch it here.
    At(String),
    /// The service named this kind and said there is no URL worth fetching.
    NotWarmable,
    /// The manifest does not mention this kind at all.
    Unnamed,
}

/// How the origin treats warming traffic.
#[derive(Debug, Clone, Copy, PartialEq, Eq)]
pub struct Lanes {
    /// The origin keeps real misses ahead of warming.
    pub interactive_priority: Option<bool>,
}

/// A service that must be warmed around this one.
#[derive(Debug, Clone, PartialEq)]
pub struct Dependency {
    pub service: String,
    pub reason: Option<String>,
    pub order: DependencyOrder,
}

/// Which side of this service a dependency is warmed on.
#[derive(Debug, Clone, Copy, PartialEq, Eq)]
pub enum DependencyOrder {
    Before,
}

/// Whether a shallower zoom is a coarser view of the same ground.
///
/// This is the whole of what decides whether warming ancestors is worth
/// anything. Under `SizeBucket` a shallower tile covers the same ground with
/// less geometry, so warming it rescues nobody.
#[derive(Debug, Clone, Copy, PartialEq, Eq, Structural)]
pub enum ZoomSemantics {
    Resolution,
    SizeBucket,
}

/// What okibi reads of a service's manifest to name what it fetches.
///
/// The manifest's cost figures are measurements and guesses in floating point;
/// they travel beside this, with whatever turns a plan into a duration.
#[derive(Debug)]
pub struct ServiceManifest {
    pub manifest: String,
    pub service: String,
    /// Substituting `{tileset}`, `{id}` and `{epoch.*}` rebuilds a URL that
    /// regenerates the tile.
    pub url_template: String,
    /// By tile kind, for the documents that have no coordinates.
    ///
    /// A `None` says the kind is asked for and there is nothing warming it
    /// would achieve. That is different from a kind the manifest never
    /// mentions, which is a URL somebody forgot to give.
    pub meta_urls: TextMap<Option<String>>,
    pub lanes: Option<Lanes>,
    pub depends_on: Vec<Dependency>,
    pub zoom_semantics: ZoomSemantics,
}

/// A template with every placeholder filled in: the tileset, then the id, then
/// the three epochs, each placeholder replaced wherever it occurs.
pub open spec fn filled(
    template: Seq<char>,
    tileset: Seq<char>,
    id: Seq<char>,
    epoch: Epoch,
) -> Seq<char> {
    let t = replace_all(template, "{tileset}"@, tileset);
    let t = replace_all(t, "{id}"@, id);
    let t = replace_all(t, "{epoch.source}"@, epoch.source@);
    let t = replace_all(t, "{epoch.algo}"@, epoch.algo@);
    replace_all(t, "{epoch.param}"@, epoch.param@)
}

impl ServiceManifest {
    /// The URL that regenerates a tile.
    ///
    /// A service's own template, filled in. okibi never constructs a URL any
    /// other way, which is what keeps it from having to know what a tile is.
    pub fn url_for(&self, tileset: &str, id: &str, epoch: &Epoch) -> (res: String)
        ensures
            res@ == filled(self.url_template@, tileset@, id@, *epoch),
    {
        fill(self.url_template.as_str(), tileset, id, epoch)
    }

    /// What to do about a document with no coordinates.
    pub fn meta_url_for(&self, kind: &str, tileset: &str, id: &str, epoch: &Epoch) -> (res:
        MetaUrl)
        ensures
            match res {
                MetaUrl::At(url) => self.meta_urls@.contains_key(kind@) && (
                self.meta_urls@[kind@] matches Some(t) && url@ == filled(t@, tileset@, id@, *epoch)),
                MetaUrl::NotWarmable => self.meta_urls@.contains_key(kind@)
                    && self.meta_urls@[kind@] is None,
                MetaUrl::Unnamed => !self.meta_urls@.contains_key(kind@),
            },
    {
        match self.meta_urls.get(&kind.to_string()) {
            None => MetaUrl::Unnamed,
            Some(None) => MetaUrl::NotWarmable,
            Some(Some(template)) => MetaUrl::At(fill(template.as_str(), tileset, id, epoch)),
        }
    }
}

fn fill(template: &str, tileset: &str, id: &str, epoch: &Epoch) -> (res: String)
    ensures
        res@ == filled(template@, tileset@, id@, *epoch),
{
    proof {
        reveal_strlit("{tileset}");
        reveal_strlit("{id}");
        reveal_strlit("{epoch.source}");
        reveal_strlit("{epoch.algo}");
        reveal_strlit("{epoch.param}");
    }
    let t = replace(template, "{tileset}", tileset);
    let t = replace(t.as_str(), "{id}", id);
    let t = replace(t.as_str(), "{epoch.source}", epoch.source.as_str());
    let t = replace(t.as_str(), "{epoch.algo}", epoch.algo.as_str());
    replace(t.as_str(), "{epoch.param}", epoch.param.as_str())
}

} // verus!
