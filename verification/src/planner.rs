//! The decisions a plan is refused or bounded by, before any demand is
//! weighed.
//!
//! Planning is a pure function of the digests, the event and the manifests:
//! the deadline is a field on the event and how old a window is, is measured
//! against the event that names it. What is here is the part of it that is
//! text and whole numbers: which manifest applies, whether its templates can
//! be filled, which records and documents an event reaches, and how long its
//! deadline leaves.

use vstd::prelude::*;
use vstd::utf8::encode_utf8;

use crate::digest::{kind_name, kind_text, Kind};
use crate::invalidation::{is_named, scope_touches_cell, InvalidationEvent, Scope};
use crate::manifest::{filled, Epoch, MetaUrl, ServiceManifest};
use crate::sql_text::strings_view;
use crate::text::{contains, str_contains, str_eq};
use crate::sorted_map::TextMap;
use crate::time::{timestamp_of, timestamp_of_bytes};

verus! {

/// What `derived_from` will say. Hashing is the caller's job: a pure function
/// should not be choosing a digest algorithm.
#[derive(Debug)]
pub struct Sources {
    pub digest: Vec<String>,
    pub invalidation: String,
    pub manifests: TextMap<String>,
    pub pricing: String,
}

impl Default for Sources {
    /// Nothing named.
    fn default() -> (res: Sources)
        ensures
            res.digest@.len() == 0,
            res.invalidation@.len() == 0,
            res.manifests@ == Map::<Seq<char>, String>::empty(),
            res.pricing@.len() == 0,
    {
        Sources {
            digest: Vec::new(),
            invalidation: String::new(),
            manifests: TextMap::new(),
            pricing: String::new(),
        }
    }
}

/// Why no plan was derived.
#[derive(Debug, PartialEq)]
pub enum PlanError {
    /// No manifest for the service that was invalidated.
    NoManifest { service: String },
    /// A timestamp that could not be read.
    BadTime { field: &'static str, value: String },
    /// A URL template asks for an epoch that was not supplied.
    ///
    /// Better to refuse than to fetch `…?e={epoch.param}` a few thousand
    /// times: every one of those is a real request to a real origin, and they
    /// would all miss.
    EpochMissing { axis: &'static str, template: String },
    /// A document with no coordinates, and no `meta_urls` entry for its kind.
    NoMetaUrl { service: String, kind: &'static str },
}

// ---------------------------------------------------------------------------
// Which manifest.
// ---------------------------------------------------------------------------

/// The position of the first manifest for `service`, if any names it.
pub open spec fn first_manifest_for(services: Seq<Seq<char>>, service: Seq<char>) -> Option<int>
    decreases services.len(),
{
    if services.len() == 0 {
        None
    } else if services[0] == service {
        Some(0)
    } else {
        match first_manifest_for(services.drop_first(), service) {
            Some(i) => Some(i + 1),
            None => None,
        }
    }
}

/// The services the manifests are for, in order.
pub open spec fn services_of(manifests: Seq<ServiceManifest>) -> Seq<Seq<char>> {
    manifests.map_values(|m: ServiceManifest| m.service@)
}

/// The manifest for the service an event invalidated: the first that names it.
pub fn manifest_for<'a>(manifests: &'a [ServiceManifest], service: &str) -> (res: Result<
    &'a ServiceManifest,
    PlanError,
>)
    ensures
        match first_manifest_for(services_of(manifests@), service@) {
            Some(i) => res matches Ok(m) && *m == manifests@[i],
            None => res matches Err(e) && (e matches PlanError::NoManifest { service: s } && s@
                == service@),
        },
{
    let mut i: usize = 0;
    proof {
        assert(services_of(manifests@).skip(0) =~= services_of(manifests@));
    }
    while i < manifests.len()
        invariant
            i <= manifests@.len(),
            first_manifest_for(services_of(manifests@), service@) == (match first_manifest_for(
                services_of(manifests@).skip(i as int),
                service@,
            ) {
                Some(j) => Some(j + i),
                None => None,
            }),
        decreases manifests.len() - i,
    {
        let ghost rest = services_of(manifests@).skip(i as int);
        proof {
            assert(rest.drop_first() =~= services_of(manifests@).skip(i + 1));
            assert(rest[0] == manifests@[i as int].service@);
        }
        if str_eq(manifests[i].service.as_str(), service) {
            return Ok(&manifests[i]);
        }
        i = i + 1;
    }
    proof {
        assert(services_of(manifests@).skip(i as int).len() == 0);
    }
    Err(PlanError::NoManifest { service: service.to_string() })
}

// ---------------------------------------------------------------------------
// Whether the templates can be filled.
// ---------------------------------------------------------------------------

/// The first epoch, in the order source, algo, param, that `template` asks
/// for and `epoch` leaves empty.
pub open spec fn missing_axis(template: Seq<char>, epoch: Epoch) -> Option<Seq<char>> {
    if epoch.source@.len() == 0 && contains(template, "{epoch.source}"@) {
        Some("source"@)
    } else if epoch.algo@.len() == 0 && contains(template, "{epoch.algo}"@) {
        Some("algo"@)
    } else if epoch.param@.len() == 0 && contains(template, "{epoch.param}"@) {
        Some("param"@)
    } else {
        None
    }
}

/// The first of the templates, and the axis, that cannot be filled. Absent
/// templates are kinds with nothing to fetch, and ask for nothing.
pub open spec fn first_unfillable(templates: Seq<Option<String>>, epoch: Epoch) -> Option<
    (Seq<char>, Seq<char>),
>
    decreases templates.len(),
{
    if templates.len() == 0 {
        None
    } else {
        match templates[0] {
            Some(t) => match missing_axis(t@, epoch) {
                Some(axis) => Some((t@, axis)),
                None => first_unfillable(templates.drop_first(), epoch),
            },
            None => first_unfillable(templates.drop_first(), epoch),
        }
    }
}

/// What stops a manifest's templates being filled from `epoch`: the tile
/// template first, then the document templates in the order of their kinds.
pub open spec fn unfillable(manifest: ServiceManifest, epoch: Epoch) -> Option<
    (Seq<char>, Seq<char>),
> {
    match missing_axis(manifest.url_template@, epoch) {
        Some(axis) => Some((manifest.url_template@, axis)),
        None => first_unfillable(manifest.meta_urls.values(), epoch),
    }
}

/// The first epoch `template` asks for and `epoch` leaves empty.
fn missing_in(template: &str, epoch: &Epoch) -> (res: Option<&'static str>)
    ensures
        match missing_axis(template@, *epoch) {
            Some(axis) => res matches Some(a) && a@ == axis,
            None => res is None,
        },
{
    if epoch.source.as_str().unicode_len() == 0 && str_contains(template, "{epoch.source}") {
        return Some("source");
    }
    if epoch.algo.as_str().unicode_len() == 0 && str_contains(template, "{epoch.algo}") {
        return Some("algo");
    }
    if epoch.param.as_str().unicode_len() == 0 && str_contains(template, "{epoch.param}") {
        return Some("param");
    }
    None
}

/// A template may only ask for epochs that were supplied.
///
/// Most services do not ask at all: their version lives in a cache key rather
/// than in a URL, and requiring epochs from them would be requiring a file for
/// something nothing reads. The ones that do ask have to be given them.
pub fn check_epochs(manifest: &ServiceManifest, epoch: &Epoch) -> (res: Result<(), PlanError>)
    ensures
        match unfillable(*manifest, *epoch) {
            None => res is Ok,
            Some((template, axis)) => res matches Err(e) && (e matches PlanError::EpochMissing {
                axis: a,
                template: t,
            } && a@ == axis && t@ == template),
        },
{
    if let Some(axis) = missing_in(manifest.url_template.as_str(), epoch) {
        return Err(PlanError::EpochMissing { axis, template: manifest.url_template.clone() });
    }
    let n = manifest.meta_urls.len();
    let ghost templates = manifest.meta_urls.values();
    let mut i: usize = 0;
    proof {
        assert(templates.skip(0) =~= templates);
    }
    while i < n
        invariant
            i <= n,
            n == templates.len(),
            templates == manifest.meta_urls.values(),
            n == manifest.meta_urls.keys().len(),
            missing_axis(manifest.url_template@, *epoch) is None,
            first_unfillable(templates, *epoch) == first_unfillable(
                templates.skip(i as int),
                *epoch,
            ),
        decreases n - i,
    {
        proof {
            assert(templates.skip(i as int).drop_first() =~= templates.skip(i + 1));
            assert(templates.skip(i as int)[0] == templates[i as int]);
        }
        if let Some(template) = manifest.meta_urls.value_at(i) {
            if let Some(axis) = missing_in(template.as_str(), epoch) {
                return Err(PlanError::EpochMissing { axis, template: template.clone() });
            }
        }
        i = i + 1;
    }
    proof {
        assert(templates.skip(i as int).len() == 0);
    }
    Ok(())
}

// ---------------------------------------------------------------------------
// What an event reaches.
// ---------------------------------------------------------------------------

/// Whether a digest record is evidence about what an event invalidated: the
/// same service and tileset, and, for a record with coordinates, a cell the
/// scope touches.
pub open spec fn record_reached(
    event: InvalidationEvent,
    service: Seq<char>,
    tileset: Seq<char>,
    kind: Kind,
    qk8: Seq<char>,
) -> bool {
    &&& service == event.service@
    &&& tileset == event.tileset@
    &&& (kind == Kind::Content ==> scope_touches_cell(event.scope, qk8))
}

/// Whether a digest record is evidence about what `event` invalidated.
pub fn reaches_record(
    event: &InvalidationEvent,
    service: &str,
    tileset: &str,
    kind: Kind,
    qk8: &str,
) -> (res: bool)
    ensures
        res == record_reached(*event, service@, tileset@, kind, qk8@),
{
    if !str_eq(service, event.service.as_str()) || !str_eq(tileset, event.tileset.as_str()) {
        return false;
    }
    !kind.is_placed() || event.scope.touches_cell(qk8)
}

/// Whether a document with no coordinates is among what died.
///
/// It cannot be ruled out by a region: it is not anywhere, and a tileset.json
/// is as dead as the tiles it describes whichever part of the world was
/// invalidated. Only a scope that names ids has anything to say about it.
pub open spec fn document_reached(scope: Scope, id: Seq<char>) -> bool {
    match scope {
        Scope::Ids { ids } => is_named(strings_view(ids@), id),
        _ => true,
    }
}

/// Whether a document with no coordinates is among what `scope` killed.
pub fn reaches_document(scope: &Scope, id: &str) -> (res: bool)
    ensures
        res == document_reached(*scope, id@),
{
    match scope {
        Scope::Ids { ids } => {
            let mut i: usize = 0;
            while i < ids.len()
                invariant
                    i <= ids@.len(),
                    *scope == (Scope::Ids { ids: *ids }),
                    forall|j: int| 0 <= j < i ==> ids@[j]@ != id@,
                decreases ids.len() - i,
            {
                if str_eq(ids[i].as_str(), id) {
                    proof {
                        assert(strings_view(ids@)[i as int] == id@);
                        assert(is_named(strings_view(ids@), id@));
                    }
                    return true;
                }
                i = i + 1;
            }
            proof {
                assert forall|j: int| 0 <= j < strings_view(ids@).len() implies strings_view(
                    ids@,
                )[j] != id@ by {
                    assert(strings_view(ids@)[j] == ids@[j]@);
                }
            }
            false
        },
        _ => true,
    }
}

// ---------------------------------------------------------------------------
// How long the deadline leaves.
// ---------------------------------------------------------------------------

/// Seconds from the event to its deadline, never negative, when the deadline
/// bounds the plan; `None` when it does not; or the first of the two
/// timestamps that cannot be read.
pub open spec fn deadline_spec(event: InvalidationEvent, honour: bool) -> Result<
    Option<int>,
    (Seq<char>, Seq<char>),
> {
    match event.deadline {
        Some(deadline) if honour => match timestamp_of_bytes(encode_utf8(deadline@)) {
            None => Err(("deadline"@, deadline@)),
            Some(at) => match timestamp_of_bytes(encode_utf8(event.occurred_at@)) {
                None => Err(("occurred_at"@, event.occurred_at@)),
                Some(from) => Ok(Some(if at - from > 0 {
                    at - from
                } else {
                    0
                })),
            },
        },
        _ => Ok(None),
    }
}

/// How many seconds the event's deadline leaves, if the deadline bounds the
/// plan: a deadline already past leaves none.
pub fn deadline_seconds(event: &InvalidationEvent, honour: bool) -> (res: Result<
    Option<u64>,
    PlanError,
>)
    ensures
        match deadline_spec(*event, honour) {
            Ok(None) => res matches Ok(None),
            Ok(Some(s)) => res matches Ok(Some(v)) && v == s,
            Err((field, value)) => res matches Err(e) && (e matches PlanError::BadTime {
                field: f,
                value: v,
            } && f@ == field && v@ == value),
        },
{
    if !honour {
        return Ok(None);
    }
    let deadline = match &event.deadline {
        Some(d) => d,
        None => return Ok(None),
    };
    let at = match timestamp_of(deadline.as_str()) {
        Some(t) => t,
        None => return Err(PlanError::BadTime { field: "deadline", value: deadline.clone() }),
    };
    let from = match timestamp_of(event.occurred_at.as_str()) {
        Some(t) => t,
        None => {
            return Err(
                PlanError::BadTime { field: "occurred_at", value: event.occurred_at.clone() },
            )
        },
    };
    let gap: i128 = (at as i128) - (from as i128);
    if gap > 0 {
        Ok(Some(gap as u64))
    } else {
        Ok(Some(0))
    }
}

// ---------------------------------------------------------------------------
// Where a document is fetched from.
// ---------------------------------------------------------------------------

/// Where an entry sorts: metadata ahead of content whatever its score.
///
/// A cold root document is not one slow tile: it is every client's first
/// paint, before any tile is asked for.
#[derive(Debug, Clone, Copy, PartialEq, Eq, PartialOrd, Ord, Structural)]
pub enum Rank {
    Metadata,
    Content,
}

/// What becomes of one document a digest observed.
pub open spec fn location(
    manifest: ServiceManifest,
    service: Seq<char>,
    kind: Kind,
    tileset: Seq<char>,
    id: Seq<char>,
    epoch: Epoch,
) -> Result<Option<(Rank, Seq<char>)>, (Seq<char>, Seq<char>)> {
    if kind == Kind::Content {
        Ok(Some((Rank::Content, filled(manifest.url_template@, tileset, id, epoch))))
    } else if !manifest.meta_urls@.contains_key(kind_text(kind)) {
        Err((service, kind_text(kind)))
    } else {
        match manifest.meta_urls@[kind_text(kind)] {
            Some(t) => Ok(Some((Rank::Metadata, filled(t@, tileset, id, epoch)))),
            None => Ok(None),
        }
    }
}

/// Where to fetch one document a digest observed, and where it sorts.
///
/// A tile is fetched from the service's tile template. A document with no
/// coordinates is fetched from its kind's entry in `meta_urls`: `None` when
/// the service named the kind and said warming it achieves nothing, and an
/// error when the manifest never mentions the kind, since the tile template
/// would build a URL of the right shape for somewhere that does not exist.
pub fn locate(
    manifest: &ServiceManifest,
    service: &str,
    kind: Kind,
    tileset: &str,
    id: &str,
    epoch: &Epoch,
) -> (res: Result<Option<(Rank, String)>, PlanError>)
    ensures
        match location(*manifest, service@, kind, tileset@, id@, *epoch) {
            Ok(None) => res matches Ok(None),
            Ok(Some((rank, url))) => res matches Ok(Some((r, u))) && r == rank && u@ == url,
            Err((s, k)) => res matches Err(e) && (e matches PlanError::NoMetaUrl {
                service: es,
                kind: ek,
            } && es@ == s && ek@ == k),
        },
{
    if kind.is_placed() {
        return Ok(Some((Rank::Content, manifest.url_for(tileset, id, epoch))));
    }
    let name = kind_name(kind);
    match manifest.meta_url_for(name, tileset, id, epoch) {
        MetaUrl::At(url) => Ok(Some((Rank::Metadata, url))),
        MetaUrl::NotWarmable => Ok(None),
        MetaUrl::Unnamed => Err(PlanError::NoMetaUrl { service: service.to_string(), kind: name }),
    }
}

// ---------------------------------------------------------------------------
// Which window a cell's measurements come from.
// ---------------------------------------------------------------------------

/// What a cell keeps of the windows it has seen: the day of the freshest, and
/// the most distinct tiles any of them observed.
#[derive(Debug, Clone, Copy, PartialEq, Eq, Structural)]
pub struct CellWindow {
    pub newest: i64,
    pub tiles_observed: u64,
}

impl Default for CellWindow {
    /// A cell no window has been seen in.
    fn default() -> (res: CellWindow)
        ensures
            res.newest == 0,
            res.tiles_observed == 0,
    {
        CellWindow { newest: 0, tiles_observed: 0 }
    }
}

impl CellWindow {
    /// Takes in one more window of the cell, from day `window`, and says
    /// whether its measurements are now the cell's.
    ///
    /// The freshest window's measurements win, a later record of the same day
    /// over an earlier one: an old median describes an old generator. The
    /// count of distinct tiles is the most any window saw.
    pub fn absorb(&mut self, window: i64, tiles_observed: u64) -> (takes: bool)
        ensures
            takes == (window >= old(self).newest),
            final(self).newest == (if takes {
                window
            } else {
                old(self).newest
            }),
            final(self).tiles_observed == (if tiles_observed > old(self).tiles_observed {
                tiles_observed
            } else {
                old(self).tiles_observed
            }),
    {
        if tiles_observed > self.tiles_observed {
            self.tiles_observed = tiles_observed;
        }
        if window >= self.newest {
            self.newest = window;
            true
        } else {
            false
        }
    }
}

} // verus!
