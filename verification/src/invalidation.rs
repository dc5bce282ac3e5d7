//! What died.

use vstd::prelude::*;

use crate::sql_text::strings_view;
use crate::text::{starts_with, str_eq, str_starts_with};

verus! {

/// The version an invalidation event carries.
pub const INVALIDATION_VERSION: &'static str = "okibi-invalidation/1";

/// Which of a tileset's epochs moved.
#[derive(Debug, Clone, Copy, PartialEq, Eq, Structural)]
pub enum Axis {
    Source,
    Algo,
    Param,
}

/// What of the tileset died.
#[derive(Debug, Clone, PartialEq)]
pub enum Scope {
    /// The whole tileset. With cache keys compiled into a service, this is
    /// most invalidations.
    All,
    /// Regions, named by quadkey prefix.
    QkPrefixes { prefixes: Vec<String> },
    /// Named tiles, by native id.
    Ids { ids: Vec<String> },
}

/// The normalised form of an invalidation, whatever mechanism caused it.
#[derive(Debug, Clone, PartialEq)]
pub struct InvalidationEvent {
    pub event: String,
    pub service: String,
    pub tileset: String,
    pub axis: Axis,
    pub epoch_from: String,
    pub epoch_to: String,
    pub scope: Scope,
    pub occurred_at: String,
    /// A time the warming should be finished by. An input, not a clock the
    /// planner reads.
    pub deadline: Option<String>,
}

/// Some named region holds the cell, or lies inside it.
pub open spec fn some_region_meets(prefixes: Seq<Seq<char>>, qk8: Seq<char>) -> bool {
    exists|i: int|
        0 <= i < prefixes.len() && (starts_with(qk8, #[trigger] prefixes[i]) || starts_with(
            prefixes[i],
            qk8,
        ))
}

/// Some named region holds the tile.
pub open spec fn some_region_holds(prefixes: Seq<Seq<char>>, qk: Seq<char>) -> bool {
    exists|i: int| 0 <= i < prefixes.len() && starts_with(qk, #[trigger] prefixes[i])
}

/// The tile's id is one of those named.
pub open spec fn is_named(ids: Seq<Seq<char>>, id: Seq<char>) -> bool {
    exists|i: int| 0 <= i < ids.len() && #[trigger] ids[i] == id
}

/// Whether a cell, named by its `qk8`, can hold anything the scope killed: a
/// cell inside a named region, or a region inside the cell. Named ids are
/// somewhere, and which cell is not decidable from the id alone.
pub open spec fn scope_touches_cell(scope: Scope, qk8: Seq<char>) -> bool {
    match scope {
        Scope::All => true,
        Scope::QkPrefixes { prefixes } => some_region_meets(strings_view(prefixes@), qk8),
        Scope::Ids { .. } => true,
    }
}

/// Whether the scope killed this exact tile.
pub open spec fn scope_covers_tile(scope: Scope, qk: Seq<char>, id: Seq<char>) -> bool {
    match scope {
        Scope::All => true,
        Scope::QkPrefixes { prefixes } => some_region_holds(strings_view(prefixes@), qk),
        Scope::Ids { ids } => is_named(strings_view(ids@), id),
    }
}

/// The cell a quadkey's text falls in: its first eight characters.
pub open spec fn cell_of(qk: Seq<char>) -> Seq<char> {
    if qk.len() <= 8 {
        qk
    } else {
        qk.take(8)
    }
}

impl Scope {
    /// Whether a cell can hold anything this invalidation killed.
    ///
    /// A cell is eight quadkey characters and a prefix can be longer or
    /// shorter than that, so the test runs both ways. Being wrong in the
    /// strict direction would drop tiles that did die.
    pub fn touches_cell(&self, qk8: &str) -> (res: bool)
        ensures
            res == scope_touches_cell(*self, qk8@),
    {
        match self {
            Scope::All => true,
            Scope::QkPrefixes { prefixes } => {
                let mut i: usize = 0;
                while i < prefixes.len()
                    invariant
                        i <= prefixes@.len(),
                        *self == (Scope::QkPrefixes { prefixes: *prefixes }),
                        forall|j: int|
                            0 <= j < i ==> !(starts_with(qk8@, #[trigger] strings_view(prefixes@)[j])
                                || starts_with(strings_view(prefixes@)[j], qk8@)),
                    decreases prefixes.len() - i,
                {
                    let prefix = prefixes[i].as_str();
                    if str_starts_with(qk8, prefix) || str_starts_with(prefix, qk8) {
                        proof {
                            assert(starts_with(qk8@, prefixes@[i as int]@) || starts_with(
                                prefixes@[i as int]@,
                                qk8@,
                            ));
                            assert(strings_view(prefixes@)[i as int] == prefixes@[i as int]@);
                            assert(some_region_meets(strings_view(prefixes@), qk8@));
                        }
                        return true;
                    }
                    i = i + 1;
                }
                false
            },
            Scope::Ids { .. } => true,
        }
    }

    /// Whether this exact tile died.
    pub fn covers_tile(&self, qk: &str, id: &str) -> (res: bool)
        ensures
            res == scope_covers_tile(*self, qk@, id@),
    {
        match self {
            Scope::All => true,
            Scope::QkPrefixes { prefixes } => {
                let mut i: usize = 0;
                while i < prefixes.len()
                    invariant
                        i <= prefixes@.len(),
                        *self == (Scope::QkPrefixes { prefixes: *prefixes }),
                        forall|j: int|
                            0 <= j < i ==> !starts_with(qk@, #[trigger] strings_view(prefixes@)[j]),
                    decreases prefixes.len() - i,
                {
                    if str_starts_with(qk, prefixes[i].as_str()) {
                        proof {
                            assert(strings_view(prefixes@)[i as int] == prefixes@[i as int]@);
                            assert(some_region_holds(strings_view(prefixes@), qk@));
                        }
                        return true;
                    }
                    i = i + 1;
                }
                false
            },
            Scope::Ids { ids } => {
                let mut i: usize = 0;
                while i < ids.len()
                    invariant
                        i <= ids@.len(),
                        *self == (Scope::Ids { ids: *ids }),
                        forall|j: int| 0 <= j < i ==> #[trigger] strings_view(ids@)[j] != id@,
                    decreases ids.len() - i,
                {
                    if str_eq(ids[i].as_str(), id) {
                        proof {
                            assert(strings_view(ids@)[i as int] == ids@[i as int]@);
                            assert(is_named(strings_view(ids@), id@));
                        }
                        return true;
                    }
                    i = i + 1;
                }
                false
            },
        }
    }
}

/// A tile the scope killed lies in a cell the scope touches: the cell test
/// can only ever let through too much, never drop a tile that died.
pub proof fn law_a_covered_tile_is_in_a_touched_cell(scope: Scope, qk: Seq<char>, id: Seq<char>)
    requires
        scope_covers_tile(scope, qk, id),
    ensures
        scope_touches_cell(scope, cell_of(qk)),
{
    match scope {
        Scope::QkPrefixes { prefixes } => {
            let names = strings_view(prefixes@);
            let i = choose|i: int| 0 <= i < names.len() && starts_with(qk, #[trigger] names[i]);
            let p = names[i];
            let cell = cell_of(qk);
            if p.len() <= cell.len() {
                assert(cell.take(p.len() as int) =~= qk.take(p.len() as int));
                assert(starts_with(cell, p));
                assert(some_region_meets(names, cell));
            } else {
                assert(p.take(cell.len() as int) =~= cell);
                assert(starts_with(p, cell));
                assert(some_region_meets(names, cell));
            }
        },
        _ => {},
    }
}

} // verus!
