//! The demand digest: aggregated demand, and the only demand data the planner
//! reads.

use vstd::prelude::*;

use crate::text::str_eq;

verus! {

/// The version every digest record carries, so a reader in a mixed period can
/// branch on what it was handed rather than guess from the shape.
pub const DIGEST_VERSION: &'static str = "tile-demand-digest/1";

/// The `qk8` of a record with no coordinates, which cannot be placed in a cell.
pub const UNPLACED: &'static str = "-";

/// What sort of request a record aggregates.
#[derive(Debug, Clone, Copy, PartialEq, Eq, PartialOrd, Ord, Hash, Structural)]
pub enum Kind {
    Content,
    Tileset,
    Subtree,
    Meta,
}

/// The name a kind is written with.
pub open spec fn kind_text(kind: Kind) -> Seq<char> {
    match kind {
        Kind::Content => "content"@,
        Kind::Tileset => "tileset"@,
        Kind::Subtree => "subtree"@,
        Kind::Meta => "meta"@,
    }
}

/// The kind a name stands for, if it names one this version has.
pub open spec fn kind_named(name: Seq<char>) -> Option<Kind> {
    if name == "content"@ {
        Some(Kind::Content)
    } else if name == "tileset"@ {
        Some(Kind::Tileset)
    } else if name == "subtree"@ {
        Some(Kind::Subtree)
    } else if name == "meta"@ {
        Some(Kind::Meta)
    } else {
        None
    }
}

impl Kind {
    /// Whether requests of this kind have tile coordinates, and so a cell to
    /// belong to.
    pub fn is_placed(&self) -> (res: bool)
        ensures
            res == (*self == Kind::Content),
    {
        match self {
            Kind::Content => true,
            _ => false,
        }
    }
}

/// The name a kind is written with.
pub fn kind_name(kind: Kind) -> (res: &'static str)
    ensures
        res@ == kind_text(kind),
{
    match kind {
        Kind::Content => "content",
        Kind::Tileset => "tileset",
        Kind::Subtree => "subtree",
        Kind::Meta => "meta",
    }
}

/// The kind a name stands for, or `None` for a kind this version of the
/// vocabulary does not have.
pub fn parse_kind(kind: &str) -> (res: Option<Kind>)
    ensures
        res == kind_named(kind@),
{
    if str_eq(kind, "content") {
        Some(Kind::Content)
    } else if str_eq(kind, "tileset") {
        Some(Kind::Tileset)
    } else if str_eq(kind, "subtree") {
        Some(Kind::Subtree)
    } else if str_eq(kind, "meta") {
        Some(Kind::Meta)
    } else {
        None
    }
}

/// A kind survives being written and read back.
pub proof fn law_kind_names_round_trip(kind: Kind)
    ensures
        kind_named(kind_text(kind)) == Some(kind),
{
    reveal_strlit("content");
    reveal_strlit("tileset");
    reveal_strlit("subtree");
    reveal_strlit("meta");
    assert("content"@[0] == 'c');
    assert("tileset"@[0] == 't');
    assert("subtree"@[0] == 's');
    assert("meta"@[0] == 'm');
}

} // verus!
