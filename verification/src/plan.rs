//! The plan: what to fetch, in what order.

use vstd::prelude::*;

use crate::sorted_map::TextMap;

verus! {

/// The version a warm plan carries.
pub const PLAN_VERSION: &'static str = "okibi-warm-plan/1";

/// Which inputs produced a plan.
///
/// A plan is a derived artifact rather than a claim: the sources are the
/// digest, the event and the manifests, and the same three give the same plan
/// back whenever anyone asks.
#[derive(Debug)]
pub struct DerivedFrom {
    pub digest: Vec<String>,
    pub invalidation: String,
    pub manifests: TextMap<String>,
}

/// How urgently an entry is fetched.
#[derive(Debug, Clone, Copy, PartialEq, Eq, Structural)]
pub enum Lane {
    /// The default: spare capacity only, within the manifest's limits.
    Warm,
    /// Promoted when the deadline is tight. Still behind interactive traffic
    /// at the origin.
    Urgent,
}

/// The lane every kept entry goes in, once `kept` of `considered` candidates
/// survived the cut.
///
/// What survived a cut is what must happen, so it is what gets the urgency.
/// Promoting everything when nothing was cut would make the lane meaningless.
pub fn lane_after_cut(kept: usize, considered: usize) -> (res: Lane)
    ensures
        res == (if kept < considered {
            Lane::Urgent
        } else {
            Lane::Warm
        }),
{
    if kept < considered {
        Lane::Urgent
    } else {
        Lane::Warm
    }
}

} // verus!
