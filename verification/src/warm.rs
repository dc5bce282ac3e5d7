//! What an executor reports after reading a plan from the top and fetching
//! it.

use vstd::prelude::*;

verus! {

/// The header that tells a service this request is okibi's own.
///
/// Without it the service writes `origin: organic` and okibi's warming becomes
/// tomorrow's demand: a loop that ends with the plan describing the planner's
/// own history.
pub const WARM_HEADER: &'static str = "X-Okibi-Warm";

/// How a warm run went: how many URLs were fetched, and each that was not,
/// with why.
#[derive(Debug)]
pub struct Report {
    pub fetched: usize,
    pub failed: Vec<(String, String)>,
}

impl Default for Report {
    /// Nothing fetched, nothing failed.
    fn default() -> (res: Report)
        ensures
            res.fetched == 0,
            res.failed@.len() == 0,
    {
        Report { fetched: 0, failed: Vec::new() }
    }
}

} // verus!
