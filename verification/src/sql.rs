//! The two queries a digest is made of, as the command line's configuration
//! asks for them.
//!
//! They are the same queries a service's own cron asks: what a configuration
//! file adds is which account to bill and nothing about the text. In
//! particular the generation quantiles are taken over misses only, and the
//! top tiles are asked for one service at a time.

use vstd::prelude::*;

use crate::config::Config;
use crate::query::{self, cells_sql, top_tiles_sql, DigestQuery};
use crate::sql_text::strings_view;
use crate::window::{window_from, window_to, Window};

verus! {

impl Config {
    /// What of the configuration the queries are built from.
    pub fn digest_query(&self) -> (res: DigestQuery)
        ensures
            res.dataset@ == self.dataset@,
            strings_view(res.services@) == strings_view(self.services@),
            res.top_n == self.top_n,
            res.top_rows == self.top_rows,
    {
        let mut services: Vec<String> = Vec::new();
        let mut i: usize = 0;
        while i < self.services.len()
            invariant
                i <= self.services@.len(),
                strings_view(services@) == strings_view(self.services@.take(i as int)),
            decreases self.services.len() - i,
        {
            services.push(self.services[i].clone());
            proof {
                assert(strings_view(self.services@.take(i + 1)) =~= strings_view(
                    self.services@.take(i as int),
                ).push(self.services@[i as int]@));
                assert(strings_view(services@) =~= strings_view(self.services@.take(i as int)).push(
                    self.services@[i as int]@,
                ));
            }
            i = i + 1;
        }
        proof {
            assert(self.services@.take(i as int) =~= self.services@);
        }
        DigestQuery {
            dataset: self.dataset.clone(),
            services,
            top_n: self.top_n,
            top_rows: self.top_rows,
        }
    }
}

/// One row per `(service, tileset, kind, qk8)`: the cells themselves.
pub fn cells(config: &Config, window: &Window) -> (res: String)
    ensures
        res@ == cells_sql(
            config.dataset@,
            window_from(window@),
            window_to(window@),
            strings_view(config.services@),
        ),
{
    query::cells(&config.digest_query(), window)
}

/// One row per tile of `service`, hottest first, for the `top_qk` and
/// `top_id` lists.
///
/// Asked once per service, because the row limit is a row count: ordered by
/// demand across every service, the busiest would take every row and the
/// slow services, which are the ones warming is for, would be planned from
/// nothing.
pub fn top_tiles(config: &Config, window: &Window, service: &str) -> (res: String)
    ensures
        res@ == top_tiles_sql(
            config.dataset@,
            window_from(window@),
            window_to(window@),
            service@,
            config.top_rows as nat,
        ),
{
    query::top_tiles(&config.digest_query(), window, service)
}

} // verus!
