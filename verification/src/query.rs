//! The two queries a digest is made of.
//!
//! Both are built here as text and run elsewhere, so that what gets sent can
//! be read, tested and printed before anyone points it at a real dataset.
//!
//! Two rules of the Analytics Engine binding are structural here rather than
//! remembered: every frequency is multiplied by `_sample_interval`, and demand
//! counts organic requests only. `query_rules` proves them of every line of
//! the cells query.

use vstd::prelude::*;

use crate::sql_lines::join_lines;
use crate::sql_text::{push_quoted, push_service_filter, quoted, service_filter_line, strings_view};
use crate::text::{dec_text, push_decimal, push_str};
use crate::window::{window_from, window_to, Window};

verus! {

/// The version a digest configuration carries.
pub const QUERY_VERSION: &'static str = "okibi-digest-config/1";

/// What a digest run needs to know beyond credentials.
///
/// One run covers every service, because the dataset is one dataset indexed by
/// service. An empty `services` reads all of them, which is the usual case:
/// the dataset is already the list of who writes events.
#[derive(Debug, Clone, PartialEq)]
pub struct DigestQuery {
    pub dataset: String,
    pub services: Vec<String>,
    pub top_n: usize,
    pub top_rows: usize,
}

impl Default for DigestQuery {
    fn default() -> (res: Self)
        ensures
            res.dataset@ == "tile_demand_1"@,
            res.services@.len() == 0,
            res.top_n == 20,
            res.top_rows == 10_000,
    {
        DigestQuery {
            dataset: "tile_demand_1".to_string(),
            services: Vec::new(),
            top_n: 20,
            top_rows: 10_000,
        }
    }
}

/// The select list of the cells query, a line for each column.
pub open spec fn cells_head_lines() -> Seq<Seq<char>> {
    seq![
        "SELECT"@,
        "  blob1 AS service,"@,
        "  blob2 AS tileset,"@,
        "  blob3 AS kind,"@,
        "  blob6 AS qk8,"@,
        "  SUM(IF(blob13 = 'organic', double1 * _sample_interval, 0.0)) AS req,"@,
        "  SUM(IF(blob13 = 'organic' AND blob7 = 'miss', double1 * _sample_interval, 0.0)) AS miss,"@,
        "  quantileWeighted(0.5)(double2, IF(blob7 = 'miss', _sample_interval, 0)) AS p50_gen_ms,"@,
        "  quantileWeighted(0.95)(double2, IF(blob7 = 'miss', _sample_interval, 0)) AS p95_gen_ms,"@,
        "  SUM(double2 * _sample_interval) AS sum_gen_ms,"@,
        "  SUM(double4 * _sample_interval) AS bytes,"@,
        "  SUM(double4 * _sample_interval) / SUM(double1 * _sample_interval) AS avg_bytes,"@,
        "  COUNT(DISTINCT blob4) AS tiles_observed,"@,
        "  MAX(_sample_interval) AS sample_interval_max"@,
    ]
}

/// The line of the filter on services, if any are named.
pub open spec fn service_filter_lines(services: Seq<Seq<char>>) -> Seq<Seq<char>> {
    if services.len() == 0 {
        Seq::empty()
    } else {
        seq![service_filter_line(services)]
    }
}

/// The lines of the cells query that its arguments are written into: the
/// dataset, the two bounds and, if any are named, the services.
pub open spec fn cells_filled_lines(
    dataset: Seq<char>,
    from: Seq<char>,
    to: Seq<char>,
    services: Seq<Seq<char>>,
) -> Seq<Seq<char>> {
    seq![
        "FROM "@ + dataset,
        "WHERE timestamp >= toDateTime("@ + quoted(from) + ")"@,
        "  AND timestamp < toDateTime("@ + quoted(to) + ")"@,
    ] + service_filter_lines(services)
}

/// The lines that close the cells query.
pub open spec fn cells_tail_lines() -> Seq<Seq<char>> {
    seq!["GROUP BY service, tileset, kind, qk8"@, "FORMAT JSON"@]
}

/// The lines of the cells query over `dataset` between `from` and `to`, for
/// `services`.
pub open spec fn cells_lines(
    dataset: Seq<char>,
    from: Seq<char>,
    to: Seq<char>,
    services: Seq<Seq<char>>,
) -> Seq<Seq<char>> {
    cells_head_lines() + cells_filled_lines(dataset, from, to, services) + cells_tail_lines()
}

/// The cells query over `dataset` between `from` and `to`, for `services`.
pub open spec fn cells_sql(
    dataset: Seq<char>,
    from: Seq<char>,
    to: Seq<char>,
    services: Seq<Seq<char>>,
) -> Seq<char> {
    join_lines(cells_lines(dataset, from, to, services))
}

/// The select list of the top-tiles query, up to the dataset's name.
pub open spec fn top_tiles_head() -> Seq<char> {
    "SELECT
  blob1 AS service,
  blob2 AS tileset,
  blob3 AS kind,
  blob6 AS qk8,
  blob5 AS qk,
  blob4 AS id,
  SUM(double1 * _sample_interval) AS req
FROM "@
}

/// The top-tiles query over `dataset` between `from` and `to`, for one
/// service, limited to `rows` rows.
pub open spec fn top_tiles_sql(
    dataset: Seq<char>,
    from: Seq<char>,
    to: Seq<char>,
    service: Seq<char>,
    rows: nat,
) -> Seq<char> {
    top_tiles_head() + dataset + "
WHERE timestamp >= toDateTime("@ + quoted(from) + ")
  AND timestamp < toDateTime("@ + quoted(to)
        + ")
  AND blob13 = 'organic'
  AND index1 = "@ + quoted(service) + "
GROUP BY service, tileset, kind, qk8, qk, id
ORDER BY req DESC
LIMIT "@ + dec_text(rows) + "
FORMAT JSON"@
}

/// One row per `(service, tileset, kind, qk8)`: the cells themselves.
pub fn cells(config: &DigestQuery, window: &Window) -> (res: String)
    ensures
        res@ == cells_sql(
            config.dataset@,
            window_from(window@),
            window_to(window@),
            strings_view(config.services@),
        ),
{
    let (from, to) = window.bounds();
    let ghost names = strings_view(config.services@);
    let mut out = String::new();
    push_str(&mut out, "SELECT");
    let ghost mut done: Seq<Seq<char>> = seq!["SELECT"@];
    proof {
        assert(out@ =~= join_lines(done));
    }
    push_next_line(&mut out, Ghost(done), "  blob1 AS service,");
    proof {
        done = done.push("  blob1 AS service,"@);
    }
    push_next_line(&mut out, Ghost(done), "  blob2 AS tileset,");
    proof {
        done = done.push("  blob2 AS tileset,"@);
    }
    push_next_line(&mut out, Ghost(done), "  blob3 AS kind,");
    proof {
        done = done.push("  blob3 AS kind,"@);
    }
    push_next_line(&mut out, Ghost(done), "  blob6 AS qk8,");
    proof {
        done = done.push("  blob6 AS qk8,"@);
    }
    push_next_line(&mut out, Ghost(done), "  SUM(IF(blob13 = 'organic', double1 * _sample_interval, 0.0)) AS req,");
    proof {
        done = done.push("  SUM(IF(blob13 = 'organic', double1 * _sample_interval, 0.0)) AS req,"@);
    }
    push_next_line(&mut out, Ghost(done), "  SUM(IF(blob13 = 'organic' AND blob7 = 'miss', double1 * _sample_interval, 0.0)) AS miss,");
    proof {
        done = done.push("  SUM(IF(blob13 = 'organic' AND blob7 = 'miss', double1 * _sample_interval, 0.0)) AS miss,"@);
    }
    push_next_line(&mut out, Ghost(done), "  quantileWeighted(0.5)(double2, IF(blob7 = 'miss', _sample_interval, 0)) AS p50_gen_ms,");
    proof {
        done = done.push("  quantileWeighted(0.5)(double2, IF(blob7 = 'miss', _sample_interval, 0)) AS p50_gen_ms,"@);
    }
    push_next_line(&mut out, Ghost(done), "  quantileWeighted(0.95)(double2, IF(blob7 = 'miss', _sample_interval, 0)) AS p95_gen_ms,");
    proof {
        done = done.push("  quantileWeighted(0.95)(double2, IF(blob7 = 'miss', _sample_interval, 0)) AS p95_gen_ms,"@);
    }
    push_next_line(&mut out, Ghost(done), "  SUM(double2 * _sample_interval) AS sum_gen_ms,");
    proof {
        done = done.push("  SUM(double2 * _sample_interval) AS sum_gen_ms,"@);
    }
    push_next_line(&mut out, Ghost(done), "  SUM(double4 * _sample_interval) AS bytes,");
    proof {
        done = done.push("  SUM(double4 * _sample_interval) AS bytes,"@);
    }
    push_next_line(&mut out, Ghost(done), "  SUM(double4 * _sample_interval) / SUM(double1 * _sample_interval) AS avg_bytes,");
    proof {
        done = done.push("  SUM(double4 * _sample_interval) / SUM(double1 * _sample_interval) AS avg_bytes,"@);
    }
    push_next_line(&mut out, Ghost(done), "  COUNT(DISTINCT blob4) AS tiles_observed,");
    proof {
        done = done.push("  COUNT(DISTINCT blob4) AS tiles_observed,"@);
    }
    push_next_line(&mut out, Ghost(done), "  MAX(_sample_interval) AS sample_interval_max");
    proof {
        done = done.push("  MAX(_sample_interval) AS sample_interval_max"@);
    }
    push_newline(&mut out, Ghost(done));
    push_str(&mut out, "FROM ");
    push_str(&mut out, config.dataset.as_str());
    proof {
        let line = "FROM "@ + config.dataset@;
        lemma_join_push(done, line);
        assert(out@ =~= join_lines(done.push(line)));
        done = done.push(line);
    }
    push_newline(&mut out, Ghost(done));
    push_str(&mut out, "WHERE timestamp >= toDateTime(");
    push_quoted(&mut out, from.as_str());
    push_str(&mut out, ")");
    proof {
        let line = "WHERE timestamp >= toDateTime("@ + quoted(from@) + ")"@;
        lemma_join_push(done, line);
        assert(out@ =~= join_lines(done.push(line)));
        done = done.push(line);
    }
    push_newline(&mut out, Ghost(done));
    push_str(&mut out, "  AND timestamp < toDateTime(");
    push_quoted(&mut out, to.as_str());
    push_str(&mut out, ")");
    proof {
        let line = "  AND timestamp < toDateTime("@ + quoted(to@) + ")"@;
        lemma_join_push(done, line);
        assert(out@ =~= join_lines(done.push(line)));
        done = done.push(line);
    }
    if config.services.len() > 0 {
        push_newline(&mut out, Ghost(done));
        push_service_filter(&mut out, &config.services);
        proof {
            let line = service_filter_line(names);
            lemma_join_push(done, line);
            assert(out@ =~= join_lines(done.push(line)));
            done = done.push(line);
        }
    }
    push_next_line(&mut out, Ghost(done), "GROUP BY service, tileset, kind, qk8");
    proof {
        done = done.push("GROUP BY service, tileset, kind, qk8"@);
    }
    push_next_line(&mut out, Ghost(done), "FORMAT JSON");
    proof {
        done = done.push("FORMAT JSON"@);
    }
    proof {
        assert(done =~= cells_lines(config.dataset@, from@, to@, names));
    }
    out
}

/// Appends a newline and then `line`.
fn push_next_line(out: &mut String, Ghost(done): Ghost<Seq<Seq<char>>>, line: &str)
    requires
        done.len() >= 1,
        old(out)@ == join_lines(done),
    ensures
        final(out)@ == join_lines(done.push(line@)),
{
    push_newline(out, Ghost(done));
    push_str(out, line);
    proof {
        lemma_join_push(done, line@);
    }
}

/// Appends the newline that starts the line after `done`.
fn push_newline(out: &mut String, Ghost(done): Ghost<Seq<Seq<char>>>)
    requires
        old(out)@ == join_lines(done),
    ensures
        final(out)@ == join_lines(done) + seq!['\n'],
{
    push_str(out, "\n");
    proof {
        reveal_strlit("\n");
        assert("\n"@ =~= seq!['\n']);
    }
}

proof fn lemma_join_push(done: Seq<Seq<char>>, line: Seq<char>)
    requires
        done.len() >= 1,
    ensures
        join_lines(done.push(line)) == join_lines(done) + seq!['\n'] + line,
{
    assert(done.push(line).drop_last() =~= done);
}

/// One row per tile, hottest first, for the `top_qk` and `top_id` lists.
///
/// The limit is spent per service rather than across all of them, which is
/// why this takes one. A single query ordered by demand gives every row to
/// the busiest service, and the services that most need warming are the slow
/// ones, not the busy ones.
pub fn top_tiles(config: &DigestQuery, window: &Window, service: &str) -> (res: String)
    ensures
        res@ == top_tiles_sql(
            config.dataset@,
            window_from(window@),
            window_to(window@),
            service@,
            config.top_rows as nat,
        ),
{
    let (from, to) = window.bounds();
    let mut out = String::new();
    push_str(&mut out, "SELECT
  blob1 AS service,
  blob2 AS tileset,
  blob3 AS kind,
  blob6 AS qk8,
  blob5 AS qk,
  blob4 AS id,
  SUM(double1 * _sample_interval) AS req
FROM ");
    push_str(&mut out, config.dataset.as_str());
    push_str(&mut out, "
WHERE timestamp >= toDateTime(");
    push_quoted(&mut out, from.as_str());
    push_str(&mut out, ")
  AND timestamp < toDateTime(");
    push_quoted(&mut out, to.as_str());
    push_str(&mut out, ")
  AND blob13 = 'organic'
  AND index1 = ");
    push_quoted(&mut out, service);
    push_str(&mut out, "
GROUP BY service, tileset, kind, qk8, qk, id
ORDER BY req DESC
LIMIT ");
    push_decimal(&mut out, config.top_rows as u64);
    push_str(&mut out, "
FORMAT JSON");
    proof {
        assert(out@ =~= top_tiles_sql(
            config.dataset@,
            window_from(window@),
            window_to(window@),
            service@,
            config.top_rows as nat,
        ));
    }
    out
}

/// Which service a top-tiles query is asked for: the one named, or else the
/// only one the configuration names, or else none, and only the cells query
/// is asked, which is what says which services wrote anything.
pub fn service_for_top_tiles(named: Option<String>, config: &DigestQuery) -> (res: Option<String>)
    ensures
        match named {
            Some(s) => res == Some(s),
            None => if config.services@.len() == 1 {
                res matches Some(s) && s@ == config.services@[0]@
            } else {
                res is None
            },
        },
{
    match named {
        Some(service) => Some(service),
        None => {
            if config.services.len() == 1 {
                Some(config.services[0].clone())
            } else {
                None
            }
        },
    }
}


} // verus!
