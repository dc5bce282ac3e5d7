//! The two queries `okibi digest` asks, from a configuration file's settings.

use okibi::config::{Config, CONFIG_VERSION};
use okibi::sql::{cells, top_tiles};
use okibi::sql_text::quote;
use okibi::window::Window;

fn config() -> Config {
    Config {
        config: CONFIG_VERSION.to_string(),
        account_id: Some("acc".to_string()),
        services: vec!["papers".into(), "terrain".into()],
        ..Config::default()
    }
}

fn window() -> Window {
    Window::parse("2026-08-23").unwrap()
}

#[test]
fn sql_every_frequency_carries_the_sampling_weight() {
    let sql = cells(&config(), &window());
    for line in sql.lines() {
        if line.contains("double1") || line.contains("double4") {
            assert!(line.contains("_sample_interval"), "unweighted count: {line}");
        }
    }
}

#[test]
fn sql_demand_counts_organic_requests_only() {
    assert!(cells(&config(), &window()).contains("IF(blob13 = 'organic'"));
    assert!(top_tiles(&config(), &window(), "papers").contains("blob13 = 'organic'"));
}

#[test]
fn sql_generation_time_is_measured_over_every_request() {
    let sql = cells(&config(), &window());
    let gen_lines: Vec<&str> = sql.lines().filter(|line| line.contains("double2")).collect();

    assert!(!gen_lines.is_empty());
    for line in gen_lines {
        assert!(!line.contains("organic"), "{line}");
    }
}

#[test]
fn sql_reads_one_day_and_no_more() {
    let sql = cells(&config(), &window());
    assert!(sql.contains("timestamp >= toDateTime('2026-08-23 00:00:00')"));
    assert!(sql.contains("timestamp < toDateTime('2026-08-24 00:00:00')"));
}

#[test]
fn sql_filters_on_the_index_so_the_filter_is_the_fast_one() {
    assert!(cells(&config(), &window()).contains("index1 IN ('papers', 'terrain')"));
}

#[test]
fn sql_reads_every_service_when_none_are_named() {
    let mut config = config();
    config.services.clear();
    assert!(!cells(&config, &window()).contains("index1"));
}

#[test]
fn sql_a_name_cannot_close_the_quote_it_is_in() {
    let mut config = config();
    config.services = vec!["it's".to_string()];
    assert!(cells(&config, &window()).contains("index1 IN ('it''s')"));
}

#[test]
fn a_quote_is_doubled_and_the_whole_is_quoted() {
    assert_eq!(quote("it's"), "'it''s'");
    assert_eq!(quote(""), "''");
}

#[test]
fn the_top_tiles_query_is_limited_to_the_configured_rows() {
    let sql = top_tiles(&config(), &window(), "papers");
    assert!(sql.contains("LIMIT 10000"), "{sql}");
    assert!(sql.contains("FROM tile_demand_1"), "{sql}");
}

/// The command line asks the same questions a service's cron does: a hit
/// generated nothing, so the quantiles weigh misses only.
#[test]
fn the_configured_queries_take_quantiles_over_misses_only() {
    let sql = cells(&config(), &window());
    let quantiles: Vec<&str> = sql.lines().filter(|l| l.contains("quantileWeighted")).collect();
    assert_eq!(quantiles.len(), 2);
    for line in quantiles {
        assert!(line.contains("IF(blob7 = 'miss', _sample_interval, 0)"), "{line}");
    }
    assert!(sql.contains("MAX(_sample_interval) AS sample_interval_max"), "{sql}");
}

#[test]
fn the_configured_top_tiles_query_is_for_one_service() {
    let sql = top_tiles(&config(), &window(), "terrain");
    assert!(sql.contains("AND index1 = 'terrain'"), "{sql}");
    assert!(!sql.contains("index1 IN"), "{sql}");
}
