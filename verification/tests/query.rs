//! The two queries a digest is made of, as a service's own cron asks them.

use okibi::query::{cells, service_for_top_tiles, top_tiles, DigestQuery};
use okibi::window::Window;

fn config() -> DigestQuery {
    DigestQuery {
        services: vec!["papers".into(), "terrain".into()],
        ..DigestQuery::default()
    }
}

fn window() -> Window {
    Window::parse("2026-08-23").unwrap()
}

#[test]
fn query_every_frequency_carries_the_sampling_weight() {
    let sql = cells(&config(), &window());
    for line in sql.lines() {
        if line.contains("double1") || line.contains("double4") {
            assert!(line.contains("_sample_interval"), "unweighted count: {line}");
        }
    }
}

#[test]
fn query_demand_counts_organic_requests_only() {
    assert!(cells(&config(), &window()).contains("IF(blob13 = 'organic'"));
    assert!(top_tiles(&config(), &window(), "papers").contains("blob13 = 'organic'"));
}

/// Generation time is a property of generating, not of who asked.
#[test]
fn query_generation_time_is_measured_over_every_request() {
    let sql = cells(&config(), &window());
    let gen_lines: Vec<&str> = sql.lines().filter(|line| line.contains("double2")).collect();

    assert!(!gen_lines.is_empty());
    for line in gen_lines {
        assert!(!line.contains("organic"), "{line}");
    }
}

#[test]
fn asks_how_hard_the_rows_were_sampled() {
    let sql = cells(&config(), &window());
    assert!(sql.contains("MAX(_sample_interval) AS sample_interval_max"), "{sql}");
}

#[test]
fn query_reads_one_day_and_no_more() {
    let sql = cells(&config(), &window());
    assert!(sql.contains("timestamp >= toDateTime('2026-08-23 00:00:00')"));
    assert!(sql.contains("timestamp < toDateTime('2026-08-24 00:00:00')"));
}

#[test]
fn query_filters_on_the_index_so_the_filter_is_the_fast_one() {
    assert!(cells(&config(), &window()).contains("index1 IN ('papers', 'terrain')"));
}

#[test]
fn query_reads_every_service_when_none_are_named() {
    let mut config = config();
    config.services.clear();
    assert!(!cells(&config, &window()).contains("index1"));
}

#[test]
fn a_top_tiles_query_is_for_one_service() {
    let sql = top_tiles(&config(), &window(), "papers");
    assert!(sql.contains("AND index1 = 'papers'"), "{sql}");
    assert!(!sql.contains("index1 IN"), "{sql}");
}

#[test]
fn generation_quantiles_are_taken_over_misses_only() {
    let sql = cells(&config(), &window());
    for line in sql.lines().filter(|line| line.contains("quantileWeighted")) {
        assert!(line.contains("IF(blob7 = 'miss', _sample_interval, 0)"), "{line}");
    }
}

#[test]
fn query_a_name_cannot_close_the_quote_it_is_in() {
    let mut config = config();
    config.services = vec!["it's".to_string()];
    assert!(cells(&config, &window()).contains("index1 IN ('it''s')"));
}

#[test]
fn the_defaults_read_the_whole_dataset() {
    let config = DigestQuery::default();
    assert_eq!(config.dataset, "tile_demand_1");
    assert!(config.services.is_empty());
    assert_eq!(config.top_n, 20);
    assert_eq!(config.top_rows, 10_000);
}

#[test]
fn the_top_tiles_service_is_the_named_one_or_the_only_one() {
    let mut config = config();
    assert_eq!(service_for_top_tiles(Some("terrain".into()), &config), Some("terrain".into()));
    assert_eq!(service_for_top_tiles(None, &config), None);
    config.services = vec!["papers".into()];
    assert_eq!(service_for_top_tiles(None, &config), Some("papers".into()));
    config.services.clear();
    assert_eq!(service_for_top_tiles(None, &config), None);
}

#[test]
fn the_cells_query_is_a_line_per_column_and_clause() {
    let sql = cells(&config(), &window());
    let lines: Vec<&str> = sql.lines().collect();
    assert_eq!(lines.len(), 20);
    assert_eq!(lines[13], "  MAX(_sample_interval) AS sample_interval_max");
    assert_eq!(lines[14], "FROM tile_demand_1");
    assert_eq!(lines[17], "  AND index1 IN ('papers', 'terrain')");
    assert_eq!(lines[19], "FORMAT JSON");

    let mut every = config();
    every.services.clear();
    let sql = cells(&every, &window());
    assert_eq!(sql.lines().count(), 19);
    assert!(sql.lines().all(|line| !line.contains("index1")));
}

fn keeps_rules(sql: &str, every_service: bool) -> bool {
    sql.lines().all(|line| {
        (!(line.contains("double1") || line.contains("double4")) || line.contains("_sample_interval"))
            && (!line.contains("quantileWeighted")
                || line.contains("IF(blob7 = 'miss', _sample_interval, 0)"))
            && (!line.contains("double2") || !line.contains("organic"))
            && (!every_service || !line.contains("index1"))
    })
}

#[test]
fn names_on_several_lines_keep_the_rules() {
    let mut config = config();
    config.dataset = "tile\ndemand".into();
    config.services = vec!["pa\npers".into(), "it's".into()];
    assert!(keeps_rules(&cells(&config, &window()), false));
    config.services.clear();
    assert!(keeps_rules(&cells(&config, &window()), true));
}

#[test]
fn a_name_that_reads_a_column_can_break_the_rules() {
    let mut config = config();
    config.dataset = "double1".into();
    let sql = cells(&config, &window());
    assert!(sql.lines().any(|line| line == "FROM double1"));
    assert!(!keeps_rules(&sql, false));
}
