//! Turning query rows into digest records.
//!
//! The rows here carry their figures beside them, as the caller does: the
//! library decides which rows make which record, and the caller hands the
//! top-tiles rows over hottest first.

use okibi::aggregate::{assemble, cell_key, Assembled, CellRow, Skipped, TileRow};
use okibi::digest::Kind;
use okibi::window::Window;

fn window() -> Window {
    Window::parse("2026-08-23").unwrap()
}

fn cell(kind: &str, qk8: &str) -> CellRow {
    CellRow {
        service: "papers".into(),
        tileset: "style-aoi-04".into(),
        kind: kind.into(),
        qk8: qk8.into(),
    }
}

fn tile(kind: &str, qk8: &str, qk: &str, id: &str) -> TileRow {
    TileRow {
        service: "papers".into(),
        tileset: "style-aoi-04".into(),
        kind: kind.into(),
        qk8: qk8.into(),
        qk: qk.into(),
        id: id.into(),
    }
}

/// Hottest first, with the key breaking ties, as the caller orders the rows.
fn hottest_first(rows: Vec<(TileRow, f64)>) -> (Vec<TileRow>, Vec<f64>) {
    let mut rows = rows;
    rows.sort_by(|a, b| {
        b.1.partial_cmp(&a.1)
            .unwrap_or(std::cmp::Ordering::Equal)
            .then_with(|| a.0.qk.cmp(&b.0.qk))
    });
    let req = rows.iter().map(|(_, r)| *r).collect();
    (rows.into_iter().map(|(t, _)| t).collect(), req)
}

#[test]
fn a_cell_carries_its_hottest_tiles_first() {
    let (tiles, _) = hottest_first(vec![
        (tile("content", "13300211", "13300211231023", "a"), 1544.0),
        (tile("content", "13300211", "13300211231022", "b"), 1820.0),
    ]);
    let (records, skipped) = assemble(&vec![cell("content", "13300211")], &tiles, 20);

    let top: Vec<&str> = records[0].top.iter().map(|&t| tiles[t].qk.as_str()).collect();
    assert_eq!(top, ["13300211231022", "13300211231023"]);
    assert_eq!(tiles[records[0].top[0]].id, "b");
    assert_eq!(window().interval(), "2026-08-23/P1D");
    assert_eq!(skipped, Skipped::default());
}

#[test]
fn keeps_only_as_many_top_tiles_as_asked_for() {
    let rows = (0..30)
        .map(|i| (tile("content", "13300211", &format!("133002110{i}"), "x"), i as f64))
        .collect();
    let (tiles, req) = hottest_first(rows);

    let (records, _) = assemble(&vec![cell("content", "13300211")], &tiles, 5);
    assert_eq!(records[0].top.len(), 5);
    assert_eq!(req[records[0].top[0]], 29.0);
}

/// Requests with no coordinates cannot be placed, so they collapse into one
/// record per tileset and are named by what was asked for.
#[test]
fn requests_with_no_coordinates_are_named_by_their_id() {
    let tiles = vec![tile("tileset", "", "", "tileset.json")];
    let (records, _) = assemble(&vec![cell("tileset", "")], &tiles, 20);

    assert_eq!(records[0].qk8, "-");
    assert_eq!(records[0].kind, Kind::Tileset);
    assert_eq!(tiles[records[0].top[0]].id, "tileset.json");
}

#[test]
fn reports_what_it_could_not_use() {
    let (records, skipped) = assemble(
        &vec![cell("hologram", "13300211"), cell("content", ""), cell("content", "13300212")],
        &vec![],
        20,
    );

    assert_eq!(records.len(), 1);
    assert_eq!(skipped.unknown_kind, 1);
    assert_eq!(skipped.unplaceable, 1);
    // The one surviving cell got no top tiles, because none were asked for.
    assert_eq!(skipped.cells_without_top, 1);
}

#[test]
fn orders_records_so_two_days_can_be_compared() {
    let cells = vec![
        cell("content", "13300213"),
        cell("content", "13300211"),
        cell("content", "13300212"),
    ];
    let (records, _) = assemble(&cells, &vec![], 20);

    let order: Vec<&str> = records.iter().map(|r| r.qk8.as_str()).collect();
    assert_eq!(order, ["13300211", "13300212", "13300213"]);
    let rows: Vec<usize> = records.iter().map(|r| r.cell).collect();
    assert_eq!(rows, [1, 2, 0]);
}

/// A second row for the same cell finds its tiles already taken, and is the
/// one the record is made of.
#[test]
fn a_repeated_cell_keeps_its_last_row() {
    let tiles = vec![tile("content", "13300211", "1330021100", "a")];
    let (records, skipped) =
        assemble(&vec![cell("content", "13300211"), cell("content", "13300211")], &tiles, 20);

    assert_eq!(records.len(), 1);
    assert_eq!(records[0].cell, 1);
    assert!(records[0].top.is_empty());
    assert_eq!(skipped.cells_without_top, 1);
}

#[test]
fn tiles_of_other_cells_stay_with_their_own() {
    let tiles = vec![
        tile("content", "13300212", "1330021200", "elsewhere"),
        tile("content", "13300211", "1330021100", "here"),
        tile("mystery", "13300211", "1330021101", "unknown"),
    ];
    let (records, skipped) = assemble(&vec![cell("content", "13300211")], &tiles, 20);

    let ids: Vec<&str> = records[0].top.iter().map(|&t| tiles[t].id.as_str()).collect();
    assert_eq!(ids, ["here"]);
    assert_eq!(skipped.cells_without_top, 0);
    assert_eq!(records[0].clone().top, [1]);
}

#[test]
fn a_key_names_service_tileset_kind_and_cell() {
    let key = cell_key("papers", "t", "content", "13300211");
    assert_eq!(key.service, "papers");
    assert_eq!(key.tileset, "t");
    assert_eq!(key.kind, "content");
    assert_eq!(key.qk8, "13300211");
    let record = Assembled { cell: 0, kind: Kind::Content, qk8: "1".into(), top: vec![2] };
    assert_eq!(record.clone().top, [2]);
}

#[test]
fn every_row_of_distinct_cells_is_a_record_or_counted() {
    let cells = vec![
        cell("content", "13300211"),
        cell("content", "13300212"),
        cell("tileset", ""),
        cell("content", ""),
        cell("elevation", "13300213"),
        cell("meta", ""),
    ];
    let tiles = vec![tile("content", "13300211", "13300211231022", "a")];
    let (records, skipped) = assemble(&cells, &tiles, 20);

    assert_eq!(records.len() + skipped.unknown_kind + skipped.unplaceable, cells.len());
    assert_eq!((records.len(), skipped.unknown_kind, skipped.unplaceable), (4, 1, 1));
    let bare = records.iter().filter(|r| r.top.is_empty()).count();
    assert_eq!(skipped.cells_without_top, bare);
    assert_eq!(bare, 3);
}
