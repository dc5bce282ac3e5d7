//! Turning query rows into digest records.
//!
//! What a row measures (requests, generation times, sizes) is carried beside
//! the rows and found again by position: what is decided here is which rows
//! become records, in what order, with which of the top tiles, and what is
//! reported as skipped.

use vstd::prelude::*;

use crate::digest::{kind_named, parse_kind, Kind, UNPLACED};
use crate::sorted_map::{
    keys_sorted, lemma_text_lt_irreflexive, lemma_text_lt_total, lemma_text_lt_transitive,
    text_less, text_lt, SortKey, SortedMap,
};
use crate::text::str_eq;

verus! {

/// What the rows did not become, so that nothing is dropped quietly.
#[derive(Debug, Clone, Copy, PartialEq, Eq, Structural)]
pub struct Skipped {
    /// Rows naming a kind this version of the vocabulary does not have.
    pub unknown_kind: usize,
    /// `content` rows with no cell to belong to, which should not exist.
    pub unplaceable: usize,
    /// Cells the top-tiles query ran out of rows before reaching.
    pub cells_without_top: usize,
}

impl Default for Skipped {
    fn default() -> (res: Self)
        ensures
            res.unknown_kind == 0,
            res.unplaceable == 0,
            res.cells_without_top == 0,
    {
        Skipped { unknown_kind: 0, unplaceable: 0, cells_without_top: 0 }
    }
}

/// A cell's key as text: service, tileset, kind and `qk8`.
pub type KeyText = (Seq<char>, Seq<char>, Seq<char>, Seq<char>);

/// The key a cell and its tiles agree on.
#[derive(Debug)]
pub struct CellKey {
    pub service: String,
    pub tileset: String,
    pub kind: String,
    pub qk8: String,
}

impl View for CellKey {
    type V = KeyText;

    open spec fn view(&self) -> KeyText {
        (self.service@, self.tileset@, self.kind@, self.qk8@)
    }
}

/// Keys sort by service, then tileset, then kind, then cell.
pub open spec fn key_lt(a: KeyText, b: KeyText) -> bool {
    ||| text_lt(a.0, b.0)
    ||| a.0 == b.0 && text_lt(a.1, b.1)
    ||| a.0 == b.0 && a.1 == b.1 && text_lt(a.2, b.2)
    ||| a.0 == b.0 && a.1 == b.1 && a.2 == b.2 && text_lt(a.3, b.3)
}

impl SortKey for CellKey {
    open spec fn precedes(a: KeyText, b: KeyText) -> bool {
        key_lt(a, b)
    }

    proof fn lemma_irreflexive(a: KeyText) {
        lemma_text_lt_irreflexive(a.0);
        lemma_text_lt_irreflexive(a.1);
        lemma_text_lt_irreflexive(a.2);
        lemma_text_lt_irreflexive(a.3);
    }

    proof fn lemma_transitive(a: KeyText, b: KeyText, c: KeyText) {
        lemma_text_lt_irreflexive(a.0);
        lemma_text_lt_irreflexive(a.1);
        lemma_text_lt_irreflexive(a.2);
        lemma_text_lt_irreflexive(b.0);
        lemma_text_lt_irreflexive(b.1);
        lemma_text_lt_irreflexive(b.2);
        if text_lt(a.0, b.0) && text_lt(b.0, c.0) {
            lemma_text_lt_transitive(a.0, b.0, c.0);
        }
        if text_lt(a.1, b.1) && text_lt(b.1, c.1) {
            lemma_text_lt_transitive(a.1, b.1, c.1);
        }
        if text_lt(a.2, b.2) && text_lt(b.2, c.2) {
            lemma_text_lt_transitive(a.2, b.2, c.2);
        }
        if text_lt(a.3, b.3) && text_lt(b.3, c.3) {
            lemma_text_lt_transitive(a.3, b.3, c.3);
        }
    }

    proof fn lemma_total(a: KeyText, b: KeyText) {
        lemma_text_lt_total(a.0, b.0);
        lemma_text_lt_total(a.1, b.1);
        lemma_text_lt_total(a.2, b.2);
        lemma_text_lt_total(a.3, b.3);
    }

    fn sorts_before(&self, other: &CellKey) -> (res: bool) {
        proof {
            lemma_text_lt_irreflexive(self.service@);
            lemma_text_lt_irreflexive(self.tileset@);
            lemma_text_lt_irreflexive(self.kind@);
        }
        if !str_eq(self.service.as_str(), other.service.as_str()) {
            return text_less(self.service.as_str(), other.service.as_str());
        }
        if !str_eq(self.tileset.as_str(), other.tileset.as_str()) {
            return text_less(self.tileset.as_str(), other.tileset.as_str());
        }
        if !str_eq(self.kind.as_str(), other.kind.as_str()) {
            return text_less(self.kind.as_str(), other.kind.as_str());
        }
        text_less(self.qk8.as_str(), other.qk8.as_str())
    }

    fn same_key(&self, other: &CellKey) -> (res: bool) {
        str_eq(self.service.as_str(), other.service.as_str()) && str_eq(
            self.tileset.as_str(),
            other.tileset.as_str(),
        ) && str_eq(self.kind.as_str(), other.kind.as_str()) && str_eq(
            self.qk8.as_str(),
            other.qk8.as_str(),
        )
    }
}

/// The key a cell and its tiles agree on.
pub fn cell_key(service: &str, tileset: &str, kind: &str, qk8: &str) -> (res: CellKey)
    ensures
        res@ == (service@, tileset@, kind@, qk8@),
{
    CellKey {
        service: service.to_string(),
        tileset: tileset.to_string(),
        kind: kind.to_string(),
        qk8: qk8.to_string(),
    }
}

/// What of a row of the cells query decides where it goes.
#[derive(Debug)]
pub struct CellRow {
    pub service: String,
    pub tileset: String,
    pub kind: String,
    pub qk8: String,
}

/// What of a row of the top-tiles query decides where it goes.
#[derive(Debug)]
pub struct TileRow {
    pub service: String,
    pub tileset: String,
    pub kind: String,
    pub qk8: String,
    pub qk: String,
    pub id: String,
}

/// One digest record, as where its figures come from: the cells row it is
/// made of, its kind and cell, and the top-tiles rows it carries, hottest
/// first.
#[derive(Debug)]
pub struct Assembled {
    pub cell: usize,
    pub kind: Kind,
    pub qk8: String,
    pub top: Vec<usize>,
}

impl View for Assembled {
    type V = (usize, Kind, Seq<char>, Seq<usize>);

    open spec fn view(&self) -> (usize, Kind, Seq<char>, Seq<usize>) {
        (self.cell, self.kind, self.qk8@, self.top@)
    }
}

impl Clone for Assembled {
    fn clone(&self) -> (res: Assembled)
        ensures
            res@ == self@,
    {
        Assembled {
            cell: self.cell,
            kind: self.kind,
            qk8: self.qk8.clone(),
            top: copy_positions(&self.top),
        }
    }
}

fn copy_positions(v: &Vec<usize>) -> (res: Vec<usize>)
    ensures
        res@ == v@,
{
    let mut res: Vec<usize> = Vec::new();
    let mut i: usize = 0;
    while i < v.len()
        invariant
            i <= v@.len(),
            res@ == v@.take(i as int),
        decreases v.len() - i,
    {
        res.push(v[i]);
        proof {
            assert(v@.take(i + 1) =~= v@.take(i as int).push(v@[i as int]));
        }
        i = i + 1;
    }
    proof {
        assert(v@.take(i as int) =~= v@);
    }
    res
}

// ---------------------------------------------------------------------------
// What the rows become.
// ---------------------------------------------------------------------------

/// A cells row's key.
pub open spec fn key_of_cell(c: CellRow) -> KeyText {
    (c.service@, c.tileset@, c.kind@, c.qk8@)
}

/// A top-tiles row's key.
pub open spec fn key_of_tile(t: TileRow) -> KeyText {
    (t.service@, t.tileset@, t.kind@, t.qk8@)
}

/// A cells row that becomes a record: a kind this version has, and, for
/// content, a cell to belong to.
pub open spec fn usable(c: CellRow) -> bool {
    &&& kind_named(c.kind@) is Some
    &&& !(kind_named(c.kind@) == Some(Kind::Content) && c.qk8@.len() == 0)
}

/// The top-tiles rows among the first `n` that belong to `key`, in order.
pub open spec fn group(tiles: Seq<TileRow>, key: KeyText, n: int) -> Seq<usize>
    decreases n,
{
    if n <= 0 {
        Seq::empty()
    } else if kind_named(tiles[n - 1].kind@) is Some && key_of_tile(tiles[n - 1]) == key {
        group(tiles, key, n - 1).push((n - 1) as usize)
    } else {
        group(tiles, key, n - 1)
    }
}

/// The last usable cells row among the first `n` with `key`, or `-1`.
pub open spec fn last_with(cells: Seq<CellRow>, key: KeyText, n: int) -> int
    decreases n,
{
    if n <= 0 {
        -1
    } else if usable(cells[n - 1]) && key_of_cell(cells[n - 1]) == key {
        n - 1
    } else {
        last_with(cells, key, n - 1)
    }
}

/// The top tiles a record made of row `c` carries: its cell's rows, as many
/// as are asked for, when `c` is the first usable row of its cell. A later
/// row of the same cell finds them already taken.
pub open spec fn top_for(cells: Seq<CellRow>, tiles: Seq<TileRow>, top_n: usize, c: int) -> Seq<
    usize,
> {
    if last_with(cells, key_of_cell(cells[c]), c) < 0 {
        let g = group(tiles, key_of_cell(cells[c]), tiles.len() as int);
        if g.len() <= top_n {
            g
        } else {
            g.take(top_n as int)
        }
    } else {
        Seq::empty()
    }
}

/// The record row `c` makes.
pub open spec fn record_of(cells: Seq<CellRow>, tiles: Seq<TileRow>, top_n: usize, c: int) -> (
    usize,
    Kind,
    Seq<char>,
    Seq<usize>,
) {
    let kind = kind_named(cells[c].kind@)->Some_0;
    (
        c as usize,
        kind,
        if kind == Kind::Content {
            cells[c].qk8@
        } else {
            UNPLACED@
        },
        top_for(cells, tiles, top_n, c),
    )
}

/// How many of the first `n` cells rows name a kind this version lacks.
pub open spec fn unknown_kinds(cells: Seq<CellRow>, n: int) -> nat
    decreases n,
{
    if n <= 0 {
        0
    } else {
        unknown_kinds(cells, n - 1) + if kind_named(cells[n - 1].kind@) is None {
            1nat
        } else {
            0nat
        }
    }
}

/// How many of the first `n` cells rows are content with no cell.
pub open spec fn unplaceable(cells: Seq<CellRow>, n: int) -> nat
    decreases n,
{
    if n <= 0 {
        0
    } else {
        unplaceable(cells, n - 1) + if kind_named(cells[n - 1].kind@) == Some(Kind::Content)
            && cells[n - 1].qk8@.len() == 0 {
            1nat
        } else {
            0nat
        }
    }
}

/// How many of the first `n` usable cells rows found no top tiles.
pub open spec fn without_top(cells: Seq<CellRow>, tiles: Seq<TileRow>, n: int) -> nat
    decreases n,
{
    if n <= 0 {
        0
    } else {
        let c = cells[n - 1];
        without_top(cells, tiles, n - 1) + if usable(c) && (last_with(
            cells,
            key_of_cell(c),
            n - 1,
        ) >= 0 || group(tiles, key_of_cell(c), tiles.len() as int).len() == 0) {
            1nat
        } else {
            0nat
        }
    }
}

proof fn lemma_last_with(cells: Seq<CellRow>, key: KeyText, n: int)
    requires
        0 <= n <= cells.len(),
    ensures
        -1 <= last_with(cells, key, n) < n,
        last_with(cells, key, n) >= 0 ==> usable(cells[last_with(cells, key, n)])
            && key_of_cell(cells[last_with(cells, key, n)]) == key,
    decreases n,
{
    if n > 0 {
        lemma_last_with(cells, key, n - 1);
    }
}

/// No two cells rows share a key, as the cells query's `GROUP BY` promises.
pub open spec fn distinct_keys(cells: Seq<CellRow>) -> bool {
    forall|a: int, b: int|
        0 <= a < b < cells.len() ==> key_of_cell(#[trigger] cells[a]) != key_of_cell(
            #[trigger] cells[b],
        )
}

/// How many records carry no top tiles.
pub open spec fn count_without_top(records: Seq<Assembled>) -> nat
    decreases records.len(),
{
    if records.len() == 0 {
        0
    } else {
        count_without_top(records.drop_last()) + if records.last().top@.len() == 0 {
            1nat
        } else {
            0nat
        }
    }
}

/// The rows below `n` that `p` holds of.
spec fn rows_where(n: int, p: spec_fn(int) -> bool) -> Set<int>
    decreases n,
{
    if n <= 0 {
        Set::empty()
    } else if p(n - 1) {
        rows_where(n - 1, p).insert(n - 1)
    } else {
        rows_where(n - 1, p)
    }
}

/// How many rows below `n` `p` holds of.
spec fn count_rows(n: int, p: spec_fn(int) -> bool) -> nat
    decreases n,
{
    if n <= 0 {
        0
    } else {
        count_rows(n - 1, p) + if p(n - 1) {
            1nat
        } else {
            0nat
        }
    }
}

/// The rows the records are made of that `p` holds of.
spec fn cells_of(records: Seq<Assembled>, p: spec_fn(int) -> bool) -> Set<int>
    decreases records.len(),
{
    if records.len() == 0 {
        Set::empty()
    } else if p(records.last().cell as int) {
        cells_of(records.drop_last(), p).insert(records.last().cell as int)
    } else {
        cells_of(records.drop_last(), p)
    }
}

/// How many records are made of a row that `p` holds of.
spec fn count_cells(records: Seq<Assembled>, p: spec_fn(int) -> bool) -> nat
    decreases records.len(),
{
    if records.len() == 0 {
        0
    } else {
        count_cells(records.drop_last(), p) + if p(records.last().cell as int) {
            1nat
        } else {
            0nat
        }
    }
}

proof fn lemma_rows_where(n: int, p: spec_fn(int) -> bool)
    ensures
        rows_where(n, p).finite(),
        rows_where(n, p).len() == count_rows(n, p),
        forall|c: int| #[trigger] rows_where(n, p).contains(c) <==> 0 <= c < n && p(c),
    decreases n,
{
    if n > 0 {
        lemma_rows_where(n - 1, p);
    }
}

proof fn lemma_cells_of(records: Seq<Assembled>, p: spec_fn(int) -> bool)
    requires
        forall|a: int, b: int|
            0 <= a < b < records.len() ==> (#[trigger] records[a]).cell != (
            #[trigger] records[b]).cell,
    ensures
        cells_of(records, p).finite(),
        cells_of(records, p).len() == count_cells(records, p),
        forall|c: int| #[trigger]
            cells_of(records, p).contains(c) <==> exists|r: int|
                0 <= r < records.len() && records[r].cell == c && p(c),
    decreases records.len(),
{
    if records.len() > 0 {
        let rest = records.drop_last();
        let last = records.len() - 1;
        lemma_cells_of(rest, p);
        assert forall|c: int| #[trigger]
            cells_of(records, p).contains(c) <==> exists|r: int|
                0 <= r < records.len() && records[r].cell == c && p(c) by {
            if cells_of(rest, p).contains(c) {
                let r = choose|r: int| 0 <= r < rest.len() && rest[r].cell == c && p(c);
                assert(records[r] == rest[r]);
            }
            if exists|r: int| 0 <= r < records.len() && records[r].cell == c && p(c) {
                let r = choose|r: int| 0 <= r < records.len() && records[r].cell == c && p(c);
                if r < last {
                    assert(rest[r] == records[r]);
                }
            }
        }
        if p(records.last().cell as int) {
            assert(!cells_of(rest, p).contains(records.last().cell as int)) by {
                if cells_of(rest, p).contains(records.last().cell as int) {
                    let r = choose|r: int|
                        0 <= r < rest.len() && rest[r].cell == records.last().cell && p(
                            records.last().cell as int,
                        );
                    assert(records[r] == rest[r]);
                    assert(records[r].cell != records[last].cell);
                }
            }
        }
    }
}

proof fn lemma_count_cells_is_count_without_top(
    records: Seq<Assembled>,
    p: spec_fn(int) -> bool,
)
    requires
        forall|r: int|
            0 <= r < records.len() ==> ((#[trigger] records[r]).top@.len() == 0 <==> p(
                records[r].cell as int,
            )),
    ensures
        count_cells(records, p) == count_without_top(records),
    decreases records.len(),
{
    if records.len() > 0 {
        let rest = records.drop_last();
        assert forall|r: int| 0 <= r < rest.len() implies ((#[trigger] rest[r]).top@.len() == 0
            <==> p(rest[r].cell as int)) by {
            assert(rest[r] == records[r]);
        }
        lemma_count_cells_is_count_without_top(rest, p);
        assert(records.last() == records[records.len() - 1]);
    }
}

proof fn lemma_rows_are_counted(cells: Seq<CellRow>, n: int)
    requires
        0 <= n <= cells.len(),
    ensures
        count_rows(n, |c: int| usable(cells[c])) + unknown_kinds(cells, n) + unplaceable(cells, n)
            == n,
    decreases n,
{
    if n > 0 {
        lemma_rows_are_counted(cells, n - 1);
    }
}

proof fn lemma_without_top_counted(cells: Seq<CellRow>, tiles: Seq<TileRow>, n: int)
    requires
        distinct_keys(cells),
        0 <= n <= cells.len(),
    ensures
        without_top(cells, tiles, n) == count_rows(
            n,
            |c: int|
                usable(cells[c]) && group(tiles, key_of_cell(cells[c]), tiles.len() as int).len()
                    == 0,
        ),
    decreases n,
{
    if n > 0 {
        lemma_without_top_counted(cells, tiles, n - 1);
        if usable(cells[n - 1]) {
            lemma_last_with_distinct(cells, n - 1, n - 1);
        }
    }
}

/// With distinct keys, the last usable row with a usable row's key among the
/// first `n` is that row, once `n` has passed it.
proof fn lemma_last_with_distinct(cells: Seq<CellRow>, c: int, n: int)
    requires
        distinct_keys(cells),
        0 <= c < cells.len(),
        usable(cells[c]),
        0 <= n <= cells.len(),
    ensures
        last_with(cells, key_of_cell(cells[c]), n) == if n > c {
            c
        } else {
            -1
        },
    decreases n,
{
    if n > 0 {
        lemma_last_with_distinct(cells, c, n - 1);
        if n - 1 < c {
            assert(key_of_cell(cells[n - 1]) != key_of_cell(cells[c]));
        } else if n - 1 > c {
            assert(key_of_cell(cells[c]) != key_of_cell(cells[n - 1]));
        }
    }
}

/// What `assemble` promises of its records and counts, when the cells rows
/// have distinct keys: every row is a record or counted as skipped, and a
/// record without top tiles is what `cells_without_top` counts.
proof fn lemma_skipped_accounts_for_rows(
    cells: Seq<CellRow>,
    tiles: Seq<TileRow>,
    top_n: usize,
    records: Seq<Assembled>,
    skipped: Skipped,
)
    requires
        distinct_keys(cells),
        forall|r: int|
            0 <= r < records.len() ==> {
                let c = (#[trigger] records[r]).cell as int;
                &&& 0 <= c < cells.len()
                &&& usable(cells[c])
                &&& last_with(cells, key_of_cell(cells[c]), cells.len() as int) == c
                &&& records[r]@ == record_of(cells, tiles, top_n, c)
            },
        forall|c: int|
            0 <= c < cells.len() && usable(#[trigger] cells[c]) && last_with(
                cells,
                key_of_cell(cells[c]),
                cells.len() as int,
            ) == c ==> exists|r: int| 0 <= r < records.len() && records[r].cell == c,
        forall|a: int, b: int|
            0 <= a < b < records.len() ==> key_lt(
                key_of_cell(cells[(#[trigger] records[a]).cell as int]),
                key_of_cell(cells[(#[trigger] records[b]).cell as int]),
            ),
        skipped.unknown_kind == unknown_kinds(cells, cells.len() as int),
        skipped.unplaceable == unplaceable(cells, cells.len() as int),
        skipped.cells_without_top == without_top(cells, tiles, cells.len() as int),
    ensures
        records.len() + skipped.unknown_kind + skipped.unplaceable == cells.len(),
        top_n > 0 ==> skipped.cells_without_top == count_without_top(records),
{
    let m = cells.len() as int;
    assert forall|a: int, b: int| 0 <= a < b < records.len() implies (#[trigger] records[a]).cell
        != (#[trigger] records[b]).cell by {
        if records[a].cell == records[b].cell {
            CellKey::lemma_irreflexive(key_of_cell(cells[records[a].cell as int]));
        }
    }

    let any = |c: int| true;
    let is_usable = |c: int| usable(cells[c]);
    lemma_cells_of(records, any);
    lemma_rows_where(m, is_usable);
    assert forall|c: int| #[trigger] cells_of(records, any).contains(c) == rows_where(
        m,
        is_usable,
    ).contains(c) by {
        if 0 <= c < m && usable(cells[c]) {
            lemma_last_with_distinct(cells, c, m);
        }
    }
    assert(cells_of(records, any) =~= rows_where(m, is_usable));
    assert(count_cells(records, any) == records.len()) by {
        lemma_count_all(records);
    }
    lemma_rows_are_counted(cells, m);

    if top_n > 0 {
        let empty_group = |c: int|
            group(tiles, key_of_cell(cells[c]), tiles.len() as int).len() == 0;
        let usable_empty = |c: int|
            usable(cells[c]) && group(tiles, key_of_cell(cells[c]), tiles.len() as int).len()
                == 0;
        lemma_cells_of(records, empty_group);
        lemma_rows_where(m, usable_empty);
        assert forall|c: int| #[trigger] cells_of(records, empty_group).contains(c) == rows_where(
            m,
            usable_empty,
        ).contains(c) by {
            if 0 <= c < m && usable(cells[c]) {
                lemma_last_with_distinct(cells, c, m);
            }
        }
        assert(cells_of(records, empty_group) =~= rows_where(m, usable_empty));
        lemma_without_top_counted(cells, tiles, m);
        assert forall|r: int| 0 <= r < records.len() implies ((#[trigger] records[r]).top@.len()
            == 0 <==> empty_group(records[r].cell as int)) by {
            let c = records[r].cell as int;
            lemma_last_with_distinct(cells, c, c);
            let g = group(tiles, key_of_cell(cells[c]), tiles.len() as int);
            assert(records[r].top@ == top_for(cells, tiles, top_n, c));
            if g.len() > top_n {
                assert(g.take(top_n as int).len() == top_n);
            }
        }
        lemma_count_cells_is_count_without_top(records, empty_group);
    }
}

proof fn lemma_count_all(records: Seq<Assembled>)
    ensures
        count_cells(records, |c: int| true) == records.len(),
    decreases records.len(),
{
    if records.len() > 0 {
        lemma_count_all(records.drop_last());
    }
}

/// Build the digest for one window, as which rows make which records.
///
/// One record per cell, made of the cell's last usable row, in key order,
/// because a digest is compared against the one before it more often than it
/// is read once. A cell's top tiles are its top-tiles rows in the order they
/// came, as many as `top_n`: the caller hands them over hottest first. What
/// the rows did not become is counted rather than dropped.
pub fn assemble(cells: &Vec<CellRow>, tiles: &Vec<TileRow>, top_n: usize) -> (res: (
    Vec<Assembled>,
    Skipped,
))
    ensures
        forall|r: int|
            0 <= r < res.0@.len() ==> {
                let c = (#[trigger] res.0@[r]).cell as int;
                &&& 0 <= c < cells@.len()
                &&& usable(cells@[c])
                &&& last_with(cells@, key_of_cell(cells@[c]), cells@.len() as int) == c
                &&& res.0@[r]@ == record_of(cells@, tiles@, top_n, c)
            },
        forall|c: int|
            0 <= c < cells@.len() && usable(#[trigger] cells@[c]) && last_with(
                cells@,
                key_of_cell(cells@[c]),
                cells@.len() as int,
            ) == c ==> exists|r: int| 0 <= r < res.0@.len() && res.0@[r].cell == c,
        forall|a: int, b: int|
            0 <= a < b < res.0@.len() ==> key_lt(
                key_of_cell(cells@[(#[trigger] res.0@[a]).cell as int]),
                key_of_cell(cells@[(#[trigger] res.0@[b]).cell as int]),
            ),
        res.1.unknown_kind == unknown_kinds(cells@, cells@.len() as int),
        res.1.unplaceable == unplaceable(cells@, cells@.len() as int),
        res.1.cells_without_top == without_top(cells@, tiles@, cells@.len() as int),
        distinct_keys(cells@) ==> res.0@.len() + res.1.unknown_kind + res.1.unplaceable
            == cells@.len(),
        distinct_keys(cells@) && top_n > 0 ==> res.1.cells_without_top == count_without_top(
            res.0@,
        ),
{
    let mut groups: SortedMap<CellKey, Vec<usize>> = SortedMap::new();
    let mut j: usize = 0;
    while j < tiles.len()
        invariant
            j <= tiles@.len(),
            forall|k: KeyText|
                #![trigger groups@.contains_key(k)]
                #![trigger group(tiles@, k, j as int)]
                groups@.contains_key(k) == (group(tiles@, k, j as int).len() > 0),
            forall|k: KeyText|
                #[trigger] groups@.contains_key(k) ==> groups@[k]@ == group(tiles@, k, j as int),
        decreases tiles.len() - j,
    {
        let tile = &tiles[j];
        if let Some(_) = parse_kind(tile.kind.as_str()) {
            let key = cell_key(
                tile.service.as_str(),
                tile.tileset.as_str(),
                tile.kind.as_str(),
                tile.qk8.as_str(),
            );
            let mut members = match groups.get(&key) {
                Some(found) => copy_positions(found),
                None => Vec::new(),
            };
            members.push(j);
            let ghost k = key@;
            let ghost members_now = members@;
            let ghost before = groups@;
            groups.insert(key, members);
            proof {
                assert(k == key_of_tile(tiles@[j as int]));
                assert(members_now == group(tiles@, k, j + 1));
                assert forall|x: KeyText| #[trigger] groups@.contains_key(x) == (group(
                    tiles@,
                    x,
                    j + 1,
                ).len() > 0) by {
                    if x != k {
                        assert(group(tiles@, x, j + 1) == group(tiles@, x, j as int));
                    }
                }
                assert forall|x: KeyText| #[trigger] groups@.contains_key(x) implies groups@[x]@
                    == group(tiles@, x, j + 1) by {
                    if x != k {
                        assert(group(tiles@, x, j + 1) == group(tiles@, x, j as int));
                    }
                }
            }
        } else {
            proof {
                assert forall|x: KeyText| #[trigger]
                    group(tiles@, x, j + 1) == group(tiles@, x, j as int) by {}
            }
        }
        j = j + 1;
    }

    let mut skipped = Skipped { unknown_kind: 0, unplaceable: 0, cells_without_top: 0 };
    let mut records: SortedMap<CellKey, Assembled> = SortedMap::new();
    let mut i: usize = 0;
    while i < cells.len()
        invariant
            i <= cells@.len(),
            forall|k: KeyText|
                #![trigger groups@.contains_key(k)]
                #![trigger group(tiles@, k, tiles@.len() as int)]
                groups@.contains_key(k) == (group(tiles@, k, tiles@.len() as int).len() > 0),
            forall|k: KeyText|
                #[trigger] groups@.contains_key(k) ==> groups@[k]@ == group(
                    tiles@,
                    k,
                    tiles@.len() as int,
                ),
            forall|k: KeyText|
                #![trigger records@.contains_key(k)]
                #![trigger last_with(cells@, k, i as int)]
                records@.contains_key(k) == (last_with(cells@, k, i as int) >= 0),
            forall|k: KeyText|
                #[trigger] records@.contains_key(k) ==> records@[k]@ == record_of(
                    cells@,
                    tiles@,
                    top_n,
                    last_with(cells@, k, i as int),
                ),
            skipped.unknown_kind == unknown_kinds(cells@, i as int),
            skipped.unplaceable == unplaceable(cells@, i as int),
            skipped.cells_without_top == without_top(cells@, tiles@, i as int),
            skipped.unknown_kind <= i,
            skipped.unplaceable <= i,
            skipped.cells_without_top <= i,
        decreases cells.len() - i,
    {
        let cell = &cells[i];
        proof {
            lemma_last_with(cells@, key_of_cell(cells@[i as int]), i as int);
        }
        let kind = match parse_kind(cell.kind.as_str()) {
            Some(kind) => kind,
            None => {
                skipped.unknown_kind = skipped.unknown_kind + 1;
                i = i + 1;
                proof {
                    assert forall|x: KeyText| #[trigger]
                        last_with(cells@, x, i as int) == last_with(cells@, x, i - 1) by {}
                    assert forall|x: KeyText| #[trigger] records@.contains_key(x) implies records@[x]@
                        == record_of(cells@, tiles@, top_n, last_with(cells@, x, i as int)) by {
                        assert(last_with(cells@, x, i as int) == last_with(cells@, x, i - 1));
                    }
                }
                continue;
            },
        };
        if kind.is_placed() && cell.qk8.as_str().unicode_len() == 0 {
            skipped.unplaceable = skipped.unplaceable + 1;
            i = i + 1;
            proof {
                assert forall|x: KeyText| #[trigger]
                    last_with(cells@, x, i as int) == last_with(cells@, x, i - 1) by {}
                assert forall|x: KeyText| #[trigger] records@.contains_key(x) implies records@[x]@
                    == record_of(cells@, tiles@, top_n, last_with(cells@, x, i as int)) by {
                    assert(last_with(cells@, x, i as int) == last_with(cells@, x, i - 1));
                }
            }
            continue;
        }
        let key = cell_key(
            cell.service.as_str(),
            cell.tileset.as_str(),
            cell.kind.as_str(),
            cell.qk8.as_str(),
        );
        let ghost k = key@;
        let taken = match records.get(&key) {
            Some(_) => true,
            None => false,
        };
        let mut top: Vec<usize> = if taken {
            Vec::new()
        } else {
            match groups.get(&key) {
                Some(found) => copy_positions(found),
                None => Vec::new(),
            }
        };
        if top.len() == 0 {
            skipped.cells_without_top = skipped.cells_without_top + 1;
        }
        if top.len() > top_n {
            top.truncate(top_n);
        }
        let qk8 = if kind.is_placed() {
            cell.qk8.clone()
        } else {
            UNPLACED.to_string()
        };
        let record = Assembled { cell: i, kind, qk8, top };
        proof {
            assert(k == key_of_cell(cells@[i as int]));
            assert(record@ == record_of(cells@, tiles@, top_n, i as int));
        }
        records.insert(key, record);
        i = i + 1;
        proof {
            assert(last_with(cells@, k, i as int) == i - 1);
            assert forall|x: KeyText| x != k implies #[trigger] last_with(cells@, x, i as int)
                == last_with(cells@, x, i - 1) by {}
            assert forall|x: KeyText| #[trigger] records@.contains_key(x) == (last_with(
                cells@,
                x,
                i as int,
            ) >= 0) by {
                if x != k {
                    assert(last_with(cells@, x, i as int) == last_with(cells@, x, i - 1));
                }
            }
            assert forall|x: KeyText| #[trigger] records@.contains_key(x) implies records@[x]@
                == record_of(cells@, tiles@, top_n, last_with(cells@, x, i as int)) by {
                if x != k {
                    assert(last_with(cells@, x, i as int) == last_with(cells@, x, i - 1));
                }
            }
        }
    }

    let n = records.len();
    let ghost keys = records.keys();
    let ghost values = records.values();
    let mut out: Vec<Assembled> = Vec::new();
    let mut r: usize = 0;
    while r < n
        invariant
            r <= n,
            n == keys.len(),
            n == values.len(),
            keys == records.keys(),
            values == records.values(),
            out@.len() == r,
            forall|q: int| 0 <= q < r ==> (#[trigger] out@[q])@ == values[q]@,
        decreases n - r,
    {
        out.push(records.value_at(r).clone());
        r = r + 1;
    }
    proof {
        let m = cells@.len() as int;
        assert forall|q: int| 0 <= q < out@.len() implies {
            let c = (#[trigger] out@[q]).cell as int;
            &&& 0 <= c < cells@.len()
            &&& usable(cells@[c])
            &&& last_with(cells@, key_of_cell(cells@[c]), m) == c
            &&& out@[q]@ == record_of(cells@, tiles@, top_n, c)
            &&& key_of_cell(cells@[c]) == keys[q]
        } by {
            records.lemma_entry(q);
            let c = last_with(cells@, keys[q], m);
            lemma_last_with(cells@, keys[q], m);
            assert(out@[q]@ == record_of(cells@, tiles@, top_n, c));
        }
        assert forall|c: int|
            0 <= c < cells@.len() && usable(#[trigger] cells@[c]) && last_with(
                cells@,
                key_of_cell(cells@[c]),
                m,
            ) == c implies exists|q: int| 0 <= q < out@.len() && out@[q].cell == c by {
            let k = key_of_cell(cells@[c]);
            assert(records@.contains_key(k));
            let q = keys.index_of(k);
            records.lemma_entry(q);
            assert(out@[q].cell == c);
        }
        assert forall|a: int, b: int| 0 <= a < b < out@.len() implies key_lt(
            key_of_cell(cells@[(#[trigger] out@[a]).cell as int]),
            key_of_cell(cells@[(#[trigger] out@[b]).cell as int]),
        ) by {
            assert(key_of_cell(cells@[out@[a].cell as int]) == keys[a]);
            assert(key_of_cell(cells@[out@[b].cell as int]) == keys[b]);
        }
        if distinct_keys(cells@) {
            lemma_skipped_accounts_for_rows(cells@, tiles@, top_n, out@, skipped);
        }
    }
    (out, skipped)
}

} // verus!
