//! The rules the cells query keeps, line by line.
//!
//! Its text is fixed by `query::cells_sql`; what is proved here is what a
//! reader checks that text for: that no frequency goes unweighted, that hits
//! stay out of the generation quantiles, that generation time is not filtered
//! to organic requests, and that reading every service filters on nothing.

use vstd::prelude::*;

use crate::query::{
    top_tiles_head, top_tiles_sql, cells_filled_lines, cells_head_lines, cells_lines, cells_sql, cells_tail_lines,
    service_filter_lines,
};
use crate::sql_lines::{
    is_word, is_word_char, join_lines, lemma_found_from, lemma_join_concat, lemma_line_in_text,
    lemma_lines_newline_join, lemma_lines_of_joined, lemma_no_word_in, lemma_occurs_by_search,
    lemma_occurs_in_concat, lemma_occurs_in_longer, lemma_occurs_in_quoted, lemma_occurs_in_quoted_list,
    lemma_one_line_unless_newline, lemma_word_by_search, lines, matches_from, occurs, occurs_at, one_line,
    search_from, word_from,
};
use crate::sql_text::{quoted, quoted_list, service_filter_line};
use crate::text::dec_text;

verus! {

/// A line keeps the binding's rules: a line that reads a frequency
/// (`double1`, `double4`) weights it by `_sample_interval`; a quantile of
/// generation time weights hits at zero; a line that reads generation time
/// (`double2`) does not filter on `organic`; and where every service is read,
/// nothing filters on the index.
pub open spec fn keeps_rules(line: Seq<char>, every_service: bool) -> bool {
    &&& (occurs(line, "double1"@) || occurs(line, "double4"@)) ==> occurs(line, "_sample_interval"@)
    &&& occurs(line, "quantileWeighted"@) ==> occurs(line, "IF(blob7 = 'miss', _sample_interval, 0)"@)
    &&& occurs(line, "double2"@) ==> !occurs(line, "organic"@)
    &&& every_service ==> !occurs(line, "index1"@)
}

/// None of the columns the rules speak of occurs in `s`.
pub open spec fn reads_no_column(s: Seq<char>) -> bool {
    &&& !occurs(s, "double1"@)
    &&& !occurs(s, "double2"@)
    &&& !occurs(s, "double4"@)
    &&& !occurs(s, "quantileWeighted"@)
}

/// Every line of `text` keeps the rules.
pub open spec fn keeps_rules_throughout(text: Seq<char>, every_service: bool) -> bool {
    forall|k: int| 0 <= k < lines(text).len() ==> keeps_rules(#[trigger] lines(text)[k], every_service)
}

/// The cells query keeps the rules of the Analytics Engine binding exactly
/// where the lines its arguments are written into keep them: every line of
/// its own text does, whatever it is asked for. Every frequency it reads is
/// weighted by `_sample_interval`, its generation quantiles weight hits at
/// zero, its generation time is not filtered to organic requests, and
/// reading every service it filters on nothing. Its lines are its own, then
/// the lines of the text the dataset, the bounds and the quoted names are
/// written into, then its own again.
pub proof fn lemma_cells_query_rules_rest_on_arguments(
    dataset: Seq<char>,
    from: Seq<char>,
    to: Seq<char>,
    services: Seq<Seq<char>>,
)
    ensures
        lines(cells_sql(dataset, from, to, services)) == cells_head_lines() + lines(
            join_lines(cells_filled_lines(dataset, from, to, services)),
        ) + cells_tail_lines(),
        keeps_rules_throughout(cells_sql(dataset, from, to, services), services.len() == 0)
            <==> keeps_rules_throughout(
            join_lines(cells_filled_lines(dataset, from, to, services)),
            services.len() == 0,
        ),
{
    let every = services.len() == 0;
    let h = cells_head_lines();
    let fl = cells_filled_lines(dataset, from, to, services);
    let tl = cells_tail_lines();
    assert(cells_lines(dataset, from, to, services) =~= h + fl + tl);
    lemma_join_concat(h + fl, tl);
    lemma_join_concat(h, fl);
    lemma_lines_newline_join(join_lines(h) + seq!['\n'] + join_lines(fl), join_lines(tl));
    lemma_lines_newline_join(join_lines(h), join_lines(fl));
    assert forall|k: int| 0 <= k < h.len() implies one_line(#[trigger] h[k]) by {
        lemma_head_line(k);
    }
    lemma_tail_lines();
    assert forall|k: int| 0 <= k < tl.len() implies one_line(#[trigger] tl[k]) by {}
    lemma_lines_of_joined(h);
    lemma_lines_of_joined(tl);
    let f = lines(join_lines(fl));
    let all = h + f + tl;
    assert(lines(cells_sql(dataset, from, to, services)) =~= all);
    if keeps_rules_throughout(join_lines(fl), every) {
        assert forall|k: int| 0 <= k < all.len() implies keeps_rules(#[trigger] all[k], every) by {
            if k < h.len() {
                lemma_head_line(k);
                assert(all[k] == h[k]);
            } else if k < h.len() + f.len() {
                assert(all[k] == f[k - h.len()]);
            } else {
                assert(all[k] == tl[k - h.len() - f.len()]);
            }
        }
    }
    if keeps_rules_throughout(cells_sql(dataset, from, to, services), every) {
        assert forall|k: int| 0 <= k < f.len() implies keeps_rules(#[trigger] f[k], every) by {
            assert(all[k + h.len()] == f[k]);
        }
    }
}

/// Arguments that name none of the columns the rules test for keep every
/// line of the cells query within them, on as many lines as they run to.
/// Reading every service, the dataset and the bounds must not name `index1`
/// either; a name that does, or that names a column unweighted, can break a
/// rule, as a dataset called `double1` makes the line `FROM double1`.
pub proof fn lemma_cells_query_keeps_rules(
    dataset: Seq<char>,
    from: Seq<char>,
    to: Seq<char>,
    services: Seq<Seq<char>>,
)
    requires
        reads_no_column(dataset),
        reads_no_column(from),
        reads_no_column(to),
        forall|k: int| 0 <= k < services.len() ==> reads_no_column(#[trigger] services[k]),
        services.len() == 0 ==> !occurs(dataset, "index1"@) && !occurs(from, "index1"@)
            && !occurs(to, "index1"@),
    ensures
        keeps_rules_throughout(cells_sql(dataset, from, to, services), services.len() == 0),
{
    let every = services.len() == 0;
    let fl = cells_filled_lines(dataset, from, to, services);
    let text = join_lines(fl);
    lemma_cells_query_rules_rest_on_arguments(dataset, from, to, services);
    lemma_columns_are_names();
    lemma_piece_from();
    lemma_piece_where_from();
    lemma_piece_where_to();
    lemma_piece_filter();
    lemma_piece_close();
    lemma_quoted_keeps_no_column(from, every);
    lemma_quoted_keeps_no_column(to, every);
    if !every {
        lemma_quoted_list_keeps_no_column(services);
    }
    lemma_no_word_in(seq!['\n'], "double1"@);
    absent_in_arguments(dataset, from, to, services, "double1"@);
    absent_in_arguments(dataset, from, to, services, "double2"@);
    absent_in_arguments(dataset, from, to, services, "double4"@);
    absent_in_arguments(dataset, from, to, services, "quantileWeighted"@);
    if every {
        absent_in_arguments(dataset, from, to, services, "index1"@);
    }
    assert forall|k: int| 0 <= k < lines(text).len() implies keeps_rules(
        #[trigger] lines(text)[k],
        every,
    ) by {
        if occurs(lines(text)[k], "double1"@) {
            lemma_line_in_text(text, k, "double1"@);
        }
        if occurs(lines(text)[k], "double2"@) {
            lemma_line_in_text(text, k, "double2"@);
        }
        if occurs(lines(text)[k], "double4"@) {
            lemma_line_in_text(text, k, "double4"@);
        }
        if occurs(lines(text)[k], "quantileWeighted"@) {
            lemma_line_in_text(text, k, "quantileWeighted"@);
        }
        if every && occurs(lines(text)[k], "index1"@) {
            lemma_line_in_text(text, k, "index1"@);
        }
    }
}

/// A name absent from each filled-in line is absent from the lines joined.
proof fn absent_in_arguments(
    dataset: Seq<char>,
    from: Seq<char>,
    to: Seq<char>,
    services: Seq<Seq<char>>,
    t: Seq<char>,
)
    requires
        is_word(t),
        !occurs("FROM "@, t),
        !occurs(dataset, t),
        !occurs("WHERE timestamp >= toDateTime("@, t),
        !occurs(quoted(from), t),
        !occurs("  AND timestamp < toDateTime("@, t),
        !occurs(quoted(to), t),
        !occurs(")"@, t),
        services.len() > 0 ==> !occurs("  AND index1 IN ("@, t) && !occurs(
            quoted_list(services),
            t,
        ),
        !is_word_char("FROM "@.last()),
        "FROM "@.len() == 5,
        !is_word_char("WHERE timestamp >= toDateTime("@.last()),
        "WHERE timestamp >= toDateTime("@.len() == 30,
        !is_word_char("  AND timestamp < toDateTime("@.last()),
        "  AND timestamp < toDateTime("@.len() == 29,
        !is_word_char("  AND index1 IN ("@.last()),
        "  AND index1 IN ("@.len() == 17,
        !is_word_char(")"@[0]),
        ")"@.len() == 1,
    ensures
        !occurs(join_lines(cells_filled_lines(dataset, from, to, services)), t),
{
    let a = "FROM "@ + dataset;
    let b = "WHERE timestamp >= toDateTime("@ + quoted(from) + ")"@;
    let c = "  AND timestamp < toDateTime("@ + quoted(to) + ")"@;
    lemma_no_word_in(seq!['\n'], t);
    assert(a =~= "FROM "@ + dataset + Seq::<char>::empty());
    absent_in_filled("FROM "@, dataset, Seq::empty(), t);
    absent_in_filled("WHERE timestamp >= toDateTime("@, quoted(from), ")"@, t);
    absent_in_filled("  AND timestamp < toDateTime("@, quoted(to), ")"@, t);
    let three = seq![a, b, c];
    assert(three.drop_last() =~= seq![a, b]);
    assert(seq![a, b].drop_last() =~= seq![a]);
    assert(join_lines(seq![a]) == a);
    assert(join_lines(seq![a, b]) == a + seq!['\n'] + b);
    assert(join_lines(three) == a + seq!['\n'] + b + seq!['\n'] + c);
    absent_across_newline(a, b, t);
    absent_across_newline(a + seq!['\n'] + b, c, t);
    let fl = cells_filled_lines(dataset, from, to, services);
    if services.len() == 0 {
        assert(fl =~= three);
    } else {
        let d = service_filter_line(services);
        absent_in_filled("  AND index1 IN ("@, quoted_list(services), ")"@, t);
        assert(fl =~= three + seq![d]);
        lemma_join_concat(three, seq![d]);
        absent_across_newline(join_lines(three), d, t);
    }
}

/// A name absent from two texts is absent from them on two lines.
proof fn absent_across_newline(a: Seq<char>, b: Seq<char>, t: Seq<char>)
    requires
        is_word(t),
        !occurs(a, t),
        !occurs(b, t),
        !occurs(seq!['\n'], t),
    ensures
        !occurs(a + seq!['\n'] + b, t),
{
    assert(a + seq!['\n'] + b =~= a + (seq!['\n'] + b));
    if occurs(a + (seq!['\n'] + b), t) {
        assert((seq!['\n'] + b)[0] == '\n');
        lemma_occurs_in_concat(a, seq!['\n'] + b, t);
        if occurs(seq!['\n'] + b, t) {
            lemma_occurs_in_concat(seq!['\n'], b, t);
        }
    }
}

/// The top-tiles query keeps the most requested tiles: it orders its rows by
/// demand, highest first, and only then cuts them to its limit, so the rows
/// that come back are the hottest ones, in the order the caller takes as
/// hottest first.
pub proof fn law_the_top_tiles_are_the_most_requested(
    dataset: Seq<char>,
    from: Seq<char>,
    to: Seq<char>,
    service: Seq<char>,
    rows: nat,
)
    ensures
        occurs(top_tiles_sql(dataset, from, to, service, rows), "\nORDER BY req DESC\nLIMIT "@),
{
    let tail = "
GROUP BY service, tileset, kind, qk8, qk, id
ORDER BY req DESC
LIMIT "@;
    let pattern = "\nORDER BY req DESC\nLIMIT "@;
    reveal_strlit("
GROUP BY service, tileset, kind, qk8, qk, id
ORDER BY req DESC
LIMIT ");
    reveal_strlit("\nORDER BY req DESC\nLIMIT ");
    assert(search_from(tail, pattern, 45)) by {
        reveal_with_fuel(search_from, 2);
        reveal_with_fuel(matches_from, 27);
    }
    lemma_found_from(tail, pattern, 45);
    let before = top_tiles_head() + dataset + "
WHERE timestamp >= toDateTime("@ + quoted(from) + ")
  AND timestamp < toDateTime("@ + quoted(to)
        + ")
  AND blob13 = 'organic'
  AND index1 = "@ + quoted(service);
    lemma_occurs_in_longer(before, tail, pattern);
    lemma_occurs_in_longer(before + tail, dec_text(rows), pattern);
    lemma_occurs_in_longer(before + tail + dec_text(rows), "
FORMAT JSON"@, pattern);
}

/// What the top-tiles query asks for: demand weighted by `_sample_interval`;
/// the one day from `from` to `to`; organic requests of the one service
/// named; and, last, its rows by demand, highest first, no more than `rows`
/// of them.
pub proof fn law_the_top_tiles_query_asks_for_one_day_of_one_service(
    dataset: Seq<char>,
    from: Seq<char>,
    to: Seq<char>,
    service: Seq<char>,
    rows: nat,
)
    ensures
        occurs(top_tiles_sql(dataset, from, to, service, rows), "SUM(double1 * _sample_interval) AS req"@),
        occurs(
            top_tiles_sql(dataset, from, to, service, rows),
            "
WHERE timestamp >= toDateTime("@ + quoted(from) + ")
  AND timestamp < toDateTime("@ + quoted(to) + ")
  AND blob13 = 'organic'
  AND index1 = "@ + quoted(service),
        ),
        ({
            let sql = top_tiles_sql(dataset, from, to, service, rows);
            let end = "
GROUP BY service, tileset, kind, qk8, qk, id
ORDER BY req DESC
LIMIT "@ + dec_text(rows) + "
FORMAT JSON"@;
            end.len() <= sql.len() && sql.subrange(sql.len() - end.len(), sql.len() as int) == end
        }),
{
    let sql = top_tiles_sql(dataset, from, to, service, rows);
    let head = top_tiles_head();
    let weighted = "SUM(double1 * _sample_interval) AS req"@;
    reveal_strlit("SELECT
  blob1 AS service,
  blob2 AS tileset,
  blob3 AS kind,
  blob6 AS qk8,
  blob5 AS qk,
  blob4 AS id,
  SUM(double1 * _sample_interval) AS req
FROM ");
    reveal_strlit("SUM(double1 * _sample_interval) AS req");
    assert(search_from(head, weighted, 112)) by {
        reveal_with_fuel(search_from, 2);
        reveal_with_fuel(matches_from, 42);
    }
    lemma_found_from(head, weighted, 112);
    let a = head + dataset;
    let clauses = "
WHERE timestamp >= toDateTime("@ + quoted(from) + ")
  AND timestamp < toDateTime("@ + quoted(to) + ")
  AND blob13 = 'organic'
  AND index1 = "@ + quoted(service);
    let end = "
GROUP BY service, tileset, kind, qk8, qk, id
ORDER BY req DESC
LIMIT "@ + dec_text(rows) + "
FORMAT JSON"@;
    assert(sql =~= a + clauses + end);
    lemma_occurs_in_longer(head, dataset, weighted);
    lemma_occurs_in_longer(a, clauses, weighted);
    lemma_occurs_in_longer(a + clauses, end, weighted);
    assert((a + clauses + end).subrange(a.len() as int, (a.len() + clauses.len()) as int) =~= clauses);
    assert(occurs_at(sql, clauses, a.len() as int));
    assert(sql.subrange(sql.len() - end.len(), sql.len() as int) =~= end);
}

/// What holds of the head's lines, one by one.
proof fn lemma_head_line(k: int)
    requires
        0 <= k < 14,
    ensures
        one_line(cells_head_lines()[k]),
        forall|every: bool| #[trigger] keeps_rules(cells_head_lines()[k], every),
{
    let head = cells_head_lines();
    if k == 0 {
        lemma_fixed_line_0();
    } else if k == 1 {
        lemma_fixed_line_1();
    } else if k == 2 {
        lemma_fixed_line_2();
    } else if k == 3 {
        lemma_fixed_line_3();
    } else if k == 4 {
        lemma_fixed_line_4();
    } else if k == 5 {
        lemma_fixed_line_5();
    } else if k == 6 {
        lemma_fixed_line_6();
    } else if k == 7 {
        lemma_fixed_line_7();
    } else if k == 8 {
        lemma_fixed_line_8();
    } else if k == 9 {
        lemma_fixed_line_9();
    } else if k == 10 {
        lemma_fixed_line_10();
    } else if k == 11 {
        lemma_fixed_line_11();
    } else if k == 12 {
        lemma_fixed_line_12();
    } else if k == 13 {
        lemma_fixed_line_13();
    }
    assert forall|every: bool| #[trigger] keeps_rules(head[k], every) by {}
}

proof fn lemma_tail_lines()
    ensures
        one_line("GROUP BY service, tileset, kind, qk8"@),
        forall|every: bool| #[trigger] keeps_rules("GROUP BY service, tileset, kind, qk8"@, every),
        one_line("FORMAT JSON"@),
        forall|every: bool| #[trigger] keeps_rules("FORMAT JSON"@, every),
{
    lemma_fixed_line_group_by();
    lemma_fixed_line_format();
}

proof fn absent_in_filled(pre: Seq<char>, mid: Seq<char>, post: Seq<char>, t: Seq<char>)
    requires
        is_word(t),
        !occurs(pre, t),
        !occurs(mid, t),
        !occurs(post, t),
        pre.len() > 0,
        !is_word_char(pre.last()),
        post.len() == 0 || !is_word_char(post[0]),
    ensures
        !occurs(pre + mid + post, t),
{
    if occurs(pre + mid + post, t) {
        lemma_occurs_in_concat(pre + mid, post, t);
        if occurs(pre + mid, t) {
            lemma_occurs_in_concat(pre, mid, t);
        }
    }
}

/// The columns the rules speak of are names.
proof fn lemma_columns_are_names()
    ensures
        is_word("double1"@),
        is_word("double2"@),
        is_word("double4"@),
        is_word("quantileWeighted"@),
        is_word("index1"@),
{
    reveal_strlit("double1");
    reveal_strlit("double2");
    reveal_strlit("double4");
    reveal_strlit("quantileWeighted");
    reveal_strlit("index1");
    reveal_with_fuel(word_from, 18);
    lemma_word_by_search("double1"@);
    lemma_word_by_search("double2"@);
    lemma_word_by_search("double4"@);
    lemma_word_by_search("quantileWeighted"@);
    lemma_word_by_search("index1"@);
}

proof fn lemma_quoted_keeps_no_column(s: Seq<char>, with_index: bool)
    requires
        reads_no_column(s),
        with_index ==> !occurs(s, "index1"@),
    ensures
        reads_no_column(quoted(s)),
        with_index ==> !occurs(quoted(s), "index1"@),
{
    lemma_columns_are_names();
    lemma_occurs_in_quoted(s, "double1"@);
    lemma_occurs_in_quoted(s, "double2"@);
    lemma_occurs_in_quoted(s, "double4"@);
    lemma_occurs_in_quoted(s, "quantileWeighted"@);
    if with_index {
        lemma_occurs_in_quoted(s, "index1"@);
    }
}

proof fn lemma_quoted_list_keeps_no_column(names: Seq<Seq<char>>)
    requires
        forall|k: int| 0 <= k < names.len() ==> reads_no_column(#[trigger] names[k]),
    ensures
        reads_no_column(quoted_list(names)),
{
    lemma_columns_are_names();
    lemma_occurs_in_quoted_list(names, "double1"@);
    lemma_occurs_in_quoted_list(names, "double2"@);
    lemma_occurs_in_quoted_list(names, "double4"@);
    lemma_occurs_in_quoted_list(names, "quantileWeighted"@);
}

proof fn lemma_fixed_line_0()
    ensures
        one_line("SELECT"@),
        forall|every: bool| #[trigger] keeps_rules("SELECT"@, every),
{
    let line = "SELECT"@;
    reveal_strlit("SELECT");
    reveal_strlit("double1");
    reveal_strlit("double2");
    reveal_strlit("double4");
    reveal_strlit("index1");
    reveal_strlit("quantileWeighted");
    assert(!search_from(line, "double1"@, 0)) by {
        reveal_with_fuel(search_from, 8);
        reveal_with_fuel(matches_from, 9);
    }
    lemma_occurs_by_search(line, "double1"@);
    assert(!search_from(line, "double4"@, 0)) by {
        reveal_with_fuel(search_from, 8);
        reveal_with_fuel(matches_from, 9);
    }
    lemma_occurs_by_search(line, "double4"@);
    assert(!search_from(line, "quantileWeighted"@, 0)) by {
        reveal_with_fuel(search_from, 8);
        reveal_with_fuel(matches_from, 18);
    }
    lemma_occurs_by_search(line, "quantileWeighted"@);
    assert(!search_from(line, "double2"@, 0)) by {
        reveal_with_fuel(search_from, 8);
        reveal_with_fuel(matches_from, 9);
    }
    lemma_occurs_by_search(line, "double2"@);
    assert(!search_from(line, "index1"@, 0)) by {
        reveal_with_fuel(search_from, 8);
        reveal_with_fuel(matches_from, 8);
    }
    lemma_occurs_by_search(line, "index1"@);
    assert(!search_from(line, seq!['\n'], 0)) by {
        reveal_with_fuel(search_from, 8);
        reveal_with_fuel(matches_from, 3);
    }
    lemma_occurs_by_search(line, seq!['\n']);
    lemma_one_line_unless_newline(line);
}

proof fn lemma_fixed_line_1()
    ensures
        one_line("  blob1 AS service,"@),
        forall|every: bool| #[trigger] keeps_rules("  blob1 AS service,"@, every),
{
    let line = "  blob1 AS service,"@;
    reveal_strlit("  blob1 AS service,");
    reveal_strlit("double1");
    reveal_strlit("double2");
    reveal_strlit("double4");
    reveal_strlit("index1");
    reveal_strlit("quantileWeighted");
    assert(!search_from(line, "double1"@, 0)) by {
        reveal_with_fuel(search_from, 21);
        reveal_with_fuel(matches_from, 9);
    }
    lemma_occurs_by_search(line, "double1"@);
    assert(!search_from(line, "double4"@, 0)) by {
        reveal_with_fuel(search_from, 21);
        reveal_with_fuel(matches_from, 9);
    }
    lemma_occurs_by_search(line, "double4"@);
    assert(!search_from(line, "quantileWeighted"@, 0)) by {
        reveal_with_fuel(search_from, 21);
        reveal_with_fuel(matches_from, 18);
    }
    lemma_occurs_by_search(line, "quantileWeighted"@);
    assert(!search_from(line, "double2"@, 0)) by {
        reveal_with_fuel(search_from, 21);
        reveal_with_fuel(matches_from, 9);
    }
    lemma_occurs_by_search(line, "double2"@);
    assert(!search_from(line, "index1"@, 0)) by {
        reveal_with_fuel(search_from, 21);
        reveal_with_fuel(matches_from, 8);
    }
    lemma_occurs_by_search(line, "index1"@);
    assert(!search_from(line, seq!['\n'], 0)) by {
        reveal_with_fuel(search_from, 21);
        reveal_with_fuel(matches_from, 3);
    }
    lemma_occurs_by_search(line, seq!['\n']);
    lemma_one_line_unless_newline(line);
}

proof fn lemma_fixed_line_2()
    ensures
        one_line("  blob2 AS tileset,"@),
        forall|every: bool| #[trigger] keeps_rules("  blob2 AS tileset,"@, every),
{
    let line = "  blob2 AS tileset,"@;
    reveal_strlit("  blob2 AS tileset,");
    reveal_strlit("double1");
    reveal_strlit("double2");
    reveal_strlit("double4");
    reveal_strlit("index1");
    reveal_strlit("quantileWeighted");
    assert(!search_from(line, "double1"@, 0)) by {
        reveal_with_fuel(search_from, 21);
        reveal_with_fuel(matches_from, 9);
    }
    lemma_occurs_by_search(line, "double1"@);
    assert(!search_from(line, "double4"@, 0)) by {
        reveal_with_fuel(search_from, 21);
        reveal_with_fuel(matches_from, 9);
    }
    lemma_occurs_by_search(line, "double4"@);
    assert(!search_from(line, "quantileWeighted"@, 0)) by {
        reveal_with_fuel(search_from, 21);
        reveal_with_fuel(matches_from, 18);
    }
    lemma_occurs_by_search(line, "quantileWeighted"@);
    assert(!search_from(line, "double2"@, 0)) by {
        reveal_with_fuel(search_from, 21);
        reveal_with_fuel(matches_from, 9);
    }
    lemma_occurs_by_search(line, "double2"@);
    assert(!search_from(line, "index1"@, 0)) by {
        reveal_with_fuel(search_from, 21);
        reveal_with_fuel(matches_from, 8);
    }
    lemma_occurs_by_search(line, "index1"@);
    assert(!search_from(line, seq!['\n'], 0)) by {
        reveal_with_fuel(search_from, 21);
        reveal_with_fuel(matches_from, 3);
    }
    lemma_occurs_by_search(line, seq!['\n']);
    lemma_one_line_unless_newline(line);
}

proof fn lemma_fixed_line_3()
    ensures
        one_line("  blob3 AS kind,"@),
        forall|every: bool| #[trigger] keeps_rules("  blob3 AS kind,"@, every),
{
    let line = "  blob3 AS kind,"@;
    reveal_strlit("  blob3 AS kind,");
    reveal_strlit("double1");
    reveal_strlit("double2");
    reveal_strlit("double4");
    reveal_strlit("index1");
    reveal_strlit("quantileWeighted");
    assert(!search_from(line, "double1"@, 0)) by {
        reveal_with_fuel(search_from, 18);
        reveal_with_fuel(matches_from, 9);
    }
    lemma_occurs_by_search(line, "double1"@);
    assert(!search_from(line, "double4"@, 0)) by {
        reveal_with_fuel(search_from, 18);
        reveal_with_fuel(matches_from, 9);
    }
    lemma_occurs_by_search(line, "double4"@);
    assert(!search_from(line, "quantileWeighted"@, 0)) by {
        reveal_with_fuel(search_from, 18);
        reveal_with_fuel(matches_from, 18);
    }
    lemma_occurs_by_search(line, "quantileWeighted"@);
    assert(!search_from(line, "double2"@, 0)) by {
        reveal_with_fuel(search_from, 18);
        reveal_with_fuel(matches_from, 9);
    }
    lemma_occurs_by_search(line, "double2"@);
    assert(!search_from(line, "index1"@, 0)) by {
        reveal_with_fuel(search_from, 18);
        reveal_with_fuel(matches_from, 8);
    }
    lemma_occurs_by_search(line, "index1"@);
    assert(!search_from(line, seq!['\n'], 0)) by {
        reveal_with_fuel(search_from, 18);
        reveal_with_fuel(matches_from, 3);
    }
    lemma_occurs_by_search(line, seq!['\n']);
    lemma_one_line_unless_newline(line);
}

proof fn lemma_fixed_line_4()
    ensures
        one_line("  blob6 AS qk8,"@),
        forall|every: bool| #[trigger] keeps_rules("  blob6 AS qk8,"@, every),
{
    let line = "  blob6 AS qk8,"@;
    reveal_strlit("  blob6 AS qk8,");
    reveal_strlit("double1");
    reveal_strlit("double2");
    reveal_strlit("double4");
    reveal_strlit("index1");
    reveal_strlit("quantileWeighted");
    assert(!search_from(line, "double1"@, 0)) by {
        reveal_with_fuel(search_from, 17);
        reveal_with_fuel(matches_from, 9);
    }
    lemma_occurs_by_search(line, "double1"@);
    assert(!search_from(line, "double4"@, 0)) by {
        reveal_with_fuel(search_from, 17);
        reveal_with_fuel(matches_from, 9);
    }
    lemma_occurs_by_search(line, "double4"@);
    assert(!search_from(line, "quantileWeighted"@, 0)) by {
        reveal_with_fuel(search_from, 17);
        reveal_with_fuel(matches_from, 18);
    }
    lemma_occurs_by_search(line, "quantileWeighted"@);
    assert(!search_from(line, "double2"@, 0)) by {
        reveal_with_fuel(search_from, 17);
        reveal_with_fuel(matches_from, 9);
    }
    lemma_occurs_by_search(line, "double2"@);
    assert(!search_from(line, "index1"@, 0)) by {
        reveal_with_fuel(search_from, 17);
        reveal_with_fuel(matches_from, 8);
    }
    lemma_occurs_by_search(line, "index1"@);
    assert(!search_from(line, seq!['\n'], 0)) by {
        reveal_with_fuel(search_from, 17);
        reveal_with_fuel(matches_from, 3);
    }
    lemma_occurs_by_search(line, seq!['\n']);
    lemma_one_line_unless_newline(line);
}

proof fn lemma_fixed_line_5()
    ensures
        one_line("  SUM(IF(blob13 = 'organic', double1 * _sample_interval, 0.0)) AS req,"@),
        forall|every: bool| #[trigger] keeps_rules("  SUM(IF(blob13 = 'organic', double1 * _sample_interval, 0.0)) AS req,"@, every),
{
    let line = "  SUM(IF(blob13 = 'organic', double1 * _sample_interval, 0.0)) AS req,"@;
    reveal_strlit("  SUM(IF(blob13 = 'organic', double1 * _sample_interval, 0.0)) AS req,");
    reveal_strlit("_sample_interval");
    reveal_strlit("double2");
    reveal_strlit("index1");
    reveal_strlit("quantileWeighted");
    assert(search_from(line, "_sample_interval"@, 39)) by {
        reveal_with_fuel(search_from, 2);
        reveal_with_fuel(matches_from, 18);
    }
    lemma_found_from(line, "_sample_interval"@, 39);
    assert(!search_from(line, "quantileWeighted"@, 46)) by {
        reveal_with_fuel(search_from, 26);
        reveal_with_fuel(matches_from, 18);
    }
    assert(!search_from(line, "quantileWeighted"@, 0)) by {
        reveal_with_fuel(search_from, 48);
        reveal_with_fuel(matches_from, 18);
    }
    lemma_occurs_by_search(line, "quantileWeighted"@);
    assert(!search_from(line, "double2"@, 46)) by {
        reveal_with_fuel(search_from, 26);
        reveal_with_fuel(matches_from, 9);
    }
    assert(!search_from(line, "double2"@, 0)) by {
        reveal_with_fuel(search_from, 48);
        reveal_with_fuel(matches_from, 9);
    }
    lemma_occurs_by_search(line, "double2"@);
    assert(!search_from(line, "index1"@, 46)) by {
        reveal_with_fuel(search_from, 26);
        reveal_with_fuel(matches_from, 8);
    }
    assert(!search_from(line, "index1"@, 0)) by {
        reveal_with_fuel(search_from, 48);
        reveal_with_fuel(matches_from, 8);
    }
    lemma_occurs_by_search(line, "index1"@);
    assert(!search_from(line, seq!['\n'], 46)) by {
        reveal_with_fuel(search_from, 26);
        reveal_with_fuel(matches_from, 3);
    }
    assert(!search_from(line, seq!['\n'], 0)) by {
        reveal_with_fuel(search_from, 48);
        reveal_with_fuel(matches_from, 3);
    }
    lemma_occurs_by_search(line, seq!['\n']);
    lemma_one_line_unless_newline(line);
}

proof fn lemma_fixed_line_6()
    ensures
        one_line("  SUM(IF(blob13 = 'organic' AND blob7 = 'miss', double1 * _sample_interval, 0.0)) AS miss,"@),
        forall|every: bool| #[trigger] keeps_rules("  SUM(IF(blob13 = 'organic' AND blob7 = 'miss', double1 * _sample_interval, 0.0)) AS miss,"@, every),
{
    let line = "  SUM(IF(blob13 = 'organic' AND blob7 = 'miss', double1 * _sample_interval, 0.0)) AS miss,"@;
    reveal_strlit("  SUM(IF(blob13 = 'organic' AND blob7 = 'miss', double1 * _sample_interval, 0.0)) AS miss,");
    reveal_strlit("_sample_interval");
    reveal_strlit("double2");
    reveal_strlit("index1");
    reveal_strlit("quantileWeighted");
    assert(search_from(line, "_sample_interval"@, 58)) by {
        reveal_with_fuel(search_from, 2);
        reveal_with_fuel(matches_from, 18);
    }
    lemma_found_from(line, "_sample_interval"@, 58);
    assert(!search_from(line, "quantileWeighted"@, 46)) by {
        reveal_with_fuel(search_from, 46);
        reveal_with_fuel(matches_from, 18);
    }
    assert(!search_from(line, "quantileWeighted"@, 0)) by {
        reveal_with_fuel(search_from, 48);
        reveal_with_fuel(matches_from, 18);
    }
    lemma_occurs_by_search(line, "quantileWeighted"@);
    assert(!search_from(line, "double2"@, 46)) by {
        reveal_with_fuel(search_from, 46);
        reveal_with_fuel(matches_from, 9);
    }
    assert(!search_from(line, "double2"@, 0)) by {
        reveal_with_fuel(search_from, 48);
        reveal_with_fuel(matches_from, 9);
    }
    lemma_occurs_by_search(line, "double2"@);
    assert(!search_from(line, "index1"@, 46)) by {
        reveal_with_fuel(search_from, 46);
        reveal_with_fuel(matches_from, 8);
    }
    assert(!search_from(line, "index1"@, 0)) by {
        reveal_with_fuel(search_from, 48);
        reveal_with_fuel(matches_from, 8);
    }
    lemma_occurs_by_search(line, "index1"@);
    assert(!search_from(line, seq!['\n'], 46)) by {
        reveal_with_fuel(search_from, 46);
        reveal_with_fuel(matches_from, 3);
    }
    assert(!search_from(line, seq!['\n'], 0)) by {
        reveal_with_fuel(search_from, 48);
        reveal_with_fuel(matches_from, 3);
    }
    lemma_occurs_by_search(line, seq!['\n']);
    lemma_one_line_unless_newline(line);
}

proof fn lemma_fixed_line_7()
    ensures
        one_line("  quantileWeighted(0.5)(double2, IF(blob7 = 'miss', _sample_interval, 0)) AS p50_gen_ms,"@),
        forall|every: bool| #[trigger] keeps_rules("  quantileWeighted(0.5)(double2, IF(blob7 = 'miss', _sample_interval, 0)) AS p50_gen_ms,"@, every),
{
    let line = "  quantileWeighted(0.5)(double2, IF(blob7 = 'miss', _sample_interval, 0)) AS p50_gen_ms,"@;
    reveal_strlit("  quantileWeighted(0.5)(double2, IF(blob7 = 'miss', _sample_interval, 0)) AS p50_gen_ms,");
    reveal_strlit("IF(blob7 = 'miss', _sample_interval, 0)");
    reveal_strlit("double1");
    reveal_strlit("double4");
    reveal_strlit("index1");
    reveal_strlit("organic");
    assert(!search_from(line, "double1"@, 46)) by {
        reveal_with_fuel(search_from, 44);
        reveal_with_fuel(matches_from, 9);
    }
    assert(!search_from(line, "double1"@, 0)) by {
        reveal_with_fuel(search_from, 48);
        reveal_with_fuel(matches_from, 9);
    }
    lemma_occurs_by_search(line, "double1"@);
    assert(!search_from(line, "double4"@, 46)) by {
        reveal_with_fuel(search_from, 44);
        reveal_with_fuel(matches_from, 9);
    }
    assert(!search_from(line, "double4"@, 0)) by {
        reveal_with_fuel(search_from, 48);
        reveal_with_fuel(matches_from, 9);
    }
    lemma_occurs_by_search(line, "double4"@);
    assert(search_from(line, "IF(blob7 = 'miss', _sample_interval, 0)"@, 33)) by {
        reveal_with_fuel(search_from, 2);
        reveal_with_fuel(matches_from, 41);
    }
    lemma_found_from(line, "IF(blob7 = 'miss', _sample_interval, 0)"@, 33);
    assert(!search_from(line, "organic"@, 46)) by {
        reveal_with_fuel(search_from, 44);
        reveal_with_fuel(matches_from, 9);
    }
    assert(!search_from(line, "organic"@, 0)) by {
        reveal_with_fuel(search_from, 48);
        reveal_with_fuel(matches_from, 9);
    }
    lemma_occurs_by_search(line, "organic"@);
    assert(!search_from(line, "index1"@, 46)) by {
        reveal_with_fuel(search_from, 44);
        reveal_with_fuel(matches_from, 8);
    }
    assert(!search_from(line, "index1"@, 0)) by {
        reveal_with_fuel(search_from, 48);
        reveal_with_fuel(matches_from, 8);
    }
    lemma_occurs_by_search(line, "index1"@);
    assert(!search_from(line, seq!['\n'], 46)) by {
        reveal_with_fuel(search_from, 44);
        reveal_with_fuel(matches_from, 3);
    }
    assert(!search_from(line, seq!['\n'], 0)) by {
        reveal_with_fuel(search_from, 48);
        reveal_with_fuel(matches_from, 3);
    }
    lemma_occurs_by_search(line, seq!['\n']);
    lemma_one_line_unless_newline(line);
}

proof fn lemma_fixed_line_8()
    ensures
        one_line("  quantileWeighted(0.95)(double2, IF(blob7 = 'miss', _sample_interval, 0)) AS p95_gen_ms,"@),
        forall|every: bool| #[trigger] keeps_rules("  quantileWeighted(0.95)(double2, IF(blob7 = 'miss', _sample_interval, 0)) AS p95_gen_ms,"@, every),
{
    let line = "  quantileWeighted(0.95)(double2, IF(blob7 = 'miss', _sample_interval, 0)) AS p95_gen_ms,"@;
    reveal_strlit("  quantileWeighted(0.95)(double2, IF(blob7 = 'miss', _sample_interval, 0)) AS p95_gen_ms,");
    reveal_strlit("IF(blob7 = 'miss', _sample_interval, 0)");
    reveal_strlit("double1");
    reveal_strlit("double4");
    reveal_strlit("index1");
    reveal_strlit("organic");
    assert(!search_from(line, "double1"@, 46)) by {
        reveal_with_fuel(search_from, 45);
        reveal_with_fuel(matches_from, 9);
    }
    assert(!search_from(line, "double1"@, 0)) by {
        reveal_with_fuel(search_from, 48);
        reveal_with_fuel(matches_from, 9);
    }
    lemma_occurs_by_search(line, "double1"@);
    assert(!search_from(line, "double4"@, 46)) by {
        reveal_with_fuel(search_from, 45);
        reveal_with_fuel(matches_from, 9);
    }
    assert(!search_from(line, "double4"@, 0)) by {
        reveal_with_fuel(search_from, 48);
        reveal_with_fuel(matches_from, 9);
    }
    lemma_occurs_by_search(line, "double4"@);
    assert(search_from(line, "IF(blob7 = 'miss', _sample_interval, 0)"@, 34)) by {
        reveal_with_fuel(search_from, 2);
        reveal_with_fuel(matches_from, 41);
    }
    lemma_found_from(line, "IF(blob7 = 'miss', _sample_interval, 0)"@, 34);
    assert(!search_from(line, "organic"@, 46)) by {
        reveal_with_fuel(search_from, 45);
        reveal_with_fuel(matches_from, 9);
    }
    assert(!search_from(line, "organic"@, 0)) by {
        reveal_with_fuel(search_from, 48);
        reveal_with_fuel(matches_from, 9);
    }
    lemma_occurs_by_search(line, "organic"@);
    assert(!search_from(line, "index1"@, 46)) by {
        reveal_with_fuel(search_from, 45);
        reveal_with_fuel(matches_from, 8);
    }
    assert(!search_from(line, "index1"@, 0)) by {
        reveal_with_fuel(search_from, 48);
        reveal_with_fuel(matches_from, 8);
    }
    lemma_occurs_by_search(line, "index1"@);
    assert(!search_from(line, seq!['\n'], 46)) by {
        reveal_with_fuel(search_from, 45);
        reveal_with_fuel(matches_from, 3);
    }
    assert(!search_from(line, seq!['\n'], 0)) by {
        reveal_with_fuel(search_from, 48);
        reveal_with_fuel(matches_from, 3);
    }
    lemma_occurs_by_search(line, seq!['\n']);
    lemma_one_line_unless_newline(line);
}

proof fn lemma_fixed_line_9()
    ensures
        one_line("  SUM(double2 * _sample_interval) AS sum_gen_ms,"@),
        forall|every: bool| #[trigger] keeps_rules("  SUM(double2 * _sample_interval) AS sum_gen_ms,"@, every),
{
    let line = "  SUM(double2 * _sample_interval) AS sum_gen_ms,"@;
    reveal_strlit("  SUM(double2 * _sample_interval) AS sum_gen_ms,");
    reveal_strlit("double1");
    reveal_strlit("double4");
    reveal_strlit("index1");
    reveal_strlit("organic");
    reveal_strlit("quantileWeighted");
    assert(!search_from(line, "double1"@, 46)) by {
        reveal_with_fuel(search_from, 4);
        reveal_with_fuel(matches_from, 9);
    }
    assert(!search_from(line, "double1"@, 0)) by {
        reveal_with_fuel(search_from, 48);
        reveal_with_fuel(matches_from, 9);
    }
    lemma_occurs_by_search(line, "double1"@);
    assert(!search_from(line, "double4"@, 46)) by {
        reveal_with_fuel(search_from, 4);
        reveal_with_fuel(matches_from, 9);
    }
    assert(!search_from(line, "double4"@, 0)) by {
        reveal_with_fuel(search_from, 48);
        reveal_with_fuel(matches_from, 9);
    }
    lemma_occurs_by_search(line, "double4"@);
    assert(!search_from(line, "quantileWeighted"@, 46)) by {
        reveal_with_fuel(search_from, 4);
        reveal_with_fuel(matches_from, 18);
    }
    assert(!search_from(line, "quantileWeighted"@, 0)) by {
        reveal_with_fuel(search_from, 48);
        reveal_with_fuel(matches_from, 18);
    }
    lemma_occurs_by_search(line, "quantileWeighted"@);
    assert(!search_from(line, "organic"@, 46)) by {
        reveal_with_fuel(search_from, 4);
        reveal_with_fuel(matches_from, 9);
    }
    assert(!search_from(line, "organic"@, 0)) by {
        reveal_with_fuel(search_from, 48);
        reveal_with_fuel(matches_from, 9);
    }
    lemma_occurs_by_search(line, "organic"@);
    assert(!search_from(line, "index1"@, 46)) by {
        reveal_with_fuel(search_from, 4);
        reveal_with_fuel(matches_from, 8);
    }
    assert(!search_from(line, "index1"@, 0)) by {
        reveal_with_fuel(search_from, 48);
        reveal_with_fuel(matches_from, 8);
    }
    lemma_occurs_by_search(line, "index1"@);
    assert(!search_from(line, seq!['\n'], 46)) by {
        reveal_with_fuel(search_from, 4);
        reveal_with_fuel(matches_from, 3);
    }
    assert(!search_from(line, seq!['\n'], 0)) by {
        reveal_with_fuel(search_from, 48);
        reveal_with_fuel(matches_from, 3);
    }
    lemma_occurs_by_search(line, seq!['\n']);
    lemma_one_line_unless_newline(line);
}

proof fn lemma_fixed_line_10()
    ensures
        one_line("  SUM(double4 * _sample_interval) AS bytes,"@),
        forall|every: bool| #[trigger] keeps_rules("  SUM(double4 * _sample_interval) AS bytes,"@, every),
{
    let line = "  SUM(double4 * _sample_interval) AS bytes,"@;
    reveal_strlit("  SUM(double4 * _sample_interval) AS bytes,");
    reveal_strlit("_sample_interval");
    reveal_strlit("double2");
    reveal_strlit("index1");
    reveal_strlit("quantileWeighted");
    assert(search_from(line, "_sample_interval"@, 16)) by {
        reveal_with_fuel(search_from, 2);
        reveal_with_fuel(matches_from, 18);
    }
    lemma_found_from(line, "_sample_interval"@, 16);
    assert(!search_from(line, "quantileWeighted"@, 0)) by {
        reveal_with_fuel(search_from, 45);
        reveal_with_fuel(matches_from, 18);
    }
    lemma_occurs_by_search(line, "quantileWeighted"@);
    assert(!search_from(line, "double2"@, 0)) by {
        reveal_with_fuel(search_from, 45);
        reveal_with_fuel(matches_from, 9);
    }
    lemma_occurs_by_search(line, "double2"@);
    assert(!search_from(line, "index1"@, 0)) by {
        reveal_with_fuel(search_from, 45);
        reveal_with_fuel(matches_from, 8);
    }
    lemma_occurs_by_search(line, "index1"@);
    assert(!search_from(line, seq!['\n'], 0)) by {
        reveal_with_fuel(search_from, 45);
        reveal_with_fuel(matches_from, 3);
    }
    lemma_occurs_by_search(line, seq!['\n']);
    lemma_one_line_unless_newline(line);
}

proof fn lemma_fixed_line_11()
    ensures
        one_line("  SUM(double4 * _sample_interval) / SUM(double1 * _sample_interval) AS avg_bytes,"@),
        forall|every: bool| #[trigger] keeps_rules("  SUM(double4 * _sample_interval) / SUM(double1 * _sample_interval) AS avg_bytes,"@, every),
{
    let line = "  SUM(double4 * _sample_interval) / SUM(double1 * _sample_interval) AS avg_bytes,"@;
    reveal_strlit("  SUM(double4 * _sample_interval) / SUM(double1 * _sample_interval) AS avg_bytes,");
    reveal_strlit("_sample_interval");
    reveal_strlit("double2");
    reveal_strlit("index1");
    reveal_strlit("quantileWeighted");
    assert(search_from(line, "_sample_interval"@, 16)) by {
        reveal_with_fuel(search_from, 2);
        reveal_with_fuel(matches_from, 18);
    }
    lemma_found_from(line, "_sample_interval"@, 16);
    assert(!search_from(line, "quantileWeighted"@, 46)) by {
        reveal_with_fuel(search_from, 37);
        reveal_with_fuel(matches_from, 18);
    }
    assert(!search_from(line, "quantileWeighted"@, 0)) by {
        reveal_with_fuel(search_from, 48);
        reveal_with_fuel(matches_from, 18);
    }
    lemma_occurs_by_search(line, "quantileWeighted"@);
    assert(!search_from(line, "double2"@, 46)) by {
        reveal_with_fuel(search_from, 37);
        reveal_with_fuel(matches_from, 9);
    }
    assert(!search_from(line, "double2"@, 0)) by {
        reveal_with_fuel(search_from, 48);
        reveal_with_fuel(matches_from, 9);
    }
    lemma_occurs_by_search(line, "double2"@);
    assert(!search_from(line, "index1"@, 46)) by {
        reveal_with_fuel(search_from, 37);
        reveal_with_fuel(matches_from, 8);
    }
    assert(!search_from(line, "index1"@, 0)) by {
        reveal_with_fuel(search_from, 48);
        reveal_with_fuel(matches_from, 8);
    }
    lemma_occurs_by_search(line, "index1"@);
    assert(!search_from(line, seq!['\n'], 46)) by {
        reveal_with_fuel(search_from, 37);
        reveal_with_fuel(matches_from, 3);
    }
    assert(!search_from(line, seq!['\n'], 0)) by {
        reveal_with_fuel(search_from, 48);
        reveal_with_fuel(matches_from, 3);
    }
    lemma_occurs_by_search(line, seq!['\n']);
    lemma_one_line_unless_newline(line);
}

proof fn lemma_fixed_line_12()
    ensures
        one_line("  COUNT(DISTINCT blob4) AS tiles_observed,"@),
        forall|every: bool| #[trigger] keeps_rules("  COUNT(DISTINCT blob4) AS tiles_observed,"@, every),
{
    let line = "  COUNT(DISTINCT blob4) AS tiles_observed,"@;
    reveal_strlit("  COUNT(DISTINCT blob4) AS tiles_observed,");
    reveal_strlit("double1");
    reveal_strlit("double2");
    reveal_strlit("double4");
    reveal_strlit("index1");
    reveal_strlit("quantileWeighted");
    assert(!search_from(line, "double1"@, 0)) by {
        reveal_with_fuel(search_from, 44);
        reveal_with_fuel(matches_from, 9);
    }
    lemma_occurs_by_search(line, "double1"@);
    assert(!search_from(line, "double4"@, 0)) by {
        reveal_with_fuel(search_from, 44);
        reveal_with_fuel(matches_from, 9);
    }
    lemma_occurs_by_search(line, "double4"@);
    assert(!search_from(line, "quantileWeighted"@, 0)) by {
        reveal_with_fuel(search_from, 44);
        reveal_with_fuel(matches_from, 18);
    }
    lemma_occurs_by_search(line, "quantileWeighted"@);
    assert(!search_from(line, "double2"@, 0)) by {
        reveal_with_fuel(search_from, 44);
        reveal_with_fuel(matches_from, 9);
    }
    lemma_occurs_by_search(line, "double2"@);
    assert(!search_from(line, "index1"@, 0)) by {
        reveal_with_fuel(search_from, 44);
        reveal_with_fuel(matches_from, 8);
    }
    lemma_occurs_by_search(line, "index1"@);
    assert(!search_from(line, seq!['\n'], 0)) by {
        reveal_with_fuel(search_from, 44);
        reveal_with_fuel(matches_from, 3);
    }
    lemma_occurs_by_search(line, seq!['\n']);
    lemma_one_line_unless_newline(line);
}

proof fn lemma_fixed_line_13()
    ensures
        one_line("  MAX(_sample_interval) AS sample_interval_max"@),
        forall|every: bool| #[trigger] keeps_rules("  MAX(_sample_interval) AS sample_interval_max"@, every),
{
    let line = "  MAX(_sample_interval) AS sample_interval_max"@;
    reveal_strlit("  MAX(_sample_interval) AS sample_interval_max");
    reveal_strlit("double1");
    reveal_strlit("double2");
    reveal_strlit("double4");
    reveal_strlit("index1");
    reveal_strlit("quantileWeighted");
    assert(!search_from(line, "double1"@, 0)) by {
        reveal_with_fuel(search_from, 48);
        reveal_with_fuel(matches_from, 9);
    }
    lemma_occurs_by_search(line, "double1"@);
    assert(!search_from(line, "double4"@, 0)) by {
        reveal_with_fuel(search_from, 48);
        reveal_with_fuel(matches_from, 9);
    }
    lemma_occurs_by_search(line, "double4"@);
    assert(!search_from(line, "quantileWeighted"@, 0)) by {
        reveal_with_fuel(search_from, 48);
        reveal_with_fuel(matches_from, 18);
    }
    lemma_occurs_by_search(line, "quantileWeighted"@);
    assert(!search_from(line, "double2"@, 0)) by {
        reveal_with_fuel(search_from, 48);
        reveal_with_fuel(matches_from, 9);
    }
    lemma_occurs_by_search(line, "double2"@);
    assert(!search_from(line, "index1"@, 0)) by {
        reveal_with_fuel(search_from, 48);
        reveal_with_fuel(matches_from, 8);
    }
    lemma_occurs_by_search(line, "index1"@);
    assert(!search_from(line, seq!['\n'], 0)) by {
        reveal_with_fuel(search_from, 48);
        reveal_with_fuel(matches_from, 3);
    }
    lemma_occurs_by_search(line, seq!['\n']);
    lemma_one_line_unless_newline(line);
}

proof fn lemma_fixed_line_group_by()
    ensures
        one_line("GROUP BY service, tileset, kind, qk8"@),
        forall|every: bool| #[trigger] keeps_rules("GROUP BY service, tileset, kind, qk8"@, every),
{
    let line = "GROUP BY service, tileset, kind, qk8"@;
    reveal_strlit("GROUP BY service, tileset, kind, qk8");
    reveal_strlit("double1");
    reveal_strlit("double2");
    reveal_strlit("double4");
    reveal_strlit("index1");
    reveal_strlit("quantileWeighted");
    assert(!search_from(line, "double1"@, 0)) by {
        reveal_with_fuel(search_from, 38);
        reveal_with_fuel(matches_from, 9);
    }
    lemma_occurs_by_search(line, "double1"@);
    assert(!search_from(line, "double4"@, 0)) by {
        reveal_with_fuel(search_from, 38);
        reveal_with_fuel(matches_from, 9);
    }
    lemma_occurs_by_search(line, "double4"@);
    assert(!search_from(line, "quantileWeighted"@, 0)) by {
        reveal_with_fuel(search_from, 38);
        reveal_with_fuel(matches_from, 18);
    }
    lemma_occurs_by_search(line, "quantileWeighted"@);
    assert(!search_from(line, "double2"@, 0)) by {
        reveal_with_fuel(search_from, 38);
        reveal_with_fuel(matches_from, 9);
    }
    lemma_occurs_by_search(line, "double2"@);
    assert(!search_from(line, "index1"@, 0)) by {
        reveal_with_fuel(search_from, 38);
        reveal_with_fuel(matches_from, 8);
    }
    lemma_occurs_by_search(line, "index1"@);
    assert(!search_from(line, seq!['\n'], 0)) by {
        reveal_with_fuel(search_from, 38);
        reveal_with_fuel(matches_from, 3);
    }
    lemma_occurs_by_search(line, seq!['\n']);
    lemma_one_line_unless_newline(line);
}

proof fn lemma_fixed_line_format()
    ensures
        one_line("FORMAT JSON"@),
        forall|every: bool| #[trigger] keeps_rules("FORMAT JSON"@, every),
{
    let line = "FORMAT JSON"@;
    reveal_strlit("FORMAT JSON");
    reveal_strlit("double1");
    reveal_strlit("double2");
    reveal_strlit("double4");
    reveal_strlit("index1");
    reveal_strlit("quantileWeighted");
    assert(!search_from(line, "double1"@, 0)) by {
        reveal_with_fuel(search_from, 13);
        reveal_with_fuel(matches_from, 9);
    }
    lemma_occurs_by_search(line, "double1"@);
    assert(!search_from(line, "double4"@, 0)) by {
        reveal_with_fuel(search_from, 13);
        reveal_with_fuel(matches_from, 9);
    }
    lemma_occurs_by_search(line, "double4"@);
    assert(!search_from(line, "quantileWeighted"@, 0)) by {
        reveal_with_fuel(search_from, 13);
        reveal_with_fuel(matches_from, 18);
    }
    lemma_occurs_by_search(line, "quantileWeighted"@);
    assert(!search_from(line, "double2"@, 0)) by {
        reveal_with_fuel(search_from, 13);
        reveal_with_fuel(matches_from, 9);
    }
    lemma_occurs_by_search(line, "double2"@);
    assert(!search_from(line, "index1"@, 0)) by {
        reveal_with_fuel(search_from, 13);
        reveal_with_fuel(matches_from, 8);
    }
    lemma_occurs_by_search(line, "index1"@);
    assert(!search_from(line, seq!['\n'], 0)) by {
        reveal_with_fuel(search_from, 13);
        reveal_with_fuel(matches_from, 3);
    }
    lemma_occurs_by_search(line, seq!['\n']);
    lemma_one_line_unless_newline(line);
}

proof fn lemma_piece_from()
    ensures
        reads_no_column("FROM "@),
        !occurs("FROM "@, "index1"@),
        !is_word_char("FROM "@.last()),
        "FROM "@.len() == 5,
{
    let piece = "FROM "@;
    reveal_strlit("FROM ");
    reveal_strlit("double1");
    reveal_strlit("double2");
    reveal_strlit("double4");
    reveal_strlit("quantileWeighted");
    reveal_strlit("index1");
    assert(!search_from(piece, "double1"@, 0)) by {
        reveal_with_fuel(search_from, 7);
        reveal_with_fuel(matches_from, 18);
    }
    lemma_occurs_by_search(piece, "double1"@);
    assert(!search_from(piece, "double2"@, 0)) by {
        reveal_with_fuel(search_from, 7);
        reveal_with_fuel(matches_from, 18);
    }
    lemma_occurs_by_search(piece, "double2"@);
    assert(!search_from(piece, "double4"@, 0)) by {
        reveal_with_fuel(search_from, 7);
        reveal_with_fuel(matches_from, 18);
    }
    lemma_occurs_by_search(piece, "double4"@);
    assert(!search_from(piece, "quantileWeighted"@, 0)) by {
        reveal_with_fuel(search_from, 7);
        reveal_with_fuel(matches_from, 18);
    }
    lemma_occurs_by_search(piece, "quantileWeighted"@);
    assert(!search_from(piece, "index1"@, 0)) by {
        reveal_with_fuel(search_from, 7);
        reveal_with_fuel(matches_from, 18);
    }
    lemma_occurs_by_search(piece, "index1"@);
}

proof fn lemma_piece_where_from()
    ensures
        reads_no_column("WHERE timestamp >= toDateTime("@),
        !occurs("WHERE timestamp >= toDateTime("@, "index1"@),
        !is_word_char("WHERE timestamp >= toDateTime("@.last()),
        "WHERE timestamp >= toDateTime("@.len() == 30,
{
    let piece = "WHERE timestamp >= toDateTime("@;
    reveal_strlit("WHERE timestamp >= toDateTime(");
    reveal_strlit("double1");
    reveal_strlit("double2");
    reveal_strlit("double4");
    reveal_strlit("quantileWeighted");
    reveal_strlit("index1");
    assert(!search_from(piece, "double1"@, 0)) by {
        reveal_with_fuel(search_from, 32);
        reveal_with_fuel(matches_from, 18);
    }
    lemma_occurs_by_search(piece, "double1"@);
    assert(!search_from(piece, "double2"@, 0)) by {
        reveal_with_fuel(search_from, 32);
        reveal_with_fuel(matches_from, 18);
    }
    lemma_occurs_by_search(piece, "double2"@);
    assert(!search_from(piece, "double4"@, 0)) by {
        reveal_with_fuel(search_from, 32);
        reveal_with_fuel(matches_from, 18);
    }
    lemma_occurs_by_search(piece, "double4"@);
    assert(!search_from(piece, "quantileWeighted"@, 0)) by {
        reveal_with_fuel(search_from, 32);
        reveal_with_fuel(matches_from, 18);
    }
    lemma_occurs_by_search(piece, "quantileWeighted"@);
    assert(!search_from(piece, "index1"@, 0)) by {
        reveal_with_fuel(search_from, 32);
        reveal_with_fuel(matches_from, 18);
    }
    lemma_occurs_by_search(piece, "index1"@);
}

proof fn lemma_piece_where_to()
    ensures
        reads_no_column("  AND timestamp < toDateTime("@),
        !occurs("  AND timestamp < toDateTime("@, "index1"@),
        !is_word_char("  AND timestamp < toDateTime("@.last()),
        "  AND timestamp < toDateTime("@.len() == 29,
{
    let piece = "  AND timestamp < toDateTime("@;
    reveal_strlit("  AND timestamp < toDateTime(");
    reveal_strlit("double1");
    reveal_strlit("double2");
    reveal_strlit("double4");
    reveal_strlit("quantileWeighted");
    reveal_strlit("index1");
    assert(!search_from(piece, "double1"@, 0)) by {
        reveal_with_fuel(search_from, 31);
        reveal_with_fuel(matches_from, 18);
    }
    lemma_occurs_by_search(piece, "double1"@);
    assert(!search_from(piece, "double2"@, 0)) by {
        reveal_with_fuel(search_from, 31);
        reveal_with_fuel(matches_from, 18);
    }
    lemma_occurs_by_search(piece, "double2"@);
    assert(!search_from(piece, "double4"@, 0)) by {
        reveal_with_fuel(search_from, 31);
        reveal_with_fuel(matches_from, 18);
    }
    lemma_occurs_by_search(piece, "double4"@);
    assert(!search_from(piece, "quantileWeighted"@, 0)) by {
        reveal_with_fuel(search_from, 31);
        reveal_with_fuel(matches_from, 18);
    }
    lemma_occurs_by_search(piece, "quantileWeighted"@);
    assert(!search_from(piece, "index1"@, 0)) by {
        reveal_with_fuel(search_from, 31);
        reveal_with_fuel(matches_from, 18);
    }
    lemma_occurs_by_search(piece, "index1"@);
}

proof fn lemma_piece_filter()
    ensures
        reads_no_column("  AND index1 IN ("@),
        !is_word_char("  AND index1 IN ("@.last()),
        "  AND index1 IN ("@.len() == 17,
{
    let piece = "  AND index1 IN ("@;
    reveal_strlit("  AND index1 IN (");
    reveal_strlit("double1");
    reveal_strlit("double2");
    reveal_strlit("double4");
    reveal_strlit("quantileWeighted");
    assert(!search_from(piece, "double1"@, 0)) by {
        reveal_with_fuel(search_from, 19);
        reveal_with_fuel(matches_from, 18);
    }
    lemma_occurs_by_search(piece, "double1"@);
    assert(!search_from(piece, "double2"@, 0)) by {
        reveal_with_fuel(search_from, 19);
        reveal_with_fuel(matches_from, 18);
    }
    lemma_occurs_by_search(piece, "double2"@);
    assert(!search_from(piece, "double4"@, 0)) by {
        reveal_with_fuel(search_from, 19);
        reveal_with_fuel(matches_from, 18);
    }
    lemma_occurs_by_search(piece, "double4"@);
    assert(!search_from(piece, "quantileWeighted"@, 0)) by {
        reveal_with_fuel(search_from, 19);
        reveal_with_fuel(matches_from, 18);
    }
    lemma_occurs_by_search(piece, "quantileWeighted"@);
}

proof fn lemma_piece_close()
    ensures
        reads_no_column(")"@),
        !occurs(")"@, "index1"@),
        !is_word_char(")"@[0]),
        !is_word_char(")"@.last()),
        ")"@.len() == 1,
{
    let piece = ")"@;
    reveal_strlit(")");
    reveal_strlit("double1");
    reveal_strlit("double2");
    reveal_strlit("double4");
    reveal_strlit("quantileWeighted");
    reveal_strlit("index1");
    assert(!search_from(piece, "double1"@, 0)) by {
        reveal_with_fuel(search_from, 3);
        reveal_with_fuel(matches_from, 18);
    }
    lemma_occurs_by_search(piece, "double1"@);
    assert(!search_from(piece, "double2"@, 0)) by {
        reveal_with_fuel(search_from, 3);
        reveal_with_fuel(matches_from, 18);
    }
    lemma_occurs_by_search(piece, "double2"@);
    assert(!search_from(piece, "double4"@, 0)) by {
        reveal_with_fuel(search_from, 3);
        reveal_with_fuel(matches_from, 18);
    }
    lemma_occurs_by_search(piece, "double4"@);
    assert(!search_from(piece, "quantileWeighted"@, 0)) by {
        reveal_with_fuel(search_from, 3);
        reveal_with_fuel(matches_from, 18);
    }
    lemma_occurs_by_search(piece, "quantileWeighted"@);
    assert(!search_from(piece, "index1"@, 0)) by {
        reveal_with_fuel(search_from, 3);
        reveal_with_fuel(matches_from, 18);
    }
    lemma_occurs_by_search(piece, "index1"@);
}

} // verus!
