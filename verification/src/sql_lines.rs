//! Reading SQL text line by line: where a line breaks, and whether a name
//! occurs in a line.
//!
//! The queries' rules are about lines ("every line that reads a frequency
//! weights it"), so this is what they are stated over.

use vstd::prelude::*;

use crate::sql_text::{escaped, quoted, quoted_list};

verus! {

/// Whether `t` occurs in `s` starting at `i`.
pub open spec fn occurs_at(s: Seq<char>, t: Seq<char>, i: int) -> bool {
    0 <= i && i + t.len() <= s.len() && s.subrange(i, i + t.len()) == t
}

/// Whether `t` occurs anywhere in `s`.
pub open spec fn occurs(s: Seq<char>, t: Seq<char>) -> bool {
    exists|i: int| occurs_at(s, t, i)
}

/// A character a column's name can be made of.
pub open spec fn is_word_char(c: char) -> bool {
    ('a' <= c && c <= 'z') || ('A' <= c && c <= 'Z') || ('0' <= c && c <= '9') || c == '_'
}

/// A nonempty text of name characters only, such as a column's name.
pub open spec fn is_word(t: Seq<char>) -> bool {
    t.len() > 0 && forall|k: int| 0 <= k < t.len() ==> is_word_char(#[trigger] t[k])
}

/// A text that does not run onto a new line.
pub open spec fn one_line(s: Seq<char>) -> bool {
    forall|k: int| 0 <= k < s.len() ==> #[trigger] s[k] != '\n'
}

/// `s` cut at each newline. A text without one is one line.
pub open spec fn lines(s: Seq<char>) -> Seq<Seq<char>>
    decreases s.len(),
{
    if s.len() == 0 {
        seq![Seq::empty()]
    } else {
        let r = lines(s.drop_last());
        if s.last() == '\n' {
            r.push(Seq::empty())
        } else {
            r.update(r.len() - 1, r.last().push(s.last()))
        }
    }
}

/// Lines joined by newlines.
pub open spec fn join_lines(ls: Seq<Seq<char>>) -> Seq<char>
    decreases ls.len(),
{
    if ls.len() <= 1 {
        if ls.len() == 0 {
            Seq::empty()
        } else {
            ls[0]
        }
    } else {
        join_lines(ls.drop_last()) + seq!['\n'] + ls.last()
    }
}

// ---------------------------------------------------------------------------
// Deciding an occurrence in a text known character by character.
// ---------------------------------------------------------------------------

/// Whether `t` from its `j`th character on matches `s` from `i + j` on.
pub open spec fn matches_from(s: Seq<char>, t: Seq<char>, i: int, j: nat) -> bool
    decreases t.len() - j,
{
    if j >= t.len() {
        i + t.len() <= s.len()
    } else {
        i + j < s.len() && s[i + j] == t[j as int] && matches_from(s, t, i, j + 1)
    }
}

/// Whether `t` occurs in `s` at `i` or after.
pub open spec fn search_from(s: Seq<char>, t: Seq<char>, i: nat) -> bool
    decreases s.len() + 1 - i,
{
    if i + t.len() > s.len() {
        false
    } else {
        matches_from(s, t, i as int, 0) || search_from(s, t, i + 1)
    }
}

proof fn lemma_matches_from(s: Seq<char>, t: Seq<char>, i: int, j: nat)
    requires
        0 <= i,
        j <= t.len(),
    ensures
        matches_from(s, t, i, j) <==> (i + t.len() <= s.len() && forall|k: int|
            j <= k < t.len() ==> s[i + k] == t[k]),
    decreases t.len() - j,
{
    if j < t.len() {
        lemma_matches_from(s, t, i, j + 1);
        if i + t.len() <= s.len() && (forall|k: int| j <= k < t.len() ==> s[i + k] == t[k]) {
            assert(s[i + j] == t[j as int]);
        }
    }
}

proof fn lemma_search_from(s: Seq<char>, t: Seq<char>, i: nat)
    ensures
        search_from(s, t, i) <==> exists|k: int| i <= k && occurs_at(s, t, k),
    decreases s.len() + 1 - i,
{
    if i + t.len() <= s.len() {
        lemma_search_from(s, t, i + 1);
        lemma_matches_from(s, t, i as int, 0);
        if matches_from(s, t, i as int, 0) {
            assert(s.subrange(i as int, (i + t.len()) as int) =~= t);
            assert(occurs_at(s, t, i as int));
        }
        if occurs_at(s, t, i as int) {
            assert forall|k: int| 0 <= k < t.len() implies s[i + k] == t[k] by {
                assert(s.subrange(i as int, (i + t.len()) as int)[k] == s[i + k]);
            }
        }
        if exists|k: int| i <= k && occurs_at(s, t, k) {
            let k = choose|k: int| i <= k && occurs_at(s, t, k);
            if k > i {
                assert(i + 1 <= k);
            }
        }
    } else {
        if exists|k: int| i <= k && occurs_at(s, t, k) {
            let k = choose|k: int| i <= k && occurs_at(s, t, k);
            assert(k + t.len() <= s.len());
        }
    }
}

/// Whether `t` occurs in `s`, decided by looking at each position in turn.
pub proof fn lemma_occurs_by_search(s: Seq<char>, t: Seq<char>)
    ensures
        occurs(s, t) == search_from(s, t, 0),
{
    lemma_search_from(s, t, 0);
}

/// Found from some position on, `t` occurs.
pub proof fn lemma_found_from(s: Seq<char>, t: Seq<char>, i: nat)
    requires
        search_from(s, t, i),
    ensures
        occurs(s, t),
{
    lemma_search_from(s, t, i);
}


/// Whether every character of `t` from the `i`th on is a name character.
pub open spec fn word_from(t: Seq<char>, i: nat) -> bool
    decreases t.len() - i,
{
    if i >= t.len() {
        true
    } else {
        is_word_char(t[i as int]) && word_from(t, i + 1)
    }
}

/// A nonempty text whose characters are, one by one, name characters is a
/// name.
pub proof fn lemma_word_by_search(t: Seq<char>)
    requires
        t.len() > 0,
        word_from(t, 0),
    ensures
        is_word(t),
{
    lemma_word_from(t, 0);
}

proof fn lemma_word_from(t: Seq<char>, i: nat)
    requires
        word_from(t, i),
    ensures
        forall|k: int| i <= k < t.len() ==> is_word_char(#[trigger] t[k]),
    decreases t.len() - i,
{
    if i < t.len() {
        lemma_word_from(t, i + 1);
    }
}

/// A text in which no newline occurs is one line.
pub proof fn lemma_one_line_unless_newline(s: Seq<char>)
    requires
        !occurs(s, seq!['\n']),
    ensures
        one_line(s),
{
    assert forall|k: int| 0 <= k < s.len() implies #[trigger] s[k] != '\n' by {
        if s[k] == '\n' {
            assert(s.subrange(k, k + 1) =~= seq!['\n']);
            assert(occurs_at(s, seq!['\n'], k));
        }
    }
}

// ---------------------------------------------------------------------------
// Occurrences in texts put together.
// ---------------------------------------------------------------------------

/// A name occurs in two texts put together only in one or the other, where
/// they do not meet in the middle of a name.
pub proof fn lemma_occurs_in_concat(a: Seq<char>, b: Seq<char>, t: Seq<char>)
    requires
        is_word(t),
        occurs(a + b, t),
        a.len() == 0 || b.len() == 0 || !is_word_char(a.last()) || !is_word_char(b[0]),
    ensures
        occurs(a, t) || occurs(b, t),
{
    let s = a + b;
    let i = choose|i: int| occurs_at(s, t, i);
    if i + t.len() <= a.len() {
        assert(a.subrange(i, i + t.len()) =~= s.subrange(i, i + t.len()));
        assert(occurs_at(a, t, i));
    } else if i >= a.len() {
        assert(b.subrange(i - a.len(), i - a.len() + t.len()) =~= s.subrange(i, i + t.len()));
        assert(occurs_at(b, t, i - a.len()));
    } else {
        let k = a.len() - 1 - i;
        assert(t[k] == s.subrange(i, i + t.len())[k]);
        assert(t[k + 1] == s.subrange(i, i + t.len())[k + 1]);
        assert(s[a.len() - 1] == a.last());
        assert(s[a.len() as int] == b[0]);
        assert(is_word_char(t[k]));
        assert(is_word_char(t[k + 1]));
    }
}

/// What occurs in a text occurs in any text it begins or ends.
pub proof fn lemma_occurs_in_longer(a: Seq<char>, b: Seq<char>, t: Seq<char>)
    requires
        occurs(a, t) || occurs(b, t),
    ensures
        occurs(a + b, t),
{
    let s = a + b;
    if occurs(a, t) {
        let i = choose|i: int| occurs_at(a, t, i);
        assert(s.subrange(i, i + t.len()) =~= a.subrange(i, i + t.len()));
        assert(occurs_at(s, t, i));
    } else {
        let i = choose|i: int| occurs_at(b, t, i);
        assert(s.subrange(i + a.len(), i + a.len() + t.len()) =~= b.subrange(i, i + t.len()));
        assert(occurs_at(s, t, i + a.len()));
    }
}

/// A name does not occur in a text with no name characters.
pub proof fn lemma_no_word_in(p: Seq<char>, t: Seq<char>)
    requires
        is_word(t),
        forall|k: int| 0 <= k < p.len() ==> !is_word_char(#[trigger] p[k]),
    ensures
        !occurs(p, t),
{
    if occurs(p, t) {
        let i = choose|i: int| occurs_at(p, t, i);
        assert(t[0] == p.subrange(i, i + t.len())[0]);
        assert(is_word_char(t[0]));
    }
}

/// A text that ends in a name, once its quotes are doubled, ended in that
/// name before.
proof fn lemma_escaped_suffix(x: Seq<char>, w: Seq<char>)
    requires
        forall|k: int| 0 <= k < w.len() ==> is_word_char(#[trigger] w[k]),
        w.len() <= escaped(x).len(),
        escaped(x).subrange(escaped(x).len() - w.len(), escaped(x).len() as int) == w,
    ensures
        w.len() <= x.len(),
        x.subrange(x.len() - w.len(), x.len() as int) == w,
    decreases x.len(),
{
    if w.len() == 0 {
        assert(x.subrange(x.len() as int, x.len() as int) =~= w);
    } else {
        let e = escaped(x);
        if x.len() == 0 {
            assert(false);
        }
        let xs = x.drop_last();
        let es = escaped(xs);
        let c = x.last();
        assert(w.last() == e.subrange(e.len() - w.len(), e.len() as int)[w.len() - 1]);
        assert(w.last() == e.last());
        assert(is_word_char(w[w.len() - 1]));
        if c == '\'' {
            assert(e.last() == '\'');
            assert(false);
        }
        assert(e == es + seq![c]);
        let ws = w.drop_last();
        assert(es.subrange(es.len() - ws.len(), es.len() as int) =~= e.subrange(
            e.len() - w.len(),
            e.len() as int,
        ).drop_last());
        lemma_escaped_suffix(xs, ws);
        assert(x =~= xs.push(c));
        assert(x.subrange(x.len() - w.len(), x.len() as int) =~= xs.subrange(
            xs.len() - ws.len(),
            xs.len() as int,
        ).push(c));
        assert(w =~= ws.push(w.last()));
    }
}

/// A name occurs in a text with its quotes doubled only where it occurred
/// before: doubling a quote cannot make a name.
pub proof fn lemma_occurs_in_escaped(s: Seq<char>, t: Seq<char>)
    requires
        is_word(t),
        occurs(escaped(s), t),
    ensures
        occurs(s, t),
    decreases s.len(),
{
    if s.len() == 0 {
        let i = choose|i: int| occurs_at(escaped(s), t, i);
        assert(false);
    } else {
        let xs = s.drop_last();
        let c = s.last();
        let es = escaped(xs);
        let piece = if c == '\'' {
            seq!['\'', '\'']
        } else {
            seq![c]
        };
        assert(escaped(s) == es + piece);
        assert(s =~= xs + seq![c]);
        let i = choose|i: int| occurs_at(es + piece, t, i);
        if i + t.len() <= es.len() {
            assert(es.subrange(i, i + t.len()) =~= (es + piece).subrange(i, i + t.len()));
            assert(occurs_at(es, t, i));
            lemma_occurs_in_escaped(xs, t);
            lemma_occurs_in_longer(xs, seq![c], t);
        } else if c == '\'' {
            let k = if i <= es.len() {
                es.len() - i
            } else {
                0
            };
            assert(0 <= k < t.len());
            assert(t[k] == (es + piece).subrange(i, i + t.len())[k]);
            assert((es + piece)[i + k] == piece[i + k - es.len()]);
            assert(t[k] == '\'');
            assert(is_word_char(t[k]));
        } else if i >= es.len() {
            assert(i == es.len());
            assert(t.len() == 1);
            assert(t =~= (es + piece).subrange(i, i + 1));
            assert(s.subrange(xs.len() as int, s.len() as int) =~= t);
            assert(occurs_at(s, t, xs.len() as int));
        } else {
            let w = t.drop_last();
            assert(i + t.len() == es.len() + 1);
            assert(es.subrange(es.len() - w.len(), es.len() as int) =~= (es + piece).subrange(
                i,
                i + t.len(),
            ).drop_last());
            assert forall|k: int| 0 <= k < w.len() implies is_word_char(#[trigger] w[k]) by {
                assert(w[k] == t[k]);
            }
            lemma_escaped_suffix(xs, w);
            let j = xs.len() - w.len();
            assert(t.last() == (es + piece).subrange(i, i + t.len())[t.len() - 1]);
            assert(t.last() == c);
            assert(s.subrange(j, j + t.len()) =~= xs.subrange(j, xs.len() as int).push(c));
            assert(t =~= w.push(t.last()));
            assert(occurs_at(s, t, j));
        }
    }
}

/// A name occurs in a quoted text only where it occurred in the text.
pub proof fn lemma_occurs_in_quoted(s: Seq<char>, t: Seq<char>)
    requires
        is_word(t),
        !occurs(s, t),
    ensures
        !occurs(quoted(s), t),
{
    let q = seq!['\''];
    assert(quoted(s) == q + escaped(s) + q);
    lemma_no_word_in(q, t);
    if occurs(quoted(s), t) {
        lemma_occurs_in_concat(q + escaped(s), q, t);
        if occurs(q + escaped(s), t) {
            lemma_occurs_in_concat(q, escaped(s), t);
            lemma_occurs_in_escaped(s, t);
        }
    }
}

/// A name occurs in a list of quoted names only where it occurred in one of
/// them.
pub proof fn lemma_occurs_in_quoted_list(names: Seq<Seq<char>>, t: Seq<char>)
    requires
        is_word(t),
        forall|k: int| 0 <= k < names.len() ==> !occurs(#[trigger] names[k], t),
    ensures
        !occurs(quoted_list(names), t),
    decreases names.len(),
{
    if names.len() == 1 {
        lemma_occurs_in_quoted(names[0], t);
    } else if names.len() > 1 {
        let rest = names.drop_last();
        assert forall|k: int| 0 <= k < rest.len() implies !occurs(#[trigger] rest[k], t) by {
            assert(rest[k] == names[k]);
        }
        lemma_occurs_in_quoted_list(rest, t);
        lemma_occurs_in_quoted(names.last(), t);
        let sep = ", "@;
        reveal_strlit(", ");
        lemma_no_word_in(sep, t);
        let head = quoted_list(rest);
        let last = quoted(names.last());
        assert(last[0] == '\'');
        if occurs(head + sep + last, t) {
            lemma_occurs_in_concat(head + sep, last, t);
            if occurs(head + sep, t) {
                lemma_occurs_in_concat(head, sep, t);
            }
        }
    } else {
        lemma_no_word_in(quoted_list(names), t);
    }
}

// ---------------------------------------------------------------------------
// Lines.
// ---------------------------------------------------------------------------

proof fn lemma_lines_len(s: Seq<char>)
    ensures
        lines(s).len() >= 1,
    decreases s.len(),
{
    if s.len() > 0 {
        lemma_lines_len(s.drop_last());
    }
}

/// Text without a newline continues the last line.
proof fn lemma_lines_continue(x: Seq<char>, b: Seq<char>)
    requires
        one_line(b),
    ensures
        lines(x).len() >= 1,
        lines(x + b) == lines(x).update(lines(x).len() - 1, lines(x).last() + b),
    decreases b.len(),
{
    lemma_lines_len(x);
    if b.len() == 0 {
        assert(x + b =~= x);
        assert(lines(x).last() + b =~= lines(x).last());
        assert(lines(x).update(lines(x).len() - 1, lines(x).last()) =~= lines(x));
    } else {
        let bs = b.drop_last();
        assert forall|k: int| 0 <= k < bs.len() implies #[trigger] bs[k] != '\n' by {
            assert(bs[k] == b[k]);
        }
        lemma_lines_continue(x, bs);
        assert((x + b).drop_last() =~= x + bs);
        assert((x + b).last() == b[b.len() - 1]);
        lemma_lines_len(x + bs);
        assert(b.last() != '\n');
        let r = lines(x + bs);
        let l = lines(x);
        assert(r.len() == l.len());
        assert(r.last() == l.last() + bs);
        assert(lines(x + b) == r.update(r.len() - 1, r.last().push(b.last())));
        assert((l.last() + bs).push(b.last()) =~= l.last() + b);
        assert(lines(x + b) =~= l.update(l.len() - 1, l.last() + b));
    }
}

/// Lines joined by newlines are cut back into the same lines.
pub proof fn lemma_lines_of_joined(ls: Seq<Seq<char>>)
    requires
        ls.len() >= 1,
        forall|k: int| 0 <= k < ls.len() ==> one_line(#[trigger] ls[k]),
    ensures
        lines(join_lines(ls)) == ls,
    decreases ls.len(),
{
    if ls.len() == 1 {
        lemma_lines_continue(Seq::empty(), ls[0]);
        assert(Seq::<char>::empty() + ls[0] =~= ls[0]);
        assert(lines(Seq::<char>::empty()).update(0, Seq::<char>::empty() + ls[0]) =~= ls);
    } else {
        let rest = ls.drop_last();
        assert forall|k: int| 0 <= k < rest.len() implies one_line(#[trigger] rest[k]) by {
            assert(rest[k] == ls[k]);
        }
        lemma_lines_of_joined(rest);
        let j = join_lines(rest) + seq!['\n'];
        assert(j.drop_last() =~= join_lines(rest));
        assert(lines(j) == rest.push(Seq::empty()));
        assert(one_line(ls[ls.len() - 1]));
        lemma_lines_continue(j, ls.last());
        assert(Seq::<char>::empty() + ls.last() =~= ls.last());
        assert(rest.push(Seq::empty()).update(rest.len() as int, ls.last()) =~= ls);
    }
}


/// A newline between two texts puts the lines of the second after those of
/// the first.
pub proof fn lemma_lines_newline_join(a: Seq<char>, b: Seq<char>)
    ensures
        lines(a + seq!['\n'] + b) == lines(a) + lines(b),
    decreases b.len(),
{
    let s = a + seq!['\n'] + b;
    if b.len() == 0 {
        assert(s.drop_last() =~= a);
        assert(s.last() == '\n');
        assert(lines(b) =~= seq![Seq::<char>::empty()]);
        assert(lines(s) =~= lines(a) + lines(b));
    } else {
        let bs = b.drop_last();
        let c = b.last();
        lemma_lines_newline_join(a, bs);
        lemma_lines_len(bs);
        lemma_lines_len(a);
        assert(s.drop_last() =~= a + seq!['\n'] + bs);
        assert(s.last() == c);
        let x = lines(a);
        let y = lines(bs);
        if c == '\n' {
            assert(lines(s) == (x + y).push(Seq::empty()));
            assert(lines(b) == y.push(Seq::empty()));
            assert(lines(s) =~= x + lines(b));
        } else {
            let r = x + y;
            assert(lines(s) == r.update(r.len() - 1, r.last().push(c)));
            assert(lines(b) == y.update(y.len() - 1, y.last().push(c)));
            assert(r.last() == y.last());
            assert(lines(s) =~= x + lines(b));
        }
    }
}

/// Lines joined in two runs are the two joined texts on either side of a
/// newline.
pub proof fn lemma_join_concat(a: Seq<Seq<char>>, b: Seq<Seq<char>>)
    requires
        a.len() >= 1,
        b.len() >= 1,
    ensures
        join_lines(a + b) == join_lines(a) + seq!['\n'] + join_lines(b),
    decreases b.len(),
{
    assert((a + b).drop_last() =~= a + b.drop_last());
    assert((a + b).last() == b.last());
    if b.len() == 1 {
        assert(a + b.drop_last() =~= a);
        assert(b.last() == b[0]);
    } else {
        lemma_join_concat(a, b.drop_last());
        assert(join_lines(a + b) =~= join_lines(a) + seq!['\n'] + join_lines(b));
    }
}

/// The last line of a text is where the text ends.
proof fn lemma_last_line_ends_text(s: Seq<char>)
    ensures
        lines(s).len() >= 1,
        lines(s).last().len() <= s.len(),
        lines(s).last() == s.subrange(s.len() - lines(s).last().len(), s.len() as int),
    decreases s.len(),
{
    lemma_lines_len(s);
    if s.len() == 0 {
        assert(lines(s).last() =~= s.subrange(0, 0));
    } else {
        let xs = s.drop_last();
        lemma_last_line_ends_text(xs);
        lemma_lines_len(xs);
        let r = lines(xs);
        if s.last() == '\n' {
            assert(lines(s).last() =~= s.subrange(s.len() as int, s.len() as int));
        } else {
            assert(lines(s).last() == r.last().push(s.last()));
            assert(lines(s).last() =~= s.subrange(
                s.len() - lines(s).last().len(),
                s.len() as int,
            ));
        }
    }
}

/// What occurs in a line of a text occurs in the text.
pub proof fn lemma_line_in_text(s: Seq<char>, k: int, t: Seq<char>)
    requires
        0 <= k < lines(s).len(),
        occurs(lines(s)[k], t),
    ensures
        occurs(s, t),
    decreases s.len(),
{
    let line = lines(s)[k];
    let i = choose|i: int| occurs_at(line, t, i);
    if t.len() == 0 {
        assert(s.subrange(0, 0) =~= t);
        assert(occurs_at(s, t, 0));
    } else if s.len() > 0 {
        let xs = s.drop_last();
        let r = lines(xs);
        lemma_lines_len(xs);
        lemma_last_line_ends_text(s);
        assert(s =~= xs + seq![s.last()]);
        if k < r.len() - 1 || (s.last() == '\n' && k < r.len()) {
            assert(line == r[k]);
            lemma_line_in_text(xs, k, t);
            lemma_occurs_in_longer(xs, seq![s.last()], t);
        } else if s.last() == '\n' {
            assert(line.len() == 0);
        } else {
            assert(k == lines(s).len() - 1);
            let b = s.len() - line.len();
            assert(s.subrange(b + i, b + i + t.len()) =~= line.subrange(i, i + t.len()));
            assert(occurs_at(s, t, b + i));
        }
    } else {
        assert(line.len() == 0);
    }
}

} // verus!
