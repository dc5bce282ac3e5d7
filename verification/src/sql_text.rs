//! The pieces SQL text is made of: quoted names and lists of them.

use vstd::prelude::*;

use crate::text::{chars_of, push_char, push_str};

verus! {

/// The characters of each string in a list.
pub open spec fn strings_view(v: Seq<String>) -> Seq<Seq<char>> {
    v.map_values(|s: String| s@)
}

/// `s` with every single quote doubled.
pub open spec fn escaped(s: Seq<char>) -> Seq<char>
    decreases s.len(),
{
    if s.len() == 0 {
        Seq::empty()
    } else {
        escaped(s.drop_last()) + (if s.last() == '\'' {
            seq!['\'', '\'']
        } else {
            seq![s.last()]
        })
    }
}

/// `s` single-quoted for SQL, with the quotes inside it doubled, so that no
/// value can close the quote it is in.
pub open spec fn quoted(s: Seq<char>) -> Seq<char> {
    seq!['\''] + escaped(s) + seq!['\'']
}

/// Each name quoted, separated by `, `.
pub open spec fn quoted_list(names: Seq<Seq<char>>) -> Seq<char>
    decreases names.len(),
{
    if names.len() == 0 {
        Seq::empty()
    } else if names.len() == 1 {
        quoted(names[0])
    } else {
        quoted_list(names.drop_last()) + ", "@ + quoted(names.last())
    }
}

/// The line of the filter on the index that restricts a query to the named
/// services. Where none are named there is no such line, which reads them
/// all.
pub open spec fn service_filter_line(names: Seq<Seq<char>>) -> Seq<char> {
    "  AND index1 IN ("@ + quoted_list(names) + ")"@
}

/// Appends `value`, single-quoted for SQL, with quotes doubled.
pub fn push_quoted(out: &mut String, value: &str)
    ensures
        final(out)@ == old(out)@ + quoted(value@),
{
    let ghost start = out@;
    let chars = chars_of(value);
    push_char(out, '\'');
    let mut i: usize = 0;
    while i < chars.len()
        invariant
            i <= chars@.len(),
            chars@ == value@,
            out@ == start + seq!['\''] + escaped(chars@.take(i as int)),
        decreases chars.len() - i,
    {
        let c = chars[i];
        if c == '\'' {
            push_char(out, '\'');
            push_char(out, '\'');
        } else {
            push_char(out, c);
        }
        proof {
            assert(chars@.take(i + 1).drop_last() =~= chars@.take(i as int));
            assert(out@ =~= start + seq!['\''] + escaped(chars@.take(i + 1)));
        }
        i = i + 1;
    }
    push_char(out, '\'');
    proof {
        assert(chars@.take(i as int) =~= value@);
        assert(out@ =~= start + quoted(value@));
    }
}

/// Single-quoted for SQL, with quotes doubled.
///
/// Service names come from a config file rather than from a request, but a
/// string interpolated into SQL is a string interpolated into SQL.
pub fn quote(value: &str) -> (res: String)
    ensures
        res@ == quoted(value@),
{
    let mut out = String::new();
    push_quoted(&mut out, value);
    proof {
        assert(out@ =~= quoted(value@));
    }
    out
}

/// Appends the filter that restricts a query to `services`.
pub fn push_service_filter(out: &mut String, services: &Vec<String>)
    requires
        services@.len() > 0,
    ensures
        final(out)@ == old(out)@ + service_filter_line(strings_view(services@)),
{
    let ghost start = out@;
    let ghost names = strings_view(services@);
    push_str(out, "  AND index1 IN (");
    let ghost opened = out@;
    let mut i: usize = 0;
    while i < services.len()
        invariant
            i <= services@.len(),
            names == strings_view(services@),
            out@ == opened + quoted_list(names.take(i as int)),
        decreases services.len() - i,
    {
        if i > 0 {
            push_str(out, ", ");
        }
        push_quoted(out, services[i].as_str());
        proof {
            let t = names.take(i + 1);
            assert(t.drop_last() =~= names.take(i as int));
            assert(t.last() == services@[i as int]@);
            assert(out@ =~= opened + quoted_list(t));
        }
        i = i + 1;
    }
    push_str(out, ")");
    proof {
        assert(names.take(i as int) =~= names);
        assert(out@ =~= start + service_filter_line(names));
    }
}

} // verus!
