//! Telling the people who merge a change what it will cost.

use vstd::prelude::*;

use crate::invalidation::{Axis, InvalidationEvent};
use crate::text::{dec_text, padded, push_decimal, push_padded, push_str};

verus! {

/// The marker that lets a second run find its own comment instead of adding
/// another one under it.
pub const MARKER: &'static str = "<!-- okibi:plan -->";

/// Whether a plan can be run in place, within the time a job may last.
///
/// A plan longer than that still runs, handed to an executor that has no such
/// limit; what this settles is whether running in place is available at all.
#[derive(Debug, Clone, Copy, PartialEq, Eq, Structural)]
pub enum Length {
    FitsInAJob,
    LongerThanAJob,
}

/// The name of an axis, as a reader is told which epoch moved.
pub open spec fn axis_text(axis: Axis) -> Seq<char> {
    match axis {
        Axis::Source => "source"@,
        Axis::Algo => "algo"@,
        Axis::Param => "param"@,
    }
}

/// Which epoch an event says moved.
pub fn axis(event: &InvalidationEvent) -> (res: &'static str)
    ensures
        res@ == axis_text(event.axis),
{
    match event.axis {
        Axis::Source => "source",
        Axis::Algo => "algo",
        Axis::Param => "param",
    }
}

/// A whole number of seconds as a person reads a duration: seconds alone
/// under a minute, minutes alone under an hour, and hours with two-digit
/// minutes beyond that. What is left over below the unit shown is dropped.
pub open spec fn duration_spec(seconds: nat) -> Seq<char> {
    let hours = seconds / 3600;
    let minutes = (seconds % 3600) / 60;
    if hours == 0 && minutes == 0 {
        dec_text(seconds % 60) + "s"@
    } else if hours == 0 {
        dec_text(minutes) + "m"@
    } else {
        dec_text(hours) + "h"@ + padded(minutes as int, 2) + "m"@
    }
}

/// A whole number of seconds as a person reads a duration, e.g. `2h27m`.
pub fn duration_text(seconds: u64) -> (res: String)
    ensures
        res@ == duration_spec(seconds as nat),
{
    let hours = seconds / 3600;
    let minutes = (seconds % 3600) / 60;
    let mut out = String::new();
    if hours == 0 && minutes == 0 {
        push_decimal(&mut out, seconds % 60);
        push_str(&mut out, "s");
    } else if hours == 0 {
        push_decimal(&mut out, minutes);
        push_str(&mut out, "m");
    } else {
        push_decimal(&mut out, hours);
        push_str(&mut out, "h");
        push_padded(&mut out, minutes as i64, 2);
        push_str(&mut out, "m");
    }
    out
}

/// Digits with a comma before every group of three counted from the right,
/// as a person reads a large number: `4210` as `4,210`.
pub open spec fn grouped(digits: Seq<char>) -> Seq<char>
    decreases digits.len(),
{
    if digits.len() == 0 {
        Seq::empty()
    } else {
        let rest = digits.drop_first();
        if rest.len() > 0 && rest.len() % 3 == 0 {
            seq![digits[0], ',']  + grouped(rest)
        } else {
            seq![digits[0]] + grouped(rest)
        }
    }
}

/// Puts the thousands commas into a run of digits.
pub fn group_thousands(digits: &str) -> (res: String)
    ensures
        res@ == grouped(digits@),
{
    let chars = crate::text::chars_of(digits);
    let n = chars.len();
    let mut out = String::new();
    let mut i: usize = 0;
    proof {
        assert(chars@.skip(0) =~= chars@);
        assert(out@ + grouped(chars@) =~= grouped(chars@));
    }
    while i < n
        invariant
            i <= n == chars@.len(),
            chars@ == digits@,
            out@ + grouped(chars@.skip(i as int)) == grouped(digits@),
        decreases n - i,
    {
        let ghost rest = chars@.skip(i as int);
        proof {
            assert(rest.drop_first() =~= chars@.skip(i + 1));
            assert(rest[0] == chars@[i as int]);
        }
        crate::text::push_char(&mut out, chars[i]);
        let left = n - i - 1;
        if left > 0 && left % 3 == 0 {
            crate::text::push_char(&mut out, ',');
        }
        i = i + 1;
        proof {
            assert(out@ + grouped(chars@.skip(i as int)) =~= grouped(digits@));
        }
    }
    proof {
        assert(chars@.skip(i as int) =~= Seq::<char>::empty());
        assert(out@ + grouped(chars@.skip(i as int)) =~= out@);
    }
    out
}

} // verus!
