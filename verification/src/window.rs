//! The day a digest covers.

use vstd::prelude::*;
use vstd::utf8::encode_utf8;

use crate::text::push_str;
use crate::time::{
    civil_from_days, civil_of, date_of, date_of_bytes, date_text, is_date, law_date_round_trip,
    law_days_round_trip, law_next_day, next_date,
};

verus! {

/// The days since the epoch that a `YYYY-MM-DD` text names, if it names one.
pub open spec fn days_named(text: Seq<char>) -> Option<int> {
    date_of_bytes(encode_utf8(text))
}

/// Midnight at the start of the day a window's date names.
pub open spec fn window_from(text: Seq<char>) -> Seq<char> {
    text + " 00:00:00"@
}

/// Midnight at the start of the day after.
pub open spec fn window_to(text: Seq<char>) -> Seq<char> {
    date_text(civil_of(days_named(text)->Some_0 + 1)) + " 00:00:00"@
}

/// A text a window can be made of: a date, and exactly ten bytes of it.
pub open spec fn is_window_date(text: Seq<char>) -> bool {
    days_named(text) is Some && encode_utf8(text).len() == 10
}

/// One day, as both the interval a digest record names and the bounds a query
/// filters on.
///
/// What day it is, is not decided here. A window is told which day it covers
/// and everything downstream reads that field, which is what keeps the
/// planner's inputs free of a clock.
#[derive(Debug, PartialEq, Eq)]
pub struct Window {
    date: String,
    days: i64,
}

/// A text that is not a `YYYY-MM-DD` date.
#[derive(Debug, Clone, PartialEq, Eq)]
pub struct NotADate(pub String);

impl View for Window {
    type V = Seq<char>;

    /// The date the window covers, as it was written.
    closed spec fn view(&self) -> Seq<char> {
        self.date@
    }
}

impl Window {
    #[verifier::type_invariant]
    spec fn well_formed(self) -> bool {
        &&& is_window_date(self.date@)
        &&& days_named(self.date@) == Some(self.days as int)
        &&& -10_000_000 <= self.days <= 10_000_000
    }

    /// From `YYYY-MM-DD`.
    pub fn parse(date: &str) -> (res: Result<Window, NotADate>)
        ensures
            match res {
                Ok(w) => is_window_date(date@) && w@ == date@,
                Err(e) => !is_window_date(date@) && e.0@ == date@,
            },
    {
        let days = match date_of(date) {
            Some(d) => d,
            None => return Err(NotADate(date.to_string())),
        };
        if date.as_bytes().len() != 10 {
            return Err(NotADate(date.to_string()));
        }
        Ok(Window { date: date.to_string(), days })
    }

    /// The date, as it was written.
    pub fn date(&self) -> (res: &str)
        ensures
            res@ == self@,
            is_window_date(res@),
    {
        proof {
            use_type_invariant(self);
        }
        self.date.as_str()
    }

    /// The ISO 8601 interval a record carries, e.g. `2026-08-23/P1D`.
    pub fn interval(&self) -> (res: String)
        ensures
            res@ == self@ + "/P1D"@,
    {
        let mut out = self.date.clone();
        push_str(&mut out, "/P1D");
        out
    }

    /// The half-open bounds to filter on, as a datetime is spelled in SQL:
    /// midnight at the start of this day, and midnight at the start of the
    /// next.
    pub fn bounds(&self) -> (res: (String, String))
        ensures
            res.0@ == window_from(self@),
            res.1@ == window_to(self@),
    {
        proof {
            use_type_invariant(self);
        }
        let mut from = self.date.clone();
        push_str(&mut from, " 00:00:00");
        let mut to = civil_from_days(self.days + 1);
        push_str(&mut to, " 00:00:00");
        (from, to)
    }
}

impl Window {
    /// The window for the day before this one, if that day can be written as
    /// a window: one before year zero cannot.
    ///
    /// Reading the clock for today is the command line's business; which day
    /// came before it is not.
    pub fn day_before(&self) -> (res: Result<Window, NotADate>)
        ensures
            ({
                let text = date_text(civil_of(days_named(self@)->Some_0 - 1));
                match res {
                    Ok(w) => is_window_date(text) && w@ == text,
                    Err(e) => !is_window_date(text) && e.0@ == text,
                }
            }),
    {
        proof {
            use_type_invariant(self);
        }
        let text = civil_from_days(self.days - 1);
        Window::parse(text.as_str())
    }
}

impl Clone for Window {
    fn clone(&self) -> (res: Self)
        ensures
            res@ == self@,
    {
        proof {
            use_type_invariant(self);
        }
        Window { date: self.date.clone(), days: self.days }
    }
}

/// A window ends where the next calendar day starts: the upper bound is the
/// day after the window's own date.
pub proof fn law_a_window_ends_at_the_next_day(days: int)
    ensures
        civil_of(days + 1) == next_date(civil_of(days).0, civil_of(days).1, civil_of(days).2),
{
    law_days_round_trip(days);
    let (y, m, d) = civil_of(days);
    law_next_day(y, m, d);
    let (y2, m2, d2) = next_date(y, m, d);
    assert(is_date(y2, m2, d2));
    law_date_round_trip(y2, m2, d2);
}

/// A window, from a date given on the command line.
pub fn parse(date: &str) -> (res: Result<Window, NotADate>)
    ensures
        match res {
            Ok(w) => is_window_date(date@) && w@ == date@,
            Err(e) => !is_window_date(date@) && e.0@ == date@,
        },
{
    Window::parse(date)
}

} // verus!
