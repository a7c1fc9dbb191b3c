//! Calendar dates as a task line holds them: `2019-11-01`.

use crate::decimal::{push_zero_padded, zero_padded};
use crate::text::string_of;
use vstd::prelude::*;

verus! {

/// A day of the calendar, given by its three numbers.
#[derive(Clone, Copy, Debug, PartialEq, Eq, Structural)]
pub struct Date {
    pub year: i16,
    pub month: u8,
    pub day: u8,
}

/// The date that a word of a task line denotes, if it denotes one. Which
/// words do is decided by the `gregorian` crate's reading of dates.
pub uninterp spec fn date_of(text: Seq<char>) -> Option<Date>;

/// Calls `gregorian::Date::from_str` on `text`. The outcome depends on the
/// text alone; this takes it as what `text` denotes, and hands a date out
/// by its year, month and day numbers.
#[verifier::external_body]
fn parse_date(text: &str) -> (r: Option<Date>)
    ensures
        r == date_of(text@),
{
    match text.parse::<gregorian::Date>() {
        Ok(d) => Some(Date { year: d.year().to_number(), month: d.month().to_number(), day: d.day() }),
        Err(_) => None,
    }
}

/// Calls `gregorian::Date::today`, which asks the system for the current
/// day in the local time zone, and stops the program where the system
/// cannot tell. Nothing is claimed of the answer.
#[verifier::external_body]
fn current_date() -> (r: Date) {
    let d = gregorian::Date::today();
    Date { year: d.year().to_number(), month: d.month().to_number(), day: d.day() }
}

/// The decimal notation of `n` at least `width` characters wide, the sign of
/// a negative number counted in and put before the zeros.
pub open spec fn signed_zero_padded(n: int, width: nat) -> Seq<char> {
    if n < 0 {
        seq!['-'] + zero_padded((-n) as nat, (width - 1) as nat)
    } else {
        zero_padded(n as nat, width)
    }
}

impl Date {
    /// The first day of 1970, which stands in for an unknown creation date.
    pub open spec fn epoch() -> Date {
        Date { year: 1970, month: 1, day: 1 }
    }

    /// The date as a task line holds it: the year in four digits or more,
    /// month and day in two, with `-` between them.
    pub open spec fn text(self) -> Seq<char> {
        signed_zero_padded(self.year as int, 4) + seq!['-'] + zero_padded(self.month as nat, 2)
            + seq!['-'] + zero_padded(self.day as nat, 2)
    }

    /// The first day of 1970.
    pub fn unix_epoch() -> (d: Date)
        ensures
            d == Date::epoch(),
    {
        Date { year: 1970, month: 1, day: 1 }
    }

    /// The current day in the local time zone, as the system tells it.
    pub fn today() -> Date {
        current_date()
    }

    /// Reads a date from a word of a task line.
    pub fn from_str(s: &str) -> (r: Option<Date>)
        ensures
            r == date_of(s@),
    {
        parse_date(s)
    }

    /// Reads a date from the characters of a word.
    pub fn from_chars(s: &Vec<char>) -> (r: Option<Date>)
        ensures
            r == date_of(s@),
    {
        let word = string_of(s);
        parse_date(word.as_str())
    }

    /// Appends the date to `out` as a task line holds it.
    pub fn push_to(&self, out: &mut Vec<char>)
        ensures
            final(out)@ == old(out)@ + self.text(),
    {
        if self.year < 0 {
            out.push('-');
            push_zero_padded(out, (-(self.year as i32)) as u128, 3);
        } else {
            push_zero_padded(out, self.year as u128, 4);
        }
        out.push('-');
        push_zero_padded(out, self.month as u128, 2);
        out.push('-');
        push_zero_padded(out, self.day as u128, 2);
        proof {
            assert(final(out)@ =~= old(out)@ + self.text());
        }
    }

    /// The date as a task line holds it.
    pub fn to_string(&self) -> (s: String)
        ensures
            s@ == self.text(),
    {
        let mut chars: Vec<char> = Vec::new();
        self.push_to(&mut chars);
        string_of(&chars)
    }
}

} // verus!
