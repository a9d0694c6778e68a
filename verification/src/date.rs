//! Calendar dates as plain values.
//!
//! A record's last-modified timestamp enters the library already broken into
//! year, month and day; the naming formatter only ever reads the date through
//! its fixed `YYYY-MM-DD` rendering, which is specified here.

use vstd::prelude::*;

use crate::nums::padded_digits;
use crate::nums::padded_u64;

verus! {

/// A calendar date, held as plain numbers.
///
/// The host hands dates in already split into fields; the library never
/// consults a clock. A well-formed date keeps each field in calendar range.
#[derive(Clone, Copy, PartialEq, Eq, Structural, Debug)]
pub struct Date {
    pub year: u32,
    pub month: u32,
    pub day: u32,
}

impl Date {
    /// A date whose fields lie in calendar range and whose year renders in
    /// the fixed four-digit field.
    pub open spec fn wf(self) -> bool {
        &&& self.year <= 9999
        &&& 1 <= self.month <= 12
        &&& 1 <= self.day <= 31
    }
}

/// The fixed `YYYY-MM-DD` rendering of a date: year, month and day in
/// decimal, zero-padded to four, two and two digits, joined by dashes.
pub open spec fn date_chars(d: Date) -> Seq<char> {
    padded_digits(d.year as nat, 4) + seq!['-'] + padded_digits(d.month as nat, 2) + seq!['-']
        + padded_digits(d.day as nat, 2)
}

/// Renders a date in the fixed `YYYY-MM-DD` calendar format.
pub fn format_date(d: &Date) -> (s: String)
    ensures
        s@ == date_chars(*d),
{
    let mut s = padded_u64(d.year as u64, 4);
    s.append("-");
    let m = padded_u64(d.month as u64, 2);
    s.append(m.as_str());
    s.append("-");
    let day = padded_u64(d.day as u64, 2);
    s.append(day.as_str());
    proof {
        reveal_strlit("-");
        assert(s@ =~= date_chars(*d));
    }
    s
}

} // verus!
