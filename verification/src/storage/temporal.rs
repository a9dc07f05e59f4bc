//! Calendar-date conversions. A date is a count of days since 1970-01-01; the calendar itself
//! is `chrono`'s.

use vstd::prelude::*;

use crate::storage::text::{push_str, string_from_chars};

verus! {

/// The number of 1970-01-01 in the count of days that has 0001-01-01 as day one.
pub const EPOCH_FROM_CE: i32 = 719_163;

/// The earliest date the calendar knows, -262143-01-01, in days since 1970-01-01.
pub const FIRST_DATE: i32 = -96_465_292;

/// The latest date the calendar knows, 262142-12-31, in days since 1970-01-01.
pub const LAST_DATE: i32 = 95_026_236;

/// The day, counted from 0001-01-01 as day one, that a `YYYY-MM-DD` text names: what
/// `str::parse::<NaiveDate>` and `num_days_from_ce` return.
pub uninterp spec fn day_parsed(s: Seq<char>) -> Option<i32>;

/// The text of a day counted from 0001-01-01 as day one: what
/// `NaiveDate::from_num_days_from_ce_opt` and `to_string` return.
pub uninterp spec fn day_text(day: i32) -> Seq<char>;

/// A text in quotes, with its special characters escaped: what `{:?}` prints of a `str`.
pub uninterp spec fn quoted(s: Seq<char>) -> Seq<char>;

/// `str::parse::<NaiveDate>`, named [`day_parsed`]. Every date is in the calendar's range.
#[verifier::external_body]
fn parse_day(s: &str) -> (r: Option<i32>)
    ensures
        r == day_parsed(s@),
        r is Some ==> FIRST_DATE + EPOCH_FROM_CE <= r->0 <= LAST_DATE + EPOCH_FROM_CE,
{
    match s.parse::<chrono::NaiveDate>() {
        Ok(d) => Some(chrono::Datelike::num_days_from_ce(&d)),
        Err(_) => None,
    }
}

/// `NaiveDate::from_num_days_from_ce_opt`, then `to_string`, named [`day_text`]. The text
/// parses back to the day.
#[verifier::external_body]
fn show_day(day: i32) -> (r: String)
    requires
        FIRST_DATE + EPOCH_FROM_CE <= day <= LAST_DATE + EPOCH_FROM_CE,
    ensures
        r@ == day_text(day),
        day_parsed(r@) == Some(day),
{
    chrono::NaiveDate::from_num_days_from_ce_opt(day).unwrap().to_string()
}

/// The formatting of a `str` with `{:?}`, named [`quoted`].
#[verifier::external_body]
pub(crate) fn quote(s: &str) -> (r: String)
    ensures
        r@ == quoted(s@),
{
    format!("{:?}", s)
}

/// The days since 1970-01-01 of the date that a text names.
pub open spec fn date_parsed(s: Seq<char>) -> Option<int> {
    match day_parsed(s) {
        Some(day) => Some(day - EPOCH_FROM_CE),
        None => None,
    }
}

/// The text of a date.
pub open spec fn date_text(days: int) -> Seq<char> {
    day_text((days + EPOCH_FROM_CE) as i32)
}

/// Whether the calendar has a date `days` after 1970-01-01.
pub open spec fn in_calendar(days: int) -> bool {
    FIRST_DATE <= days <= LAST_DATE
}

/// What a text that names no date is answered.
pub open spec fn date_complaint(s: Seq<char>) -> Seq<char> {
    "invalid DATE literal: "@ + quoted(s)
}

/// Parse a `DATE` body, `YYYY-MM-DD`, into days since 1970-01-01.
pub fn parse_date(s: &str) -> (r: Result<i32, String>)
    ensures
        r is Ok <==> date_parsed(s@) is Some,
        r is Ok ==> r->Ok_0 == date_parsed(s@)->0 && in_calendar(r->Ok_0 as int),
        r is Err ==> r->Err_0@ == date_complaint(s@),
{
    match parse_day(s) {
        Some(day) => Ok(day - EPOCH_FROM_CE),
        None => {
            let mut msg: Vec<char> = Vec::new();
            push_str(&mut msg, "invalid DATE literal: ");
            let q = quote(s);
            push_str(&mut msg, q.as_str());
            assert(msg@ =~= date_complaint(s@));
            Err(string_from_chars(&msg))
        },
    }
}

/// Render a day count as `YYYY-MM-DD`. Reading the text back gives the day count.
pub fn format_date(days: i32) -> (r: String)
    requires
        in_calendar(days as int),
    ensures
        r@ == date_text(days as int),
        date_parsed(r@) == Some(days as int),
{
    show_day(days + EPOCH_FROM_CE)
}

} // verus!
