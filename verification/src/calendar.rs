//! Calendar dates and UTC time, as `chrono` computes them.

use vstd::prelude::*;

verus! {

/// The failure that `chrono` reports for a text it cannot read as a date.
#[verifier::external_type_specification]
#[verifier::external_body]
pub struct ExParseError(chrono::ParseError);

/// The number of the day that a text of the form `YYYY-MM-DD` denotes, counted in the proleptic
/// Gregorian calendar with 1 January of year 1 as day 1; `None` for a text that `chrono` does
/// not accept as such a date. Two dates are consecutive calendar days exactly if their
/// numbers differ by one.
pub uninterp spec fn day_number_of(text: Seq<char>) -> Option<i32>;

/// The text `YYYY-MM-DD` of the UTC date on which the instant lies that is `seconds` seconds
/// away from the start of 1970; `None` for an instant outside the years that `chrono` covers.
pub uninterp spec fn utc_date_text(seconds: int) -> Option<Seq<char>>;

/// The text `YYYY-MM-DD HH:MM:SS` of the UTC date and time of the instant that is `seconds`
/// seconds away from the start of 1970; `None` for an instant outside the years that `chrono`
/// covers.
pub uninterp spec fn utc_timestamp_text(seconds: int) -> Option<Seq<char>>;

/// Reads a `YYYY-MM-DD` text with `chrono::NaiveDate::parse_from_str` and hands back the day
/// number of the date (`Datelike::num_days_from_ce`), or `chrono`'s failure unchanged. The
/// contract only names the outcome: it is a function of the text alone.
#[verifier::external_body]
fn parse_day_number(text: &str) -> (r: Result<i32, chrono::ParseError>)
    ensures
        r is Ok ==> day_number_of(text@) == Some(r->Ok_0),
        r is Err ==> day_number_of(text@) is None,
{
    match chrono::NaiveDate::parse_from_str(text, "%Y-%m-%d") {
        Ok(date) => Ok(chrono::Datelike::num_days_from_ce(&date)),
        Err(e) => Err(e),
    }
}

/// Writes the UTC date of an instant with `chrono::DateTime::from_timestamp` and
/// `DateTime::format`. The contract only names the outcome: it is a function of the number of
/// seconds alone.
#[verifier::external_body]
fn format_utc_date(seconds: i64) -> (r: Option<String>)
    ensures
        r.deep_view() == utc_date_text(seconds as int),
{
    match chrono::DateTime::from_timestamp(seconds, 0) {
        Some(instant) => Some(instant.format("%Y-%m-%d").to_string()),
        None => None,
    }
}

/// Writes the UTC date and time of an instant with `chrono::DateTime::from_timestamp` and
/// `DateTime::format`. The contract only names the outcome: it is a function of the number of
/// seconds alone.
#[verifier::external_body]
fn format_utc_timestamp(seconds: i64) -> (r: Option<String>)
    ensures
        r.deep_view() == utc_timestamp_text(seconds as int),
{
    match chrono::DateTime::from_timestamp(seconds, 0) {
        Some(instant) => Some(instant.format("%Y-%m-%d %H:%M:%S").to_string()),
        None => None,
    }
}

/// Why a text is no date.
#[derive(Debug)]
pub struct DateError {
    /// The reason, in the words of `chrono`.
    pub reason: String,
}

/// The day number of a `YYYY-MM-DD` text, or the reason why the text is no date.
pub fn day_number(text: &str) -> (r: Result<i32, DateError>)
    ensures
        r is Ok ==> day_number_of(text@) == Some(r->Ok_0),
        r is Err ==> day_number_of(text@) is None,
{
    match parse_day_number(text) {
        Ok(n) => Ok(n),
        Err(e) => Err(DateError { reason: e.to_string() }),
    }
}

/// The date that lies `days` days before the UTC date of an instant, where both exist.
pub open spec fn date_before(seconds: int, days: int) -> Option<Seq<char>> {
    if seconds - days * 86400 >= i64::MIN {
        utc_date_text(seconds - days * 86400)
    } else {
        None
    }
}

/// The UTC date that lies `days` days before that of an instant.
pub fn utc_date_days_before(seconds: i64, days: u16) -> (r: Option<String>)
    ensures
        r.deep_view() == date_before(seconds as int, days as int),
{
    let span: i64 = 86400 * (days as i64);
    if seconds >= i64::MIN + span {
        format_utc_date(seconds - span)
    } else {
        None
    }
}

/// A moment as the engine sees it: the texts of the UTC date and time, of the dates of the
/// day and of the day before, and of the date 365 days before.
#[derive(Debug)]
pub struct Moment {
    pub timestamp: String,
    pub today: String,
    pub yesterday: String,
    pub year_ago: String,
}

/// What a `Moment` holds, as plain values.
pub struct MomentView {
    pub timestamp: Seq<char>,
    pub today: Seq<char>,
    pub yesterday: Seq<char>,
    pub year_ago: Seq<char>,
}

impl DeepView for Moment {
    type V = MomentView;

    open spec fn deep_view(&self) -> MomentView {
        MomentView {
            timestamp: self.timestamp@,
            today: self.today@,
            yesterday: self.yesterday@,
            year_ago: self.year_ago@,
        }
    }
}

impl Clone for Moment {
    fn clone(&self) -> (r: Self)
        ensures
            r == *self,
    {
        Moment {
            timestamp: self.timestamp.clone(),
            today: self.today.clone(),
            yesterday: self.yesterday.clone(),
            year_ago: self.year_ago.clone(),
        }
    }
}

/// The moment that lies `seconds` seconds away from the start of 1970, where all its
/// dates exist.
pub open spec fn moment_at(seconds: int) -> Option<MomentView> {
    if utc_timestamp_text(seconds) is Some && utc_date_text(seconds) is Some && date_before(
        seconds,
        1,
    ) is Some && date_before(seconds, 365) is Some {
        Some(
            MomentView {
                timestamp: utc_timestamp_text(seconds)->0,
                today: utc_date_text(seconds)->0,
                yesterday: date_before(seconds, 1)->0,
                year_ago: date_before(seconds, 365)->0,
            },
        )
    } else {
        None
    }
}

impl Moment {
    /// The moment that lies `seconds` seconds away from the start of 1970.
    pub fn at(seconds: i64) -> (r: Option<Moment>)
        ensures
            r.deep_view() == moment_at(seconds as int),
    {
        let timestamp = match format_utc_timestamp(seconds) {
            Some(text) => text,
            None => {
                return None;
            },
        };
        let today = match format_utc_date(seconds) {
            Some(text) => text,
            None => {
                return None;
            },
        };
        let yesterday = match utc_date_days_before(seconds, 1) {
            Some(text) => text,
            None => {
                return None;
            },
        };
        let year_ago = match utc_date_days_before(seconds, 365) {
            Some(text) => text,
            None => {
                return None;
            },
        };
        Some(Moment { timestamp, today, yesterday, year_ago })
    }
}

} // verus!
