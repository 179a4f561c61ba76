//! Command-line arguments of the slippage verification command and the
//! parsing of their dates.
use vstd::prelude::*;

verus! {

/// How the verification report is written.
#[derive(Debug, Clone, Copy, PartialEq, Eq)]
pub enum OutputFormat {
    Text,
    Json,
}

/// Arguments of the verification command: the analysed date range
/// (`YYYY-MM-DD`) and the report format.
#[derive(Debug, Clone)]
pub struct VerifyArgs {
    pub start_date: String,
    pub end_date: String,
    pub format: OutputFormat,
}

/// A calendar date as parsed from the command line.
#[derive(Debug, Clone, Copy, PartialEq, Eq)]
pub struct CalendarDate {
    pub year: i32,
    pub month: u32,
    pub day: u32,
}

/// A date argument that could not be parsed: which argument, and its text.
#[derive(Debug, Clone)]
pub struct DateError {
    pub label: String,
    pub input: String,
}

/// Why a date range was refused.
#[derive(Debug, Clone)]
pub enum DateRangeError {
    /// One of the two dates could not be parsed.
    Invalid(DateError),
    /// The start date is not strictly before the end date.
    NotBefore { start: CalendarDate, end: CalendarDate },
}

/// The date that `chrono::NaiveDate::parse_from_str(s, fmt)` yields, as
/// (year, month, day), or `None` where it returns an error.
pub uninterp spec fn chrono_parse_date(s: Seq<char>, fmt: Seq<char>) -> Option<(i32, u32, u32)>;

/// Calls `chrono::NaiveDate::parse_from_str` and hands back the parsed
/// date's year, month and day. The contract claims only that the result is
/// a function of the two strings (named `chrono_parse_date`).
#[verifier::external_body]
fn parse_naive_date(s: &str, fmt: &str) -> (r: Option<(i32, u32, u32)>)
    ensures
        r == chrono_parse_date(s@, fmt@),
{
    match chrono::NaiveDate::parse_from_str(s, fmt) {
        Ok(d) => Some((
            chrono::Datelike::year(&d),
            chrono::Datelike::month(&d),
            chrono::Datelike::day(&d),
        )),
        Err(_) => None,
    }
}

/// The parse of `s` in the `YYYY-MM-DD` format, as a calendar date.
pub open spec fn parsed_date(s: Seq<char>) -> Option<CalendarDate> {
    match chrono_parse_date(s, "%Y-%m-%d"@) {
        Some((y, m, d)) => Some(CalendarDate { year: y, month: m, day: d }),
        None => None,
    }
}

/// Strict chronological order of two calendar dates.
pub open spec fn date_before(a: CalendarDate, b: CalendarDate) -> bool {
    ||| a.year < b.year
    ||| (a.year == b.year && a.month < b.month)
    ||| (a.year == b.year && a.month == b.month && a.day < b.day)
}

/// Law: dates are ordered by year first, then by month, then by day: an
/// earlier year comes first whatever the month and day, an earlier month of
/// the same year whatever the day, and an earlier day of the same month.
/// The order is strict and total: of two different dates exactly one comes
/// first, no date comes before itself, and the order is transitive.
pub proof fn lemma_date_order(a: CalendarDate, b: CalendarDate, c: CalendarDate)
    ensures
        a.year < b.year ==> date_before(a, b),
        a.year == b.year && a.month < b.month ==> date_before(a, b),
        a.year == b.year && a.month == b.month && a.day < b.day ==> date_before(a, b),
        !date_before(a, a),
        a != b ==> (date_before(a, b) != date_before(b, a)),
        date_before(a, b) && date_before(b, c) ==> date_before(a, c),
{
}

/// Law: a range whose dates both parse is accepted exactly when the start
/// comes first in the order of years, then months, then days.
pub proof fn lemma_range_accepted(s: CalendarDate, t: CalendarDate)
    ensures
        (s.year < t.year || (s.year == t.year && s.month < t.month) || (s.year == t.year && s.month
            == t.month && s.day < t.day)) ==> range_verdict(s, t) == Ok::<
            (CalendarDate, CalendarDate),
            DateRangeError,
        >((s, t)),
        (t.year < s.year || (t.year == s.year && t.month < s.month) || (t.year == s.year && t.month
            == s.month && t.day <= s.day)) ==> range_verdict(s, t) is Err,
{
    lemma_date_order(s, t, t);
    lemma_date_order(t, s, s);
}

/// The verdict on two parsed dates: the range when the start lies strictly
/// before the end, otherwise the refusal that names both.
pub open spec fn range_verdict(s: CalendarDate, t: CalendarDate) -> Result<(CalendarDate, CalendarDate), DateRangeError> {
    if date_before(s, t) {
        Ok((s, t))
    } else {
        Err(DateRangeError::NotBefore { start: s, end: t })
    }
}

/// Parses `s` as `YYYY-MM-DD`; the error names the argument by `label`.
pub fn parse_date(s: &String, label: &String) -> (r: Result<CalendarDate, DateError>)
    ensures
        parsed_date(s@) matches Some(d) ==> r == Ok::<CalendarDate, DateError>(d),
        parsed_date(s@) is None ==> (r matches Err(e) && e.label@ == label@ && e.input@ == s@),
{
    match parse_naive_date(s.as_str(), "%Y-%m-%d") {
        Some((year, month, day)) => Ok(CalendarDate { year, month, day }),
        None => Err(DateError { label: label.clone(), input: s.clone() }),
    }
}

/// Whether `a` is strictly before `b`.
pub fn is_before(a: CalendarDate, b: CalendarDate) -> (r: bool)
    ensures
        r == date_before(a, b),
{
    a.year < b.year || (a.year == b.year && (a.month < b.month || (a.month == b.month
        && a.day < b.day)))
}

/// Accepts two parsed dates as a range only when both parsed and the
/// start lies strictly before the end; the start's error comes first.
pub fn validate_date_range(
    start: Result<CalendarDate, DateError>,
    end: Result<CalendarDate, DateError>,
) -> (r: Result<(CalendarDate, CalendarDate), DateRangeError>)
    ensures
        start matches Err(e) ==> (r matches Err(DateRangeError::Invalid(x)) && x == e),
        start is Ok ==> (end matches Err(e) ==> (r matches Err(DateRangeError::Invalid(x)) && x == e)),
        start matches Ok(s) ==> (end matches Ok(t) ==> (r == range_verdict(s, t))),
{
    match start {
        Err(e) => Err(DateRangeError::Invalid(e)),
        Ok(s) => match end {
            Err(e) => Err(DateRangeError::Invalid(e)),
            Ok(t) => {
                if is_before(s, t) {
                    Ok((s, t))
                } else {
                    Err(DateRangeError::NotBefore { start: s, end: t })
                }
            },
        },
    }
}

impl VerifyArgs {
    /// The start date, parsed as `YYYY-MM-DD`.
    pub fn parse_start_date(&self) -> (r: Result<CalendarDate, DateError>)
        ensures
            parsed_date(self.start_date@) matches Some(d) ==> r == Ok::<CalendarDate, DateError>(d),
            parsed_date(self.start_date@) is None ==> (r matches Err(e) && e.label@
                == "start-date"@ && e.input@ == self.start_date@),
    {
        let label = String::from_str("start-date");
        parse_date(&self.start_date, &label)
    }

    /// The end date, parsed as `YYYY-MM-DD`.
    pub fn parse_end_date(&self) -> (r: Result<CalendarDate, DateError>)
        ensures
            parsed_date(self.end_date@) matches Some(d) ==> r == Ok::<CalendarDate, DateError>(d),
            parsed_date(self.end_date@) is None ==> (r matches Err(e) && e.label@ == "end-date"@
                && e.input@ == self.end_date@),
    {
        let label = String::from_str("end-date");
        parse_date(&self.end_date, &label)
    }
}

/// The analysed date range: both dates parse and the start lies strictly
/// before the end.
pub fn parse_date_range(args: &VerifyArgs) -> (r: Result<(CalendarDate, CalendarDate), DateRangeError>)
    ensures
        parsed_date(args.start_date@) matches Some(s) ==> (parsed_date(args.end_date@) matches Some(t)
            ==> (r == range_verdict(s, t))),
        parsed_date(args.start_date@) is None ==> (r matches Err(DateRangeError::Invalid(e))
            && e.label@ == "start-date"@ && e.input@ == args.start_date@),
        parsed_date(args.start_date@) is Some ==> (parsed_date(args.end_date@) is None ==> (r matches Err(
            DateRangeError::Invalid(e),
        ) && e.label@ == "end-date"@ && e.input@ == args.end_date@)),
{
    let start = args.parse_start_date();
    let end = args.parse_end_date();
    validate_date_range(start, end)
}

} // verus!
