//! The period resolver: turns a report-period request into a concrete
//! `[start, end]` window of instants, pinned to a given "now", and shapes the
//! mutually exclusive request forms a caller may supply.

use vstd::prelude::*;

verus! {

use vstd::string::StringExecFns;
use crate::calendar::Date;
use crate::calendar::date_text_ok;
use crate::calendar::date_valid;
use crate::calendar::date_to_days;
use crate::calendar::day_date;
use crate::calendar::days_to_date;
use crate::calendar::day_of_ts;
use crate::calendar::days_of_date;
use crate::calendar::lemma_day_date;
use crate::calendar::lemma_days_before_year_bounds;
use crate::calendar::lemma_days_of_date_injective;
use crate::calendar::lemma_valid_date_day_range;
use crate::calendar::max_ts;
use crate::calendar::min_ts;
use crate::calendar::parse_date;
use crate::calendar::split_ts;
use crate::calendar::text_day;
use crate::calendar::text_month;
use crate::calendar::text_year;
use crate::calendar::weekday_from_days;
use crate::calendar::weekday_of_day;
use crate::errors::WalletError;

/// A report period request: a named span relative to "now", one day, or an
/// explicit inclusive date range.
#[derive(Debug)]
pub enum ReportPeriod {
    Today,
    Week,
    Month,
    All,
    Date(String),
    FromTo { from: String, to: String },
}

/// A concrete window of instants; an absent end means the window is open.
#[derive(Clone, Copy, Debug)]
pub struct Window {
    pub start_ts: i64,
    pub end_ts: Option<i64>,
}

impl Window {
    /// Whether an instant falls inside the window.
    pub open spec fn admits(&self, ts: int) -> bool {
        &&& self.start_ts <= ts
        &&& match self.end_ts {
            Some(e) => ts <= e,
            None => true,
        }
    }
}

/// Midnight of the day "now" falls on.
pub open spec fn today_start(now: int) -> int {
    day_of_ts(now) * 86400
}

/// Midnight of the Monday on or before "now".
pub open spec fn week_start(now: int) -> int {
    (day_of_ts(now) - weekday_of_day(day_of_ts(now))) * 86400
}

/// Midnight of the first of the month "now" falls in.
pub open spec fn month_start(now: int) -> int {
    days_of_date(day_date(day_of_ts(now)).0, day_date(day_of_ts(now)).1, 1) * 86400
}

/// Midnight of the date some well-formed date text names.
pub open spec fn text_date_start(s: Seq<char>) -> int {
    days_of_date(text_year(s), text_month(s), text_day(s)) * 86400
}

/// Whether a period request resolves without error.
pub open spec fn period_ok(p: &ReportPeriod) -> bool {
    match p {
        ReportPeriod::Date(s) => date_text_ok(s@),
        ReportPeriod::FromTo { from, to } => date_text_ok(from@) && date_text_ok(to@)
            && text_date_start(from@) <= text_date_start(to@),
        _ => true,
    }
}

/// The start instant of a resolved period.
pub open spec fn spec_start(p: &ReportPeriod, now: int) -> int {
    match p {
        ReportPeriod::Today => today_start(now),
        ReportPeriod::Week => week_start(now),
        ReportPeriod::Month => month_start(now),
        ReportPeriod::All => 0,
        ReportPeriod::Date(s) => text_date_start(s@),
        ReportPeriod::FromTo { from, to: _ } => text_date_start(from@),
    }
}

/// The end instant of a resolved period; open for the named spans.
pub open spec fn spec_end(p: &ReportPeriod) -> Option<int> {
    match p {
        ReportPeriod::Date(s) => Some(text_date_start(s@) + 86399),
        ReportPeriod::FromTo { from: _, to } => Some(text_date_start(to@) + 86399),
        _ => None,
    }
}

/// The error a failing period request must map to: a malformed date is
/// `InvalidDate`, an inverted range `DateRangeError`.
pub open spec fn period_err_matches(p: &ReportPeriod, e: WalletError) -> bool {
    match p {
        ReportPeriod::Date(s) => !date_text_ok(s@) && e is InvalidDate,
        ReportPeriod::FromTo { from, to } => if !date_text_ok(from@) || !date_text_ok(to@) {
            e is InvalidDate
        } else {
            text_date_start(from@) > text_date_start(to@) && e is DateRangeError
        },
        _ => false,
    }
}

/// The display label of a period.
pub open spec fn period_label(p: &ReportPeriod) -> Seq<char> {
    match p {
        ReportPeriod::Today => "Today"@,
        ReportPeriod::Week => "This Week"@,
        ReportPeriod::Month => "This Month"@,
        ReportPeriod::All => "All Time"@,
        ReportPeriod::Date(s) => "Date: "@ + s@,
        ReportPeriod::FromTo { from, to } => "From "@ + from@ + " to "@ + to@,
    }
}

/// Midnight, as an instant, of a valid parsed date.
fn date_midnight(d: Date) -> (r: i64)
    requires
        d.valid(),
    ensures
        r == days_of_date(d.year as int, d.month as int, d.day as int) * 86400,
        min_ts() <= r,
        r + 86399 <= max_ts(),
{
    proof {
        lemma_valid_date_day_range(d.year as int, d.month as int, d.day as int);
        lemma_days_before_year_bounds(0);
        lemma_days_before_year_bounds(10000);
    }
    let days = date_to_days(d);
    days * 86400
}

/// Resolves a period request against "now" into a window and a label.
///
/// Resolution is a function of the request and "now" alone: each request
/// shape pins its window exactly — `Today` starts at midnight of "now"'s day,
/// `Week` at midnight of the Monday on or before it, `Month` at midnight of
/// the first of its month, `All` at the epoch, and explicit dates span their
/// named days inclusively.
pub fn resolve_period(period: &ReportPeriod, now: i64) -> (r: Result<(Window, String), WalletError>)
    requires
        0 <= now <= max_ts(),
    ensures
        r is Ok <==> period_ok(period),
        r matches Ok(ws) ==> {
            &&& ws.0.start_ts == spec_start(period, now as int)
            &&& match spec_end(period) {
                Some(e) => ws.0.end_ts matches Some(et) && et == e,
                None => ws.0.end_ts is None,
            }
            &&& ws.1@ == period_label(period)
            &&& min_ts() <= ws.0.start_ts
            &&& ws.0.end_ts matches Some(et) ==> ws.0.start_ts <= et <= max_ts()
        },
        r matches Err(e) ==> period_err_matches(period, e),
{
    proof {
        lemma_days_before_year_bounds(0);
        lemma_days_before_year_bounds(10000);
        crate::calendar::lemma_days_before_year_mono(0, 1970);
    }
    match period {
        ReportPeriod::Today => {
            let (day, _sec) = split_ts(now);
            let w = Window { start_ts: day * 86400, end_ts: None };
            Ok((w, String::from_str("Today")))
        },
        ReportPeriod::Week => {
            let (day, _sec) = split_ts(now);
            let wd = weekday_from_days(day);
            let w = Window { start_ts: (day - wd) * 86400, end_ts: None };
            Ok((w, String::from_str("This Week")))
        },
        ReportPeriod::Month => {
            let (day, _sec) = split_ts(now);
            let date = days_to_date(day);
            proof {
                lemma_day_date(day as int);
                let t = day_date(day as int);
                lemma_days_of_date_injective(
                    date.year as int, date.month as int, date.day as int, t.0, t.1, t.2);
            }
            let first = Date { year: date.year, month: date.month, day: 1 };
            let start = date_midnight(first);
            let w = Window { start_ts: start, end_ts: None };
            Ok((w, String::from_str("This Month")))
        },
        ReportPeriod::All => {
            let w = Window { start_ts: 0, end_ts: None };
            Ok((w, String::from_str("All Time")))
        },
        ReportPeriod::Date(s) => {
            match parse_date(s.as_str()) {
                None => {
                    let mut msg = String::from_str("");
                    msg.append(s.as_str());
                    msg.append(". Use YYYY-MM-DD");
                    Err(WalletError::InvalidDate(msg))
                },
                Some(d) => {
                    let start = date_midnight(d);
                    let w = Window { start_ts: start, end_ts: Some(start + 86399) };
                    let mut label = String::from_str("Date: ");
                    label.append(s.as_str());
                    Ok((w, label))
                },
            }
        },
        ReportPeriod::FromTo { from, to } => {
            let fd = match parse_date(from.as_str()) {
                None => {
                    let mut msg = String::from_str("");
                    msg.append(from.as_str());
                    msg.append(". Use YYYY-MM-DD");
                    return Err(WalletError::InvalidDate(msg));
                },
                Some(d) => d,
            };
            let td = match parse_date(to.as_str()) {
                None => {
                    let mut msg = String::from_str("");
                    msg.append(to.as_str());
                    msg.append(". Use YYYY-MM-DD");
                    return Err(WalletError::InvalidDate(msg));
                },
                Some(d) => d,
            };
            let start = date_midnight(fd);
            let end_start = date_midnight(td);
            if start > end_start {
                return Err(WalletError::DateRangeError(String::from_str(
                    "The 'from' date must be earlier than or equal to the 'to' date.",
                )));
            }
            let w = Window { start_ts: start, end_ts: Some(end_start + 86399) };
            let mut label = String::from_str("From ");
            label.append(from.as_str());
            label.append(" to ");
            label.append(to.as_str());
            assert(label@ == period_label(period));
            Ok((w, label))
        },
    }
}

/// Reads an explicit posting date as the instant of its midnight.
pub fn parse_backdate(s: &str) -> (r: Result<i64, WalletError>)
    ensures
        r is Ok <==> date_text_ok(s@),
        r matches Ok(ts) ==> ts == text_date_start(s@) && min_ts() <= ts <= max_ts(),
        r matches Err(e) ==> e is InvalidDate,
{
    match parse_date(s) {
        None => {
            let mut msg = String::from_str("");
            msg.append(s);
            msg.append(". Use YYYY-MM-DD");
            Err(WalletError::InvalidDate(msg))
        },
        Some(d) => Ok(date_midnight(d)),
    }
}

/// Combines the mutually exclusive period arguments of a report request: a
/// named period, one explicit date, or a from/to pair; none of them means
/// all time, and any other combination is rejected.
pub fn select_period(
    period: Option<ReportPeriod>,
    date: Option<String>,
    from: Option<String>,
    to: Option<String>,
) -> (r: Result<ReportPeriod, WalletError>)
    ensures
        match (period, date, from, to) {
            (Some(p), None, None, None) => r matches Ok(q) && q == p,
            (None, Some(d), None, None) => r matches Ok(q)
                && q == ReportPeriod::Date(d),
            (None, None, Some(f), Some(t)) => r matches Ok(q)
                && q == (ReportPeriod::FromTo { from: f, to: t }),
            (None, None, None, None) => r matches Ok(q) && q is All,
            _ => r matches Err(e) && e is InvalidDate,
        },
{
    match (period, date, from, to) {
        (Some(p), None, None, None) => Ok(p),
        (None, Some(d), None, None) => Ok(ReportPeriod::Date(d)),
        (None, None, Some(f), Some(t)) => Ok(ReportPeriod::FromTo { from: f, to: t }),
        (None, None, None, None) => Ok(ReportPeriod::All),
        (Some(_), Some(_), _, _) => Err(WalletError::InvalidDate(String::from_str(
            "Cannot specify both a period and a date",
        ))),
        (Some(_), _, Some(_), Some(_)) => Err(WalletError::InvalidDate(String::from_str(
            "Cannot specify both a period and a date range",
        ))),
        (None, None, Some(_), None) | (None, None, None, Some(_)) => Err(
            WalletError::InvalidDate(String::from_str(
                "Must specify both 'from' and 'to' dates for a date range",
            )),
        ),
        _ => Err(WalletError::InvalidDate(String::from_str(
            "Invalid combination of period arguments",
        ))),
    }
}

/// Sorts the calendar-report arguments into a month name and a cap: a lone
/// first argument that reads as a number is the cap; a cap must be positive.
pub fn resolve_calendar_args(
    month: Option<String>,
    cap: Option<String>,
) -> (r: Result<(Option<String>, Option<u64>), WalletError>)
    ensures
        match (month, cap) {
            (Some(m), Some(c)) => {
                &&& (r is Ok <==> crate::text::money_format(c@)
                    && crate::text::money_cents(c@) > 0)
                &&& r matches Ok(mc) ==> mc.0 == Some(m)
                    && (mc.1 matches Some(v) && v == crate::text::money_cents(c@))
                &&& r matches Err(e) ==> e is InvalidCap
            },
            (Some(m), None) => {
                &&& r is Err <==> crate::text::money_format(m@)
                    && crate::text::money_cents(m@) == 0
                &&& r matches Err(e) ==> e is InvalidCap
                &&& r matches Ok(mc) ==> if crate::text::money_format(m@) {
                    mc.0 is None && (mc.1 matches Some(v)
                        && v == crate::text::money_cents(m@))
                } else {
                    mc.0 == Some(m) && mc.1 is None
                }
            },
            (None, Some(c)) => {
                &&& (r is Ok <==> crate::text::money_format(c@)
                    && crate::text::money_cents(c@) > 0)
                &&& r matches Ok(mc) ==> mc.0 is None
                    && (mc.1 matches Some(v) && v == crate::text::money_cents(c@))
                &&& r matches Err(e) ==> e is InvalidCap
            },
            (None, None) => r matches Ok(mc) && mc.0 is None && mc.1 is None,
        },
{
    match (month, cap) {
        (Some(m), Some(c)) => {
            let v = crate::text::parse_cap(c.as_str())?;
            Ok((Some(m), Some(v)))
        },
        (Some(m), None) => {
            match crate::text::scan_money(m.as_str()) {
                Some(v) => {
                    if v == 0 {
                        Err(WalletError::InvalidCap(String::from_str(
                            "Cap must be a positive number",
                        )))
                    } else {
                        Ok((None, Some(v)))
                    }
                },
                None => Ok((Some(m), None)),
            }
        },
        (None, Some(c)) => {
            let v = crate::text::parse_cap(c.as_str())?;
            Ok((None, Some(v)))
        },
        (None, None) => Ok((None, None)),
    }
}

} // verus!
