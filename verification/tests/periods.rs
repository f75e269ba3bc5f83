use spendlog::calendar::{date_to_days, days_to_date, fmt_date, fmt_datetime, month_from_name, parse_date, weekday_from_days, Date};
use spendlog::errors::WalletError;
use spendlog::period::{parse_backdate, resolve_period, select_period, ReportPeriod};

// 2025-04-16 12:34:56 UTC; 2025-04-16 is day 20194 and a Wednesday.
const NOW: i64 = 1_744_806_896;

#[test]
fn day_numbers_match_known_dates() {
    assert_eq!(date_to_days(Date { year: 1970, month: 1, day: 1 }), 0);
    assert_eq!(date_to_days(Date { year: 2025, month: 4, day: 16 }), 20194);
    assert_eq!(date_to_days(Date { year: 2024, month: 2, day: 29 }), 19782);
    assert_eq!(date_to_days(Date { year: 1969, month: 12, day: 31 }), -1);
}

#[test]
fn day_numbers_round_trip() {
    for d in [0i64, -1, 20194, 19782, -719528, 2932896] {
        let date = days_to_date(d);
        assert_eq!(date_to_days(date), d);
    }
    let date = days_to_date(20194);
    assert_eq!((date.year, date.month, date.day), (2025, 4, 16));
}

#[test]
fn weekday_counts_from_monday() {
    // 1970-01-01 was a Thursday
    assert_eq!(weekday_from_days(0), 3);
    // 2025-04-16 was a Wednesday
    assert_eq!(weekday_from_days(20194), 2);
}

#[test]
fn parse_date_accepts_valid_days_only() {
    assert!(parse_date("2024-02-29").is_some());
    assert!(parse_date("2023-02-29").is_none());
    assert!(parse_date("2024-13-01").is_none());
    assert!(parse_date("2024-00-10").is_none());
    assert!(parse_date("2024-1-1").is_none());
    assert!(parse_date("20240101").is_none());
    assert!(parse_date("").is_none());
    let d = parse_date("2025-04-16").unwrap();
    assert_eq!((d.year, d.month, d.day), (2025, 4, 16));
}

#[test]
fn today_starts_at_midnight_of_now() {
    let (w, label) = resolve_period(&ReportPeriod::Today, NOW).unwrap();
    assert_eq!(w.start_ts, 20194 * 86400);
    assert!(w.end_ts.is_none());
    assert_eq!(label, "Today");
}

#[test]
fn week_starts_at_monday_midnight() {
    let (w, label) = resolve_period(&ReportPeriod::Week, NOW).unwrap();
    assert_eq!(w.start_ts, 20192 * 86400);
    assert!(w.end_ts.is_none());
    assert_eq!(label, "This Week");
}

#[test]
fn month_starts_at_first_of_month_midnight() {
    let (w, label) = resolve_period(&ReportPeriod::Month, NOW).unwrap();
    assert_eq!(w.start_ts, 20179 * 86400);
    assert!(w.end_ts.is_none());
    assert_eq!(label, "This Month");
}

#[test]
fn all_starts_at_the_epoch() {
    let (w, label) = resolve_period(&ReportPeriod::All, NOW).unwrap();
    assert_eq!(w.start_ts, 0);
    assert!(w.end_ts.is_none());
    assert_eq!(label, "All Time");
}

#[test]
fn explicit_date_spans_one_day_inclusive() {
    let (w, label) = resolve_period(&ReportPeriod::Date(String::from("2024-12-01")), NOW).unwrap();
    assert_eq!(w.start_ts, 20058 * 86400);
    assert_eq!(w.end_ts, Some(20058 * 86400 + 86399));
    assert_eq!(label, "Date: 2024-12-01");
}

#[test]
fn from_to_spans_both_days_inclusive() {
    let period = ReportPeriod::FromTo {
        from: String::from("2024-12-01"),
        to: String::from("2024-12-31"),
    };
    let (w, label) = resolve_period(&period, NOW).unwrap();
    assert_eq!(w.start_ts, 20058 * 86400);
    assert_eq!(w.end_ts, Some(20088 * 86400 + 86399));
    assert_eq!(label, "From 2024-12-01 to 2024-12-31");
}

#[test]
fn inverted_range_is_a_date_range_error() {
    let period = ReportPeriod::FromTo {
        from: String::from("2024-12-31"),
        to: String::from("2024-12-01"),
    };
    match resolve_period(&period, NOW) {
        Err(WalletError::DateRangeError(_)) => {},
        _ => panic!("expected DateRangeError"),
    }
}

#[test]
fn malformed_dates_are_invalid_date_errors() {
    match resolve_period(&ReportPeriod::Date(String::from("yesterday")), NOW) {
        Err(WalletError::InvalidDate(_)) => {},
        _ => panic!("expected InvalidDate"),
    }
    let period = ReportPeriod::FromTo {
        from: String::from("2024-12-01"),
        to: String::from("2024-12-32"),
    };
    match resolve_period(&period, NOW) {
        Err(WalletError::InvalidDate(_)) => {},
        _ => panic!("expected InvalidDate"),
    }
}

#[test]
fn parse_backdate_gives_midnight() {
    assert_eq!(parse_backdate("2024-12-01").unwrap(), 20058 * 86400);
    assert!(matches!(parse_backdate("12/01/2024"), Err(WalletError::InvalidDate(_))));
}

#[test]
fn select_period_takes_exactly_one_request_shape() {
    match select_period(Some(ReportPeriod::Week), None, None, None) {
        Ok(ReportPeriod::Week) => {},
        _ => panic!("expected the named period"),
    }
    match select_period(None, Some(String::from("2024-12-01")), None, None) {
        Ok(ReportPeriod::Date(d)) => assert_eq!(d, "2024-12-01"),
        _ => panic!("expected a date period"),
    }
    match select_period(None, None, Some(String::from("a")), Some(String::from("b"))) {
        Ok(ReportPeriod::FromTo { from, to }) => {
            assert_eq!(from, "a");
            assert_eq!(to, "b");
        },
        _ => panic!("expected a range period"),
    }
    match select_period(None, None, None, None) {
        Ok(ReportPeriod::All) => {},
        _ => panic!("expected the default period"),
    }
    assert!(matches!(
        select_period(Some(ReportPeriod::Week), Some(String::from("x")), None, None),
        Err(WalletError::InvalidDate(_))
    ));
    assert!(matches!(
        select_period(None, None, Some(String::from("a")), None),
        Err(WalletError::InvalidDate(_))
    ));
}

#[test]
fn month_names_read_without_case() {
    assert_eq!(month_from_name("april"), Some(4));
    assert_eq!(month_from_name("APRIL"), Some(4));
    assert_eq!(month_from_name("December"), Some(12));
    assert_eq!(month_from_name("avril"), None);
    assert_eq!(month_from_name(""), None);
}

#[test]
fn dates_and_instants_render_zero_padded() {
    assert_eq!(fmt_date(Date { year: 2025, month: 4, day: 6 }), "2025-04-06");
    assert_eq!(fmt_date(Date { year: 987, month: 12, day: 31 }), "0987-12-31");
    assert_eq!(fmt_datetime(0), "1970-01-01 00:00:00");
    assert_eq!(fmt_datetime(-1), "1969-12-31 23:59:59");
    assert_eq!(fmt_datetime(NOW), "2025-04-16 12:34:56");
}
