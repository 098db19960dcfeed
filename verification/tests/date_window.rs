use elvanto_cli::date_window::{
    default_window, parse_date, parse_duration_start, services_window, usage_lookback, usage_window, Date,
};
use elvanto_cli::error::CliError;

fn d(y: i32, m: u32, day: u32) -> Date {
    Date::from_ymd_opt(y, m, day).unwrap()
}

#[test]
fn six_months_back_middle_of_month() {
    let now = d(2026, 5, 19);
    let (from, to) = default_window(now);
    assert_eq!(from, d(2025, 11, 19));
    assert_eq!(to, d(2026, 5, 19));
}

#[test]
fn six_months_back_wraps_year() {
    let now = d(2026, 2, 10);
    let (from, _to) = default_window(now);
    assert_eq!(from, d(2025, 8, 10));
}

#[test]
fn six_months_back_clamps_to_last_day() {
    let now = d(2026, 8, 31);
    let (from, _to) = default_window(now);
    assert_eq!(from, d(2026, 2, 28));
}

#[test]
fn six_months_back_handles_leap_february() {
    let now = d(2024, 8, 31);
    let (from, _to) = default_window(now);
    assert_eq!(from, d(2024, 2, 29));
}

#[test]
fn parse_date_ok() {
    assert_eq!(parse_date("2026-01-15", "--from").unwrap(), d(2026, 1, 15));
}

#[test]
fn parse_date_rejects_bad_format() {
    let err = parse_date("01/15/2026", "--from").unwrap_err();
    assert!(matches!(err, CliError::Usage(_)));
    assert!(err.message().contains("--from"));
    assert!(err.message().contains("YYYY-MM-DD"));
}

#[test]
fn parse_date_rejects_invalid_calendar_date() {
    let err = parse_date("2026-02-30", "--from").unwrap_err();
    assert!(matches!(err, CliError::Usage(_)));
}

#[test]
fn parse_duration_start_supports_days_weeks_months_and_years() {
    let today = d(2026, 5, 19);
    assert_eq!(parse_duration_start("14d", today, "--used-within").unwrap(), d(2026, 5, 5));
    assert_eq!(parse_duration_start("2w", today, "--used-within").unwrap(), d(2026, 5, 5));
    assert_eq!(parse_duration_start("6m", today, "--used-within").unwrap(), d(2025, 11, 19));
    assert_eq!(parse_duration_start("1y", today, "--used-within").unwrap(), d(2025, 5, 19));
}

#[test]
fn parse_duration_start_rejects_bad_values() {
    assert!(matches!(parse_duration_start("soon", d(2026, 5, 19), "--used-within"), Err(CliError::Usage(_))));
    assert!(matches!(parse_duration_start("0w", d(2026, 5, 19), "--used-within"), Err(CliError::Usage(_))));
    assert!(matches!(
        parse_duration_start("2147483648m", d(2026, 5, 19), "--used-within"),
        Err(CliError::Usage(_))
    ));
}

#[test]
fn from_ymd_opt_checks_the_calendar() {
    assert!(Date::from_ymd_opt(2026, 2, 29).is_none());
    assert!(Date::from_ymd_opt(2024, 2, 29).is_some());
    assert!(Date::from_ymd_opt(1900, 2, 29).is_none());
    assert!(Date::from_ymd_opt(2000, 2, 29).is_some());
    assert!(Date::from_ymd_opt(2026, 13, 1).is_none());
    assert!(Date::from_ymd_opt(2026, 4, 31).is_none());
    assert!(Date::from_ymd_opt(2026, 1, 0).is_none());
    assert!(Date::from_ymd_opt(262143, 1, 1).is_none());
}

#[test]
fn days_back_cross_month_and_year() {
    let today = d(2026, 3, 1);
    assert_eq!(parse_duration_start("1d", today, "--x").unwrap(), d(2026, 2, 28));
    assert_eq!(parse_duration_start("60d", today, "--x").unwrap(), d(2025, 12, 31));
    assert_eq!(parse_duration_start("  3w ", d(2024, 3, 10), "--x").unwrap(), d(2024, 2, 18));
}

#[test]
fn duration_error_message_names_flag_and_value() {
    let err = parse_duration_start("5x", d(2026, 5, 19), "--used-within").unwrap_err();
    assert_eq!(
        err.message(),
        "invalid --used-within value \"5x\"; expected a duration like 14d, 2w, 6m, or 1y"
    );
}

#[test]
fn duration_rejects_single_char_and_weeks_overflow() {
    assert!(parse_duration_start("d", d(2026, 5, 19), "--x").is_err());
    assert!(parse_duration_start("", d(2026, 5, 19), "--x").is_err());
    assert!(parse_duration_start("613566757w", d(2026, 5, 19), "--x").is_err());
    assert!(parse_duration_start("357913942y", d(2026, 5, 19), "--x").is_err());
}

#[test]
fn date_error_message_is_exact() {
    let err = parse_date("nope", "--to").unwrap_err();
    assert_eq!(err.message(), "invalid --to value \"nope\"; expected YYYY-MM-DD");
}

#[test]
fn date_text_pads_fields() {
    assert_eq!(d(2026, 1, 5).to_text(), "2026-01-05");
    assert_eq!(d(987, 12, 25).to_text(), "0987-12-25");
    assert_eq!(d(-5, 3, 1).to_text(), "-0005-03-01");
    assert_eq!(d(12345, 6, 7).to_text(), "+12345-06-07");
}

#[test]
fn services_window_defaults_and_order_check() {
    let today = d(2026, 5, 19);
    assert_eq!(services_window(today, None, None).unwrap(), (d(2025, 11, 19), today));
    assert_eq!(
        services_window(today, Some(d(2026, 1, 1)), Some(d(2026, 2, 1))).unwrap(),
        (d(2026, 1, 1), d(2026, 2, 1))
    );
    let err = services_window(today, Some(d(2026, 3, 1)), Some(d(2026, 2, 1))).unwrap_err();
    assert_eq!(err.message(), "--from (2026-03-01) must be on or before --to (2026-02-01)");
    assert_eq!(err.exit_code(), 2);
}

#[test]
fn usage_window_goes_back_a_year() {
    let today = d(2024, 2, 29);
    assert_eq!(usage_window(today, None, None), (d(2023, 2, 28), today));
    assert_eq!(usage_window(today, Some(d(2020, 1, 1)), None), (d(2020, 1, 1), today));
}

#[test]
fn usage_lookback_picks_earlier_start_or_a_year() {
    let today = d(2026, 5, 19);
    assert_eq!(usage_lookback(today, Some(d(2026, 1, 1)), Some(d(2025, 6, 1))).unwrap(), d(2025, 6, 1));
    assert_eq!(usage_lookback(today, None, Some(d(2025, 6, 1))).unwrap(), d(2025, 6, 1));
    assert_eq!(usage_lookback(today, None, None).unwrap(), d(2025, 5, 19));
}

#[test]
fn weeks_and_years_match_days_and_months() {
    let today = d(2025, 3, 31);
    assert_eq!(parse_duration_start("3w", today, "--x").unwrap(), parse_duration_start("21d", today, "--x").unwrap());
    assert_eq!(parse_duration_start("2y", today, "--x").unwrap(), parse_duration_start("24m", today, "--x").unwrap());
    assert_eq!(parse_duration_start("1m", today, "--x").unwrap(), d(2025, 2, 28));
}

#[test]
fn default_window_never_starts_after_it_ends() {
    for now in [d(2026, 1, 1), d(2024, 8, 31), d(2000, 12, 31), d(1, 7, 15)] {
        let (from, to) = default_window(now);
        assert!((from.year, from.month, from.day) <= (to.year, to.month, to.day));
    }
}
