use bitforge::timefmt::{
    civil_date_from_days, filter_level, format_timestamp, project_log_line, short_source, LogLevel,
};

#[test]
fn calendar_dates() {
    assert_eq!(civil_date_from_days(0), (1970, 1, 1));
    assert_eq!(civil_date_from_days(-1), (1969, 12, 31));
    assert_eq!(civil_date_from_days(19723), (2024, 1, 1));
    assert_eq!(civil_date_from_days(19782), (2024, 2, 29));
    assert_eq!(civil_date_from_days(11016), (2000, 2, 29));
    assert_eq!(civil_date_from_days(-719468), (0, 3, 1));
}

#[test]
fn timestamps() {
    assert_eq!(format_timestamp(0, 0), "1970-01-01 00:00:00.000Z");
    assert_eq!(format_timestamp(1_700_000_000, 123), "2023-11-14 22:13:20.123Z");
}

#[test]
fn log_lines() {
    assert_eq!(short_source("bitforge::core::app"), "app");
    assert_eq!(short_source("plain"), "plain");
    assert_eq!(project_log_line("T", "INFO", "src", "msg"), "| T | INFO  | src | msg");
    assert_eq!(project_log_line("T", "DEBUGX", "s", "m"), "| T | DEBUGX | s | m");
}

#[test]
fn log_levels() {
    assert_eq!(filter_level(Some(" debug "), false), LogLevel::Debug);
    assert_eq!(filter_level(Some("OFF"), true), LogLevel::Off);
    assert_eq!(filter_level(Some("bogus"), true), LogLevel::Trace);
    assert_eq!(filter_level(None, false), LogLevel::Warn);
}

#[test]
fn month_ends() {
    assert_eq!(civil_date_from_days(19416), (2023, 2, 28));
    assert_eq!(civil_date_from_days(19417), (2023, 3, 1));
    assert_eq!(civil_date_from_days(10956), (1999, 12, 31));
    assert_eq!(civil_date_from_days(-25509), (1900, 2, 28));
    assert_eq!(civil_date_from_days(-25508), (1900, 3, 1));
}
