//! Log lines: UTC timestamps, the short source of a log record, and the
//! level filter chosen at start-up.

use vstd::prelude::*;

use crate::text::{
    chars_of, decimal, push_padded, rsplit_once, rsplit_once_exec, string_of, trim_ws,
    trim_ws_exec,
};

verus! {

// ---------------------------------------------------------------------------
// Calendar dates
// ---------------------------------------------------------------------------

/// The number of days from 1970-01-01 to the date `y-m-d` of the proleptic
/// Gregorian calendar (March-based years, eras of 400 years).
pub open spec fn days_from_civil(y: int, m: int, d: int) -> int {
    let yp = if m <= 2 {
        y - 1
    } else {
        y
    };
    let era = yp / 400;
    let yoe = yp - era * 400;
    let mp = if m > 2 {
        m - 3
    } else {
        m + 9
    };
    let doy = (153 * mp + 2) / 5 + d - 1;
    let doe = yoe * 365 + yoe / 4 - yoe / 100 + doy;
    era * 146097 + doe - 719468
}

/// The year of era and day of year for a day of a 400-year era.
pub open spec fn year_of_era(doe: int) -> int {
    (doe - doe / 1460 + doe / 36524 - doe / 146096) / 365
}

pub open spec fn day_of_year(doe: int) -> int {
    let yoe = year_of_era(doe);
    doe - (365 * yoe + yoe / 4 - yoe / 100)
}

/// Within an era, the year is one of its 400 and the day one of its 366.
pub proof fn lemma_era_ranges(doe: int)
    requires
        0 <= doe <= 146096,
    ensures
        0 <= year_of_era(doe) <= 399,
        0 <= day_of_year(doe) <= 365,
{
    let c = doe / 36524;
    let f = doe / 1460;
    let g = doe / 146096;
    let yoe = year_of_era(doe);
    assert(0 <= c <= 4) by (nonlinear_arith)
        requires
            0 <= doe <= 146096,
            c == doe / 36524,
    ;
    assert(0 <= yoe <= 399) by (nonlinear_arith)
        requires
            0 <= doe <= 146096,
            c == doe / 36524,
            f == doe / 1460,
            g == doe / 146096,
            yoe == (doe - f + c - g) / 365,
    ;
    let y4 = yoe / 4;
    let y100 = yoe / 100;
    assert(0 <= doe - (365 * yoe + y4 - y100) <= 365) by (nonlinear_arith)
        requires
            0 <= doe <= 146096,
            c == doe / 36524,
            f == doe / 1460,
            g == doe / 146096,
            yoe == (doe - f + c - g) / 365,
            0 <= yoe <= 399,
            y4 == yoe / 4,
            y100 == yoe / 100,
    ;
}

/// A leap year of the proleptic Gregorian calendar.
pub open spec fn is_leap(y: int) -> bool {
    y % 4 == 0 && (y % 100 != 0 || y % 400 == 0)
}

/// The number of days of month `m` of year `y`.
pub open spec fn days_in_month(y: int, m: int) -> int {
    if m == 2 {
        if is_leap(y) {
            29
        } else {
            28
        }
    } else if m == 4 || m == 6 || m == 9 || m == 11 {
        30
    } else {
        31
    }
}

/// A year of an era (counted from March) has a 366th day only when the
/// February that ends it has a 29th.
proof fn lemma_long_year_is_leap(doe: int)
    requires
        0 <= doe <= 146096,
        day_of_year(doe) == 365,
    ensures
        is_leap(year_of_era(doe) + 1),
{
    lemma_era_ranges(doe);
    let yoe = year_of_era(doe);
    let q = yoe / 4;
    let r = yoe % 4;
    let p = yoe / 100;
    assert(doe == 365 * yoe + q - p + 365);
    if !is_leap(yoe + 1) {
        if r <= 2 {
            let a = doe / 1460;
            let b = doe / 36524;
            let c = doe / 146096;
            assert(yoe == 4 * q + r && 0 <= q <= 99 && 0 <= p <= 3);
            assert(p <= q && p == q / 25) by (nonlinear_arith)
                requires
                    yoe == 4 * q + r,
                    0 <= r <= 2,
                    p == yoe / 100,
                    0 <= q <= 99,
            ;
            assert(doe == 1460 * q + (q + 365 * (r + 1) - p));
            assert(a == q) by (nonlinear_arith)
                requires
                    doe == 1460 * q + (q + 365 * (r + 1) - p),
                    0 <= q + 365 * (r + 1) - p < 1460,
                    a == doe / 1460,
            ;
            assert(doe >= 36524 * p) by (nonlinear_arith)
                requires
                    doe == 1461 * q + 365 * (r + 1) - p,
                    p == q / 25,
                    0 <= q,
                    0 <= r,
            ;
            assert(p <= b <= 4) by (nonlinear_arith)
                requires
                    doe >= 36524 * p,
                    doe <= 146096,
                    b == doe / 36524,
            ;
            assert(doe < 146096);
            assert(c == 0);
            assert(doe - a + b - c == 365 * (yoe + 1) + (b - p));
            assert((doe - a + b - c) / 365 == yoe + 1) by (nonlinear_arith)
                requires
                    doe - a + b - c == 365 * (yoe + 1) + (b - p),
                    0 <= b - p <= 4,
            ;
            assert(year_of_era(doe) == yoe + 1);
        } else {
            assert(yoe == 99 || yoe == 199 || yoe == 299);
            if yoe == 99 {
                assert(doe == 36524);
                assert(year_of_era(36524) == 100);
            } else if yoe == 199 {
                assert(doe == 73048);
                assert(year_of_era(73048) == 200);
            } else {
                assert(doe == 109572);
                assert(year_of_era(109572) == 300);
            }
        }
    }
}

/// The date of the day `days` after 1970-01-01.
pub fn civil_date_from_days(days_since_epoch: i64) -> (r: (i64, u32, u32))
    requires
        days_since_epoch <= i64::MAX - 719_468,
    ensures
        days_from_civil(r.0 as int, r.1 as int, r.2 as int) == days_since_epoch,
        1 <= r.1 <= 12,
        1 <= r.2 <= days_in_month(r.0 as int, r.1 as int),
        days_since_epoch >= 0 ==> r.0 >= 1600,
{
    let shifted_days = days_since_epoch + 719_468;
    let era: i64 = if shifted_days >= 0 {
        shifted_days / 146_097
    } else {
        -((146_096 - shifted_days) / 146_097)
    };
    assert(era as int == (shifted_days as int) / 146_097) by (nonlinear_arith)
        requires
            shifted_days >= 0 ==> era == shifted_days / 146_097,
            shifted_days < 0 ==> era as int == -((146_096 - shifted_days as int) / 146_097),
    ;
    let day_of_era = shifted_days - era * 146_097;
    assert(0 <= day_of_era <= 146_096) by (nonlinear_arith)
        requires
            era as int == (shifted_days as int) / 146_097,
            day_of_era == shifted_days - era * 146_097,
    ;
    proof {
        lemma_era_ranges(day_of_era as int);
    }
    let year_of_era_v = (day_of_era - day_of_era / 1460 + day_of_era / 36_524 - day_of_era / 146_096)
        / 365;
    let year = year_of_era_v + era * 400;
    let day_of_year_v = day_of_era - (365 * year_of_era_v + year_of_era_v / 4 - year_of_era_v
        / 100);
    let month_position = (5 * day_of_year_v + 2) / 153;
    assert(0 <= month_position <= 11);
    let day = (day_of_year_v - (153 * month_position + 2) / 5 + 1) as u32;
    assert(1 <= day_of_year_v - (153 * month_position + 2) / 5 + 1 <= 31) by (nonlinear_arith)
        requires
            0 <= day_of_year_v <= 365,
            month_position == (5 * day_of_year_v + 2) / 153,
    ;
    let month = (if month_position < 10 {
        month_position + 3
    } else {
        month_position - 9
    }) as u32;
    let calendar_year = if month <= 2 {
        year + 1
    } else {
        year
    };
    proof {
        let yp: int = if month <= 2 {
            calendar_year - 1
        } else {
            calendar_year as int
        };
        assert(yp == year);
        assert(yp / 400 == era as int) by (nonlinear_arith)
            requires
                yp == year_of_era_v + era * 400,
                0 <= year_of_era_v <= 399,
        ;
        let d = day as int;
        let mp = month_position as int;
        let doy = day_of_year_v as int;
        assert(153 * mp <= 5 * doy + 2 < 153 * mp + 153) by (nonlinear_arith)
            requires
                mp == (5 * doy + 2) / 153,
                0 <= doy,
        ;
        assert(d == doy - (153 * mp + 2) / 5 + 1);
        if mp == 11 {
            assert(d <= 29);
            if d == 29 {
                assert(doy == 365);
                assert(day_of_year(day_of_era as int) == doy);
                lemma_long_year_is_leap(day_of_era as int);
                assert(is_leap(year_of_era_v + 1));
                assert(is_leap(calendar_year as int)) by (nonlinear_arith)
                    requires
                        calendar_year == year_of_era_v + 1 + era * 400,
                        is_leap(year_of_era_v + 1),
                ;
            }
        } else {
            assert(d <= days_in_month(calendar_year as int, month as int));
        }
        if days_since_epoch >= 0 {
            assert(era >= 4) by (nonlinear_arith)
                requires
                    era as int == (shifted_days as int) / 146_097,
                    shifted_days >= 719_468,
            ;
        }
    }
    (calendar_year, month, day)
}

/// `YYYY-MM-DD hh:mm:ss.mmmZ` for a time after 1970-01-01 (UTC).
pub open spec fn timestamp_spec(total_secs: u64, millis: u32, y: int, m: int, d: int) -> Seq<char> {
    let secs_in_day = total_secs % 86400;
    crate::text::padded(decimal(y as nat), 4) + "-"@ + crate::text::padded(decimal(m as nat), 2)
        + "-"@ + crate::text::padded(decimal(d as nat), 2) + " "@ + crate::text::padded(
        decimal((secs_in_day / 3600) as nat),
        2,
    ) + ":"@ + crate::text::padded(decimal(((secs_in_day % 3600) / 60) as nat), 2) + ":"@
        + crate::text::padded(decimal((secs_in_day % 60) as nat), 2) + "."@ + crate::text::padded(
        decimal(millis as nat),
        3,
    ) + "Z"@
}

/// The log timestamp of `total_secs` seconds and `millis` milliseconds
/// after 1970-01-01 UTC.
pub fn format_timestamp(total_secs: u64, millis: u32) -> (r: String)
    ensures
        exists|y: int, m: int, d: int|
            days_from_civil(y, m, d) == total_secs / 86400 && 1 <= m <= 12 && 1 <= d
                <= days_in_month(y, m) && r@ == timestamp_spec(total_secs, millis, y, m, d),
{
    let days = total_secs / 86_400;
    let secs_in_day = total_secs % 86_400;
    let hours = secs_in_day / 3600;
    let minutes = (secs_in_day % 3600) / 60;
    let seconds = secs_in_day % 60;
    let (year, month, day) = civil_date_from_days(days as i64);
    let mut s = String::new();
    push_padded(&mut s, year as u64, 4);
    s.append("-");
    push_padded(&mut s, month as u64, 2);
    s.append("-");
    push_padded(&mut s, day as u64, 2);
    s.append(" ");
    push_padded(&mut s, hours, 2);
    s.append(":");
    push_padded(&mut s, minutes, 2);
    s.append(":");
    push_padded(&mut s, seconds, 2);
    s.append(".");
    push_padded(&mut s, millis as u64, 3);
    s.append("Z");
    assert(s@ =~= timestamp_spec(total_secs, millis, year as int, month as int, day as int));
    s
}

// ---------------------------------------------------------------------------
// Log records
// ---------------------------------------------------------------------------

/// The last `::` segment of a log target.
pub open spec fn short_source_spec(target: Seq<char>) -> Seq<char> {
    match rsplit_once(target, "::"@) {
        Some((_, after)) => after,
        None => target,
    }
}

pub fn short_source(target: &str) -> (r: String)
    ensures
        r@ == short_source_spec(target@),
{
    let chars = chars_of(target);
    let sep = chars_of("::");
    match rsplit_once_exec(&chars, &sep) {
        Some((_, after)) => string_of(&after),
        None => String::from_str(target),
    }
}

/// `text` padded with spaces on the right to `width` characters.
pub open spec fn left_aligned(text: Seq<char>, width: nat) -> Seq<char> {
    if text.len() >= width {
        text
    } else {
        text + Seq::new((width - text.len()) as nat, |i: int| ' ')
    }
}

/// A line of the project log: `| TIME | LEVEL | SOURCE | MESSAGE`, the
/// level padded to five characters.
pub fn project_log_line(timestamp: &str, level: &str, source: &str, message: &str) -> (r: String)
    ensures
        r@ == "| "@ + timestamp@ + " | "@ + left_aligned(level@, 5) + " | "@ + source@ + " | "@
            + message@,
{
    let mut s = String::from_str("| ");
    s.append(timestamp);
    s.append(" | ");
    s.append(level);
    let n = level.unicode_len();
    let mut k = n;
    let ghost base = s@;
    while k < 5
        invariant
            n == level@.len(),
            n <= k <= 5 || (n > 5 && k == n),
            s@ == base + Seq::new((k - n) as nat, |i: int| ' '),
        decreases 5 - k,
    {
        crate::text::push_char(&mut s, ' ');
        k = k + 1;
        assert(s@ =~= base + Seq::new((k - n) as nat, |i: int| ' '));
    }
    if n >= 5 {
        assert(Seq::new(0nat, |i: int| ' ') =~= Seq::<char>::empty());
        assert(s@ =~= base);
    }
    s.append(" | ");
    s.append(source);
    s.append(" | ");
    s.append(message);
    s
}

// ---------------------------------------------------------------------------
// Log levels
// ---------------------------------------------------------------------------

/// A log level filter.
#[derive(Debug, PartialEq, Eq, Structural, Clone, Copy)]
pub enum LogLevel {
    Off,
    Error,
    Warn,
    Info,
    Debug,
    Trace,
}

pub open spec fn ascii_lower(c: char) -> char {
    if 'A' <= c && c <= 'Z' {
        ((c as u32) + 32) as char
    } else {
        c
    }
}

/// `s` equals the upper-case ASCII `name` but for the case of ASCII letters.
pub open spec fn same_ignoring_case(s: Seq<char>, name: Seq<char>) -> bool {
    s.len() == name.len() && forall|i: int| 0 <= i < s.len() ==> ascii_lower(#[trigger] s[i])
        == ascii_lower(name[i])
}

/// The level a name denotes, ignoring ASCII case.
pub open spec fn level_named(s: Seq<char>) -> Option<LogLevel> {
    if same_ignoring_case(s, "OFF"@) {
        Some(LogLevel::Off)
    } else if same_ignoring_case(s, "ERROR"@) {
        Some(LogLevel::Error)
    } else if same_ignoring_case(s, "WARN"@) {
        Some(LogLevel::Warn)
    } else if same_ignoring_case(s, "INFO"@) {
        Some(LogLevel::Info)
    } else if same_ignoring_case(s, "DEBUG"@) {
        Some(LogLevel::Debug)
    } else if same_ignoring_case(s, "TRACE"@) {
        Some(LogLevel::Trace)
    } else {
        None
    }
}

/// `LevelFilter::from_str` of the `log` crate: the filter named by `value`,
/// compared with `OFF`, `ERROR`, `WARN`, `INFO`, `DEBUG` and `TRACE`
/// ignoring ASCII case.
#[verifier::external_body]
fn parse_level_filter(value: &str) -> (r: Option<LogLevel>)
    ensures
        r == level_named(value@),
{
    match value.parse::<log::LevelFilter>() {
        Ok(log::LevelFilter::Off) => Some(LogLevel::Off),
        Ok(log::LevelFilter::Error) => Some(LogLevel::Error),
        Ok(log::LevelFilter::Warn) => Some(LogLevel::Warn),
        Ok(log::LevelFilter::Info) => Some(LogLevel::Info),
        Ok(log::LevelFilter::Debug) => Some(LogLevel::Debug),
        Ok(log::LevelFilter::Trace) => Some(LogLevel::Trace),
        Err(_) => None,
    }
}

/// The level the logger filters at: the one named (trimmed) on the command
/// line, else everything in a debug build and warnings otherwise.
pub fn filter_level(level: Option<&str>, debug_build: bool) -> (r: LogLevel)
    ensures
        r == match level {
            Some(v) => match level_named(trim_ws(v@)) {
                Some(l) => l,
                None => if debug_build {
                    LogLevel::Trace
                } else {
                    LogLevel::Warn
                },
            },
            None => if debug_build {
                LogLevel::Trace
            } else {
                LogLevel::Warn
            },
        },
{
    let default_level = if debug_build {
        LogLevel::Trace
    } else {
        LogLevel::Warn
    };
    match level {
        Some(v) => {
            let chars = chars_of(v);
            let trimmed = string_of(&trim_ws_exec(&chars));
            match parse_level_filter(trimmed.as_str()) {
                Some(l) => l,
                None => default_level,
            }
        },
        None => default_level,
    }
}

} // verus!
