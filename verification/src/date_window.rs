//! Calendar dates and the date windows that commands filter by.
//!
//! A date is held as plain year, month and day; the calendar arithmetic is
//! done by `chrono`, and its results are stated over the proleptic Gregorian
//! calendar below.
use vstd::prelude::*;
use chrono::Datelike;
use crate::error::CliError;
use crate::textops::{trim_end_seq, trim_start_seq, decimal, debug_quoted, debug_str, parse_u32, parse_u32_spec, push_char, push_decimal, to_owned, trim, trim_seq};

verus! {

/// The earliest year a date may have (`chrono`'s `MIN_YEAR`).
pub const MIN_YEAR: i32 = -262143;

/// The latest year a date may have (`chrono`'s `MAX_YEAR`).
pub const MAX_YEAR: i32 = 262142;

/// A calendar date in the proleptic Gregorian calendar.
#[derive(Debug, Clone, Copy, PartialEq, Eq, Structural)]
pub struct Date {
    pub year: i32,
    pub month: u32,
    pub day: u32,
}

/// Leap years: divisible by 4, except centuries not divisible by 400.
pub open spec fn is_leap(y: int) -> bool {
    y % 4 == 0 && (y % 100 != 0 || y % 400 == 0)
}

/// The number of days in month `m` (1..=12) of year `y`.
pub open spec fn days_in_month(y: int, m: int) -> int {
    if m == 2 {
        if is_leap(y) { 29 } else { 28 }
    } else if m == 4 || m == 6 || m == 9 || m == 11 {
        30
    } else {
        31
    }
}

/// `(y, m, d)` names a day that exists and lies in the supported year range.
pub open spec fn valid_ymd(y: int, m: int, d: int) -> bool {
    &&& MIN_YEAR <= y <= MAX_YEAR
    &&& 1 <= m <= 12
    &&& 1 <= d <= days_in_month(y, m)
}

/// The number of the day `(y, m, d)` counted from 1970-01-01 (day 0), in
/// the proleptic Gregorian calendar.
pub open spec fn day_number(y: int, m: int, d: int) -> int {
    let yy = if m <= 2 { y - 1 } else { y };
    let era = yy / 400;
    let yoe = yy - era * 400;
    let mp = if m > 2 { m - 3 } else { m + 9 };
    let doy = (153 * mp + 2) / 5 + d - 1;
    let doe = yoe * 365 + yoe / 4 - yoe / 100 + doy;
    era * 146097 + doe - 719468
}

impl Date {
    /// The date names a real day in the supported range.
    pub open spec fn is_valid(self) -> bool {
        valid_ymd(self.year as int, self.month as int, self.day as int)
    }

    /// The day number of the date (see `day_number`).
    pub open spec fn days(self) -> int {
        day_number(self.year as int, self.month as int, self.day as int)
    }

    /// The date for a year, month and day, if that day exists in the
    /// supported range (as `NaiveDate::from_ymd_opt`).
    pub fn from_ymd_opt(year: i32, month: u32, day: u32) -> (r: Option<Date>)
        ensures
            r is Some <==> valid_ymd(year as int, month as int, day as int),
            r matches Some(d) ==> d.year == year && d.month == month && d.day == day,
    {
        if year < MIN_YEAR || year > MAX_YEAR || month < 1 || month > 12 || day < 1 {
            return None;
        }
        if day <= month_length(year, month) {
            Some(Date { year, month, day })
        } else {
            None
        }
    }
}

/// Whether `year` is a leap year.
fn leap_year(year: i32) -> (r: bool)
    requires
        MIN_YEAR <= year <= MAX_YEAR,
    ensures
        r == is_leap(year as int),
{
    // Shift by a multiple of 400 so that the remainders are taken of a
    // non-negative number; that keeps every remainder below unchanged.
    let shifted: u32 = (year + 400000) as u32;
    proof {
        let y = year as int;
        assert((y + 400000) % 4 == y % 4);
        assert((y + 400000) % 100 == y % 100);
        assert((y + 400000) % 400 == y % 400);
    }
    shifted % 4 == 0 && (shifted % 100 != 0 || shifted % 400 == 0)
}

/// The number of days in `month` of `year`.
fn month_length(year: i32, month: u32) -> (r: u32)
    requires
        MIN_YEAR <= year <= MAX_YEAR,
        1 <= month <= 12,
    ensures
        r == days_in_month(year as int, month as int),
{
    if month == 2 {
        if leap_year(year) { 29 } else { 28 }
    } else if month == 4 || month == 6 || month == 9 || month == 11 {
        30
    } else {
        31
    }
}


// ---------------------------------------------------------------------------
// Calendar arithmetic (by chrono)
// ---------------------------------------------------------------------------

/// `date` moved back by `months` calendar months, the day clamped to the
/// length of the month reached; `None` when the year reached leaves the
/// supported range.
pub open spec fn months_before_spec(date: Date, months: int) -> Option<Date> {
    let total = date.year * 12 + (date.month - 1) - months;
    let y = total / 12;
    let m = total % 12 + 1;
    if MIN_YEAR <= y <= MAX_YEAR {
        let last = days_in_month(y, m);
        Some(Date { year: y as i32, month: m as u32, day: if date.day <= last { date.day } else { last as u32 } })
    } else {
        None
    }
}

/// The day number of the earliest supported date, `MIN_YEAR`-01-01.
pub open spec fn first_day_number() -> int {
    day_number(MIN_YEAR as int, 1, 1)
}

/// `date` moved back by `months` months.
///
/// Trusted: calls `NaiveDate::checked_sub_months`. The contract restates the
/// arithmetic of chrono's `diff_months`: the month index `year * 12 + month - 1`
/// is lowered by `months`, split back into year and month, the day is clamped
/// to the month's length, and `None` comes when the year leaves chrono's range
/// (its guards for more than `i32::MAX` months and for `i32` overflow only
/// ever fire on such years).
#[verifier::external_body]
fn months_before(date: Date, months: u32) -> (r: Option<Date>)
    requires
        date.is_valid(),
    ensures
        r == months_before_spec(date, months as int),
{
    let start = chrono::NaiveDate::from_ymd_opt(date.year, date.month, date.day).unwrap();
    match start.checked_sub_months(chrono::Months::new(months)) {
        Some(x) => Some(Date { year: x.year(), month: x.month(), day: x.day() }),
        None => None,
    }
}

/// `date` moved back by `days` days.
///
/// Trusted: calls `NaiveDate::checked_sub_signed` with `Duration::days(days)`.
/// The contract says the result lies exactly `days` days earlier in the
/// proleptic Gregorian calendar, and that `None` comes exactly when that day
/// falls before chrono's earliest date.
#[verifier::external_body]
fn days_before(date: Date, days: u32) -> (r: Option<Date>)
    requires
        date.is_valid(),
    ensures
        match r {
            Some(x) => x.is_valid() && x.days() == date.days() - days,
            None => date.days() - days < first_day_number(),
        },
{
    let start = chrono::NaiveDate::from_ymd_opt(date.year, date.month, date.day).unwrap();
    match start.checked_sub_signed(chrono::Duration::days(days as i64)) {
        Some(x) => Some(Date { year: x.year(), month: x.month(), day: x.day() }),
        None => None,
    }
}

/// What `NaiveDate::parse_from_str(text, "%Y-%m-%d")` reads from `text`, as
/// year, month and day.
pub uninterp spec fn parsed_ymd(text: Seq<char>) -> Option<(i32, u32, u32)>;

/// Reads a `YYYY-MM-DD` date.
///
/// Trusted: calls `NaiveDate::parse_from_str` with the format `%Y-%m-%d`.
/// The contract names the result (`parsed_ymd`) and adds only that a date it
/// returns exists, as every `NaiveDate` does; chrono's parsing rules are not
/// stated.
#[verifier::external_body]
pub(crate) fn parse_ymd(text: &str) -> (r: Option<(i32, u32, u32)>)
    ensures
        r == parsed_ymd(text@),
        r matches Some(t) ==> valid_ymd(t.0 as int, t.1 as int, t.2 as int),
{
    match chrono::NaiveDate::parse_from_str(text, "%Y-%m-%d") {
        Ok(x) => Some((x.year(), x.month(), x.day())),
        Err(_) => None,
    }
}


// ---------------------------------------------------------------------------
// Windows and look-backs
// ---------------------------------------------------------------------------

/// Returns `(date_from, date_to)` where `date_to` is `now` and `date_from` is
/// `now` minus six months, the day clamped to the last valid day of the month
/// reached (so Aug 31 becomes Feb 28 in a non-leap year).
pub fn default_window(now: Date) -> (r: (Date, Date))
    requires
        now.is_valid(),
        months_before_spec(now, 6) is Some,
    ensures
        r.0 == months_before_spec(now, 6)->Some_0,
        r.1 == now,
{
    let from = months_before(now, 6);
    match from {
        Some(d) => (d, now),
        None => (now, now),
    }
}

/// The message for a date that is not `YYYY-MM-DD`.
pub open spec fn date_error_message(flag: Seq<char>, input: Seq<char>) -> Seq<char> {
    "invalid "@ + flag + " value "@ + debug_str(input) + "; expected YYYY-MM-DD"@
}

/// What a date option gives once its text was read: the date read, or the
/// usage error naming the option and the text.
pub fn date_from_parsed(parsed: Option<(i32, u32, u32)>, input: &str, flag_name: &str) -> (r: Result<Date, CliError>)
    ensures
        match parsed {
            Some(t) => r == Ok::<Date, CliError>(Date { year: t.0, month: t.1, day: t.2 }),
            None => r matches Err(CliError::Usage(m)) && m@ == date_error_message(flag_name@, input@),
        },
{
    match parsed {
        Some((year, month, day)) => Ok(Date { year, month, day }),
        None => {
            let mut m = to_owned("invalid ");
            m.append(flag_name);
            m.append(" value ");
            let q = debug_quoted(input);
            m.append(q.as_str());
            m.append("; expected YYYY-MM-DD");
            Err(CliError::Usage(m))
        },
    }
}

/// Reads the value of a date option, `YYYY-MM-DD`.
pub fn parse_date(input: &str, flag_name: &str) -> (r: Result<Date, CliError>)
    ensures
        match parsed_ymd(input@) {
            Some(t) => r == Ok::<Date, CliError>(Date { year: t.0, month: t.1, day: t.2 }),
            None => r matches Err(CliError::Usage(m)) && m@ == date_error_message(flag_name@, input@),
        },
        r matches Ok(d) ==> d.is_valid(),
{
    let parsed = parse_ymd(input);
    date_from_parsed(parsed, input, flag_name)
}

/// The unit letter and the amount of a look-back text such as `14d`: the
/// last character of the trimmed text and the positive number before it.
pub open spec fn duration_parts(text: Seq<char>) -> Option<(char, u32)> {
    let t = trim_seq(text);
    if t.len() < 2 {
        None
    } else {
        match parse_u32_spec(t.drop_last()) {
            Some(a) => if a == 0 { None } else { Some((t.last(), a)) },
            None => None,
        }
    }
}

/// Whether `r` is the start date that the look-back `text` gives from
/// `today` (`None` for a rejected text): `d` and `w` go back days (seven per
/// week), `m` and `y` go back calendar months (twelve per year); an amount
/// that overflows `u32` once scaled, or a date before the supported range, is
/// rejected.
pub open spec fn duration_start_result(text: Seq<char>, today: Date, r: Option<Date>) -> bool {
    match duration_parts(text) {
        None => r is None,
        Some((unit, amount)) => {
            if unit == 'd' || unit == 'w' {
                let n: int = if unit == 'd' { amount as int } else { 7 * amount };
                if n > u32::MAX || today.days() - n < first_day_number() {
                    r is None
                } else {
                    r matches Some(x) && x.is_valid() && x.days() == today.days() - n
                }
            } else if unit == 'm' || unit == 'y' {
                let k: int = if unit == 'm' { amount as int } else { 12 * amount };
                if k > u32::MAX {
                    r is None
                } else {
                    r == months_before_spec(today, k)
                }
            } else {
                r is None
            }
        },
    }
}

/// The message for a look-back text that cannot be used.
pub open spec fn duration_error_message(flag: Seq<char>, input: Seq<char>) -> Seq<char> {
    "invalid "@ + flag + " value "@ + debug_str(input)
        + "; expected a duration like 14d, 2w, 6m, or 1y"@
}

/// The usage error for a look-back text that cannot be used.
fn invalid_duration(flag_name: &str, input: &str) -> (r: CliError)
    ensures
        r matches CliError::Usage(m) && m@ == duration_error_message(flag_name@, input@),
{
    let mut m = to_owned("invalid ");
    m.append(flag_name);
    m.append(" value ");
    let q = debug_quoted(input);
    m.append(q.as_str());
    m.append("; expected a duration like 14d, 2w, 6m, or 1y");
    CliError::Usage(m)
}

/// The start date of a look-back such as `14d`, `2w`, `6m` or `1y`, counted
/// back from `today`.
pub fn parse_duration_start(input: &str, today: Date, flag_name: &str) -> (r: Result<Date, CliError>)
    requires
        today.is_valid(),
        trim_seq(input@).len() > 0 ==> (trim_seq(input@).last() as u32) < 128,
    ensures
        match r {
            Ok(d) => duration_start_result(input@, today, Some(d)),
            Err(e) => duration_start_result(input@, today, None) && (e matches CliError::Usage(m)
                && m@ == duration_error_message(flag_name@, input@)),
        },
{
    let t = trim(input);
    let n = t.unicode_len();
    if n < 2 {
        return Err(invalid_duration(flag_name, input));
    }
    let amount_text = t.substring_char(0, n - 1);
    let unit = t.get_char(n - 1);
    proof {
        assert(amount_text@ =~= t@.drop_last());
    }
    let amount = match parse_u32(amount_text) {
        Some(a) => a,
        None => return Err(invalid_duration(flag_name, input)),
    };
    if amount == 0 {
        return Err(invalid_duration(flag_name, input));
    }
    if unit == 'd' || unit == 'w' {
        let days = if unit == 'd' {
            amount
        } else {
            match amount.checked_mul(7) {
                Some(v) => v,
                None => return Err(invalid_duration(flag_name, input)),
            }
        };
        match days_before(today, days) {
            Some(d) => Ok(d),
            None => Err(invalid_duration(flag_name, input)),
        }
    } else if unit == 'm' || unit == 'y' {
        let months = if unit == 'm' {
            amount
        } else {
            match amount.checked_mul(12) {
                Some(v) => v,
                None => return Err(invalid_duration(flag_name, input)),
            }
        };
        match months_before(today, months) {
            Some(d) => Ok(d),
            None => Err(invalid_duration(flag_name, input)),
        }
    } else {
        Err(invalid_duration(flag_name, input))
    }
}


// ---------------------------------------------------------------------------
// Order and text
// ---------------------------------------------------------------------------

/// `a` is an earlier day than `b`.
pub open spec fn date_before(a: Date, b: Date) -> bool {
    a.year < b.year || (a.year == b.year && (a.month < b.month || (a.month == b.month && a.day < b.day)))
}

/// Whether `a` is an earlier day than `b`.
pub fn is_before(a: Date, b: Date) -> (r: bool)
    ensures
        r == date_before(a, b),
{
    a.year < b.year || (a.year == b.year && (a.month < b.month || (a.month == b.month && a.day < b.day)))
}

/// The decimal digits of `n`, zero-padded on the left to `width` digits.
pub open spec fn padded(n: nat, width: nat) -> Seq<char> {
    if decimal(n).len() < width {
        Seq::new((width - decimal(n).len()) as nat, |i: int| '0') + decimal(n)
    } else {
        decimal(n)
    }
}

/// A year as chrono writes it: four digits for years 0 to 9999, otherwise a
/// sign and at least four digits.
pub open spec fn year_text(y: int) -> Seq<char> {
    if 0 <= y <= 9999 {
        padded(y as nat, 4)
    } else if y < 0 {
        seq!['-'] + padded((-y) as nat, 4)
    } else {
        seq!['+'] + padded(y as nat, 4)
    }
}

/// A date as `YYYY-MM-DD` (chrono's `Display` and its `%Y-%m-%d` format).
pub open spec fn date_text(d: Date) -> Seq<char> {
    year_text(d.year as int) + seq!['-'] + padded(d.month as nat, 2) + seq!['-'] + padded(d.day as nat, 2)
}

/// Appends `n` zero-padded to `width` digits.
fn push_padded(out: &mut String, n: u64, width: usize)
    ensures
        final(out)@ == old(out)@ + padded(n as nat, width as nat),
{
    let mut digits = String::new();
    push_decimal(&mut digits, n);
    proof {
        assert(digits@ =~= decimal(n as nat));
    }
    let k = digits.unicode_len();
    let ghost start = out@;
    if k < width {
        let mut i: usize = k;
        while i < width
            invariant
                k <= i <= width,
                k == decimal(n as nat).len(),
                out@ =~= start + Seq::new((i - k) as nat, |j: int| '0'),
            decreases width - i,
        {
            push_char(out, '0');
            i = i + 1;
        }
    }
    out.append(digits.as_str());
}

impl Date {
    /// The date as `YYYY-MM-DD`.
    pub fn to_text(&self) -> (r: String)
        ensures
            r@ == date_text(*self),
    {
        let mut out = String::new();
        if 0 <= self.year && self.year <= 9999 {
            push_padded(&mut out, self.year as u64, 4);
        } else if self.year < 0 {
            push_char(&mut out, '-');
            let y: i64 = self.year as i64;
            push_padded(&mut out, (0 - y) as u64, 4);
        } else {
            push_char(&mut out, '+');
            push_padded(&mut out, self.year as u64, 4);
        }
        push_char(&mut out, '-');
        push_padded(&mut out, self.month as u64, 2);
        push_char(&mut out, '-');
        push_padded(&mut out, self.day as u64, 2);
        out
    }
}


// ---------------------------------------------------------------------------
// Command windows
// ---------------------------------------------------------------------------

/// The message when a window would end before it starts.
pub open spec fn window_order_message(from: Date, to: Date) -> Seq<char> {
    "--from ("@ + date_text(from) + ") must be on or before --to ("@ + date_text(to) + ")"@
}

/// The window `services list` asks for: it ends on `to` (today when not
/// given) and starts on `from` (six months before the end when not given);
/// a start after the end is a usage error.
pub fn services_window(today: Date, from: Option<Date>, to: Option<Date>) -> (r: Result<(Date, Date), CliError>)
    requires
        from is None ==> (match to {
            Some(t) => t,
            None => today,
        }).is_valid() && months_before_spec(
            match to {
                Some(t) => t,
                None => today,
            },
            6,
        ) is Some,
    ensures
        ({
            let end = match to {
                Some(t) => t,
                None => today,
            };
            let start = match from {
                Some(f) => f,
                None => months_before_spec(end, 6)->Some_0,
            };
            if date_before(end, start) {
                r matches Err(CliError::Usage(m)) && m@ == window_order_message(start, end)
            } else {
                r == Ok::<(Date, Date), CliError>((start, end))
            }
        }),
{
    let end = match to {
        Some(t) => t,
        None => today,
    };
    let start = match from {
        Some(f) => f,
        None => default_window(end).0,
    };
    if is_before(end, start) {
        let mut m = to_owned("--from (");
        let a = start.to_text();
        m.append(a.as_str());
        m.append(") must be on or before --to (");
        let b = end.to_text();
        m.append(b.as_str());
        m.append(")");
        Err(CliError::Usage(m))
    } else {
        Ok((start, end))
    }
}

/// The window `services song-usage` looks at: it ends on `to` (today when
/// not given) and starts on `from` (twelve months before the end when not
/// given, or the end itself when that falls outside the supported range).
pub fn usage_window(today: Date, from: Option<Date>, to: Option<Date>) -> (r: (Date, Date))
    requires
        from is None ==> (match to {
            Some(t) => t,
            None => today,
        }).is_valid(),
    ensures
        ({
            let end = match to {
                Some(t) => t,
                None => today,
            };
            r.1 == end && r.0 == match from {
                Some(f) => f,
                None => match months_before_spec(end, 12) {
                    Some(d) => d,
                    None => end,
                },
            }
        }),
{
    let end = match to {
        Some(t) => t,
        None => today,
    };
    let start = match from {
        Some(f) => f,
        None => match months_before(end, 12) {
            Some(d) => d,
            None => end,
        },
    };
    (start, end)
}

/// The earlier of two days.
pub open spec fn earlier(a: Date, b: Date) -> Date {
    if date_before(b, a) { b } else { a }
}

/// From when `songs list` looks at services to find each song's last use:
/// the earlier of the usage-filter starts when any is given, else one year
/// back from today.
pub fn usage_lookback(today: Date, used_start: Option<Date>, not_used_start: Option<Date>) -> (r: Result<Date, CliError>)
    requires
        today.is_valid(),
    ensures
        match (used_start, not_used_start) {
            (Some(a), Some(b)) => r == Ok::<Date, CliError>(earlier(a, b)),
            (Some(a), None) => r == Ok::<Date, CliError>(a),
            (None, Some(b)) => r == Ok::<Date, CliError>(b),
            (None, None) => match r {
                Ok(d) => duration_start_result("1y"@, today, Some(d)),
                Err(e) => duration_start_result("1y"@, today, None) && (e matches CliError::Usage(m)
                    && m@ == duration_error_message("--last-used"@, "1y"@)),
            },
        },
{
    match (used_start, not_used_start) {
        (Some(a), Some(b)) => Ok(if is_before(b, a) { b } else { a }),
        (Some(a), None) => Ok(a),
        (None, Some(b)) => Ok(b),
        (None, None) => {
            proof {
                reveal_strlit("1y");
                assert(trim_seq("1y"@) == "1y"@) by {
                    reveal_with_fuel(trim_start_seq, 2);
                    reveal_with_fuel(trim_end_seq, 2);
                }
            }
            parse_duration_start("1y", today, "--last-used")
        },
    }
}

} // verus!
