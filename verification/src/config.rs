//! User settings and the timestamps of log lines.

use vstd::prelude::*;

verus! {

/// User settings.
#[derive(Debug, Clone)]
pub struct Config {
    pub install_folder: Option<String>,
    pub store_type: Option<String>,
    pub close_on_finish: bool,
    pub language_code: Option<String>,
    /// Show a confirmation dialog before uninstalling mods (default: true).
    pub confirm_uninstall: bool,
    /// Show all broken/retired API mods in a single "Broken / Retired"
    /// category instead of their normal category (default: true).
    pub show_broken_retired_category: bool,
    /// Show mods whose files are in Mods/~Broken or Mods/~Retired (default: false).
    pub show_quarantined_mods: bool,
    /// Whether the user has already seen the Debug tab intro dialog (default: false).
    pub debug_intro_shown: bool,
    /// Automatically install missing dependencies with a mod (default: true).
    pub auto_install_deps: bool,
}

/// The default of the settings that default to on.
pub fn default_true() -> (r: bool)
    ensures
        r,
{
    true
}

impl Default for Config {
    fn default() -> (c: Self)
        ensures
            c.install_folder is None,
            c.store_type is None,
            !c.close_on_finish,
            c.language_code is None,
            c.confirm_uninstall,
            c.show_broken_retired_category,
            !c.show_quarantined_mods,
            !c.debug_intro_shown,
            c.auto_install_deps,
    {
        Config {
            install_folder: None,
            store_type: None,
            close_on_finish: false,
            language_code: None,
            confirm_uninstall: true,
            show_broken_retired_category: true,
            show_quarantined_mods: false,
            debug_intro_shown: false,
            auto_install_deps: true,
        }
    }
}

} // verus!

verus! {

/// Gregorian leap year.
pub open spec fn spec_is_leap(y: int) -> bool {
    (y % 4 == 0 && y % 100 != 0) || y % 400 == 0
}

/// Days in year `y`.
pub open spec fn year_days(y: int) -> int {
    if spec_is_leap(y) { 366 } else { 365 }
}

/// Days in month `m` (1 to 12) of year `y`.
pub open spec fn month_days(y: int, m: int) -> int {
    if m == 2 {
        if spec_is_leap(y) { 29 } else { 28 }
    } else if m == 4 || m == 6 || m == 9 || m == 11 {
        30
    } else {
        31
    }
}

/// Counting `days` whole years forward from the start of year `y`: the year
/// reached and the days left over in it.
pub open spec fn year_from(days: int, y: int) -> (int, int)
    decreases days,
{
    if days < year_days(y) || days < 0 {
        (y, days)
    } else {
        year_from(days - year_days(y), y + 1)
    }
}

/// Counting `days` whole months forward from month `m` of year `y`: the
/// month reached and the days left over in it.
pub open spec fn month_from(days: int, y: int, m: int) -> (int, int)
    decreases 13 - m,
{
    if m > 12 || days < month_days(y, m) {
        (m, days)
    } else {
        month_from(days - month_days(y, m), y, m + 1)
    }
}

/// The UTC calendar fields (year, month, day, hour, minute, second) of a
/// UNIX timestamp.
pub open spec fn utc_fields(secs: int) -> (int, int, int, int, int, int) {
    let (year, rem) = year_from(secs / 86400, 1970);
    let (month, drem) = month_from(rem, year, 1);
    let t = secs % 86400;
    (year, month, drem + 1, t / 3600, (t % 3600) / 60, t % 60)
}

/// Whether `y` is a Gregorian leap year.
pub fn is_leap(y: u64) -> (r: bool)
    ensures
        r == spec_is_leap(y as int),
{
    (y % 4 == 0 && y % 100 != 0) || (y % 400 == 0)
}

fn days_in_month(y: u64, m: u64) -> (r: u64)
    ensures
        r == month_days(y as int, m as int),
{
    if m == 2 {
        if is_leap(y) { 29 } else { 28 }
    } else if m == 4 || m == 6 || m == 9 || m == 11 {
        30
    } else {
        31
    }
}

/// The UTC calendar fields of a UNIX timestamp.
fn utc_fields_of(secs: u64) -> (r: (u64, u64, u64, u64, u64, u64))
    ensures
        (r.0 as int, r.1 as int, r.2 as int, r.3 as int, r.4 as int, r.5 as int) == utc_fields(secs as int),
{
    let days_since_epoch = secs / 86400;
    let time_of_day = secs % 86400;
    let hh = time_of_day / 3600;
    let mm = (time_of_day % 3600) / 60;
    let ss = time_of_day % 60;
    let mut year: u64 = 1970;
    let mut remaining_days = days_since_epoch;
    loop
        invariant
            days_since_epoch == secs / 86400,
            remaining_days <= days_since_epoch,
            1970 <= year <= 1970 + (days_since_epoch - remaining_days),
            days_since_epoch <= 0x0010_0000_0000_0000,
            year_from(days_since_epoch as int, 1970) == year_from(remaining_days as int, year as int),
        ensures
            year_from(days_since_epoch as int, 1970) == (year as int, remaining_days as int),
            remaining_days < year_days(year as int),
        decreases remaining_days,
    {
        let days_in_year: u64 = if is_leap(year) { 366 } else { 365 };
        if remaining_days < days_in_year {
            break;
        }
        remaining_days = remaining_days - days_in_year;
        year = year + 1;
    }
    let mut month: u64 = 1;
    let mut rem_m = remaining_days;
    loop
        invariant
            1 <= month <= 13,
            rem_m <= remaining_days,
            month_from(remaining_days as int, year as int, 1) == month_from(rem_m as int, year as int, month as int),
        ensures
            month_from(remaining_days as int, year as int, 1) == (month as int, rem_m as int),
        decreases 13 - month,
    {
        if month > 12 {
            break;
        }
        let md = days_in_month(year, month);
        if rem_m < md {
            break;
        }
        rem_m = rem_m - md;
        month = month + 1;
    }
    (year, month, rem_m + 1, hh, mm, ss)
}

} // verus!

verus! {

/// "YYYY-MM-DD hh:mm:ss" for the given calendar fields (each zero-padded).
pub open spec fn timestamp_text(f: (int, int, int, int, int, int)) -> Seq<char> {
    crate::text::zero_padded(f.0 as nat, 4) + seq!['-'] + crate::text::zero_padded(f.1 as nat, 2) + seq!['-']
        + crate::text::zero_padded(f.2 as nat, 2) + seq![' '] + crate::text::zero_padded(f.3 as nat, 2) + seq![':']
        + crate::text::zero_padded(f.4 as nat, 2) + seq![':'] + crate::text::zero_padded(f.5 as nat, 2)
}

/// Converts a UNIX timestamp (seconds) to a UTC "YYYY-MM-DD hh:mm:ss" string.
pub fn unix_secs_to_timestamp(secs: u64) -> (r: String)
    ensures
        r@ == timestamp_text(utc_fields(secs as int)),
{
    let (year, month, day, hh, mm, ss) = utc_fields_of(secs);
    let mut out: Vec<char> = Vec::new();
    crate::text::push_zero_padded(&mut out, year, 4);
    out.push('-');
    crate::text::push_zero_padded(&mut out, month, 2);
    out.push('-');
    crate::text::push_zero_padded(&mut out, day, 2);
    out.push(' ');
    crate::text::push_zero_padded(&mut out, hh, 2);
    out.push(':');
    crate::text::push_zero_padded(&mut out, mm, 2);
    out.push(':');
    crate::text::push_zero_padded(&mut out, ss, 2);
    proof {
        let f = utc_fields(secs as int);
        assert(out@ =~= timestamp_text(f));
    }
    crate::text::string_from_chars(out.as_slice())
}

/// A line of the log file: "[<timestamp>][<SEVERITY>] <message>" and a newline.
pub open spec fn spec_log_line(timestamp: Seq<char>, severity: Seq<char>, message: Seq<char>) -> Seq<char> {
    seq!['['] + timestamp + seq![']', '['] + crate::text::unicode_uppercase(severity) + seq![']', ' '] + message + seq!['\n']
}

/// The log file line for `message` logged with `severity` at time `secs`
/// (seconds since the UNIX epoch): the UTC timestamp, the severity in
/// uppercase, then the message.
pub fn log_line(secs: u64, severity: &str, message: &str) -> (r: String)
    ensures
        r@ == spec_log_line(timestamp_text(utc_fields(secs as int)), severity@, message@),
{
    let ts = unix_secs_to_timestamp(secs);
    let up = crate::text::to_uppercase(severity);
    let mut out: Vec<char> = Vec::new();
    out.push('[');
    let t = crate::text::chars_of(ts.as_str());
    crate::log_scanner::append_chars(&mut out, t.as_slice());
    out.push(']');
    out.push('[');
    let u = crate::text::chars_of(up.as_str());
    crate::log_scanner::append_chars(&mut out, u.as_slice());
    out.push(']');
    out.push(' ');
    let m = crate::text::chars_of(message);
    crate::log_scanner::append_chars(&mut out, m.as_slice());
    out.push('\n');
    assert(out@ =~= spec_log_line(ts@, severity@, message@));
    crate::text::string_from_chars(out.as_slice())
}

/// Days from 1970-01-01 to the start of year `y`.
pub open spec fn days_before_year(y: int) -> int
    decreases y - 1970,
{
    if y <= 1970 {
        0
    } else {
        days_before_year(y - 1) + year_days(y - 1)
    }
}

/// Days from the start of year `y` to the start of month `m`.
pub open spec fn days_before_month(y: int, m: int) -> int
    decreases m,
{
    if m <= 1 {
        0
    } else {
        days_before_month(y, m - 1) + month_days(y, m - 1)
    }
}

proof fn lemma_year_from(days: int, y: int)
    requires
        days >= 0,
        y >= 1970,
    ensures
        ({
            let (yr, rem) = year_from(days, y);
            &&& yr >= y
            &&& 0 <= rem < year_days(yr)
            &&& days_before_year(y) + days == days_before_year(yr) + rem
        }),
    decreases days,
{
    if days >= year_days(y) {
        lemma_year_from(days - year_days(y), y + 1);
    }
}

proof fn lemma_month_days_total(y: int)
    ensures
        days_before_month(y, 13) == year_days(y),
{
    reveal_with_fuel(days_before_month, 13);
}

proof fn lemma_month_from(days: int, y: int, m: int)
    requires
        1 <= m <= 13,
        0 <= days,
        days_before_month(y, m) + days < year_days(y),
    ensures
        ({
            let (mo, rem) = month_from(days, y, m);
            &&& m <= mo <= 12
            &&& 0 <= rem < month_days(y, mo)
            &&& days_before_month(y, m) + days == days_before_month(y, mo) + rem
        }),
    decreases 13 - m,
{
    lemma_month_days_total(y);
    if m > 12 {
        assert(days_before_month(y, m) == year_days(y));
    } else if days >= month_days(y, m) {
        lemma_month_from(days - month_days(y, m), y, m + 1);
    }
}

/// The calendar fields of any timestamp form a valid UTC date and time from
/// 1970 on, and they add back up to the timestamp: whole days before the
/// year and month, the day of the month, then hours, minutes and seconds.
pub proof fn law_timestamp_fields_roundtrip(secs: nat)
    ensures
        ({
            let (year, month, day, hh, mm, ss) = utc_fields(secs as int);
            &&& year >= 1970
            &&& 1 <= month <= 12
            &&& 1 <= day <= month_days(year, month)
            &&& 0 <= hh < 24 && 0 <= mm < 60 && 0 <= ss < 60
            &&& (days_before_year(year) + days_before_month(year, month) + day - 1) * 86400 + hh * 3600 + mm * 60 + ss == secs
        }),
{
    let days = secs as int / 86400;
    lemma_year_from(days, 1970);
    let (year, rem) = year_from(days, 1970);
    lemma_month_from(rem, year, 1);
    let t = secs as int % 86400;
    assert(t == (t / 3600) * 3600 + ((t % 3600) / 60) * 60 + t % 60);
}

} // verus!
