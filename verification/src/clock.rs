//! Dates as the history views print them: relative ages ("14m ago") from a
//! clock reading, and the local wall-clock stamp for older dates.

use vstd::prelude::*;

use chrono::{DateTime, Local, TimeZone, Utc};

use crate::text::{all_digits, decimal, digit, digits_value, push_decimal, push_str};

verus! {

/// The local clock now, as seconds since the epoch: `chrono::Local::now()`
/// read as a UNIX timestamp. Nothing is stated of the reading.
#[verifier::external_body]
pub(crate) fn now_secs() -> (r: i64) {
    Local::now().timestamp()
}

/// The strftime patterns the history views print dates with.
pub open spec fn known_pattern(p: Seq<char>) -> bool {
    p == "%Y-%m-%d %H:%M"@ || p == "%Y-%m-%d"@
}

/// Timestamps whose local date lies in the years 1 to 9999 on every time
/// zone: from 0001-01-02 00:00 UTC to before 9999-12-31 00:00 UTC (a local
/// offset is less than a day).
pub open spec fn four_digit_years(t: int) -> bool {
    -62135510400 <= t < 253402214400
}

/// The two digits of `s` from `i` on, valued within `lo..=hi`.
pub open spec fn two_digits_within(s: Seq<char>, i: int, lo: nat, hi: nat) -> bool {
    &&& all_digits(s.subrange(i, i + 2))
    &&& lo <= digits_value(s.subrange(i, i + 2)) <= hi
}

/// A date as chrono writes `%Y-%m-%d` for a year from 1 to 9999: four year
/// digits, the month `01`–`12` and the day `01`–`31`.
pub open spec fn is_date_text(s: Seq<char>) -> bool {
    &&& s.len() == 10
    &&& all_digits(s.subrange(0, 4))
    &&& s[4] == '-'
    &&& two_digits_within(s, 5, 1, 12)
    &&& s[7] == '-'
    &&& two_digits_within(s, 8, 1, 31)
}

/// A date and time as chrono writes `%Y-%m-%d %H:%M` for a year from 1 to
/// 9999: the date, a space, the hour `00`–`23`, `:` and the minute `00`–`59`.
pub open spec fn is_date_time_text(s: Seq<char>) -> bool {
    &&& s.len() == 16
    &&& is_date_text(s.take(10))
    &&& s[10] == ' '
    &&& two_digits_within(s, 11, 0, 23)
    &&& s[13] == ':'
    &&& two_digits_within(s, 14, 0, 59)
}

/// The text a known pattern gives.
pub open spec fn stamp_text(s: Seq<char>, pattern: Seq<char>) -> bool {
    if pattern == "%Y-%m-%d %H:%M"@ {
        is_date_time_text(s)
    } else {
        is_date_text(s)
    }
}

/// The proleptic Gregorian (year, month, day) of the day `z` days after
/// 1970-01-01.
pub open spec fn civil_from_days(z: int) -> (int, int, int) {
    let z0 = z + 719468;
    let era = z0 / 146097;
    let doe = z0 - era * 146097;
    let yoe = (doe - doe / 1460 + doe / 36524 - doe / 146096) / 365;
    let doy = doe - (365 * yoe + yoe / 4 - yoe / 100);
    let mp = (5 * doy + 2) / 153;
    let d = doy - (153 * mp + 2) / 5 + 1;
    let m = if mp < 10 {
        mp + 3
    } else {
        mp - 9
    };
    (yoe + era * 400 + (if m <= 2 {
        1int
    } else {
        0int
    }), m, d)
}

/// The last `width` decimal digits of `n`, zero-padded.
pub open spec fn padded(n: int, width: nat) -> Seq<char>
    decreases width,
{
    if width == 0 {
        seq![]
    } else {
        padded(n / 10, (width - 1) as nat).push(digit(n % 10))
    }
}

/// The date `%Y-%m-%d` writes for `s` seconds since the epoch (a year of
/// four digits).
pub open spec fn date_text_of(s: int) -> Seq<char> {
    let (y, m, d) = civil_from_days(s / 86400);
    padded(y, 4) + "-"@ + padded(m, 2) + "-"@ + padded(d, 2)
}

/// The date and time `%Y-%m-%d %H:%M` writes for `s` seconds since the epoch.
pub open spec fn date_time_text_of(s: int) -> Seq<char> {
    let sod = s % 86400;
    date_text_of(s) + " "@ + padded(sod / 3600, 2) + ":"@ + padded(sod % 3600 / 60, 2)
}

/// The local date and time of `t` on a clock `off` seconds ahead of UTC.
pub open spec fn local_date_time(t: int, off: int) -> Seq<char> {
    date_time_text_of(t + off)
}

/// The local date of `t` on a clock `off` seconds ahead of UTC.
pub open spec fn local_date(t: int, off: int) -> Seq<char> {
    date_text_of(t + off)
}

/// What a known pattern writes for `t` on a clock `off` seconds ahead of UTC.
pub open spec fn stamp_for(t: int, off: int, pattern: Seq<char>) -> Seq<char> {
    if pattern == "%Y-%m-%d %H:%M"@ {
        local_date_time(t, off)
    } else {
        local_date(t, off)
    }
}

/// `s` is what `pattern` writes for `t` on some clock less than a day off
/// UTC.
pub open spec fn stamp_within_a_day(t: int, pattern: Seq<char>, s: Seq<char>) -> bool {
    exists|off: int| offset_ok(off) && #[trigger] stamp_for(t, off, pattern) == s
}

/// A local offset chrono can hold: less than a day either way.
pub open spec fn offset_ok(off: int) -> bool {
    -86400 < off < 86400
}

/// `t` (seconds since the epoch) on the machine's local wall clock, written
/// with `pattern`: chrono's `Utc.timestamp_opt(t, 0)`, converted into
/// `DateTime<Local>` and formatted; `None` where chrono has no date for `t`.
/// The contract claims what chrono documents: `timestamp_opt` gives a date
/// for every timestamp in its range; the local time is UTC shifted by the
/// zone's `FixedOffset`, which `east_opt` keeps under a day either way; and
/// `%Y`, `%m`, `%d`, `%H`, `%M` write the zero-padded proleptic Gregorian
/// year (four digits from 1 to 9999), month, day, hour and minute. Which
/// offset applies depends on the machine's time zone and is left unsaid. The patterns are the two
/// valid ones the views use, since formatting with an invalid one panics.
#[verifier::external_body]
pub(crate) fn local_stamp(t: i64, pattern: &str) -> (r: Option<String>)
    requires
        known_pattern(pattern@),
    ensures
        four_digit_years(t as int) ==> r is Some && stamp_text(r.unwrap()@, pattern@),
        four_digit_years(t as int) ==> stamp_within_a_day(t as int, pattern@, r.unwrap()@),
{
    match Utc.timestamp_opt(t, 0) {
        chrono::LocalResult::Single(dt) => Some(DateTime::<Local>::from(dt).format(pattern).to_string()),
        _ => None,
    }
}

/// Decimal rendering of an integer, with a leading `-` when negative.
pub open spec fn signed_decimal(d: int) -> Seq<char> {
    if d < 0 {
        "-"@ + decimal((-d) as nat)
    } else {
        decimal(d as nat)
    }
}

/// The relative age of something `d` seconds old: seconds under a minute,
/// then whole minutes, hours and days; none from thirty days on.
pub open spec fn age_spec(d: int) -> Option<Seq<char>> {
    if d < 60 {
        Some(signed_decimal(d) + "s ago"@)
    } else if d < 3600 {
        Some(decimal((d / 60) as nat) + "m ago"@)
    } else if d < 86400 {
        Some(decimal((d / 3600) as nat) + "h ago"@)
    } else if d < 2592000 {
        Some(decimal((d / 86400) as nat) + "d ago"@)
    } else {
        None
    }
}

/// The relative age of timestamp `t` at the clock reading `now`.
pub open spec fn age_at(now: int, t: int) -> Option<Seq<char>> {
    age_spec(now - t)
}

/// The relative age of a timestamp `t` at the clock reading `now` (both in
/// seconds since the epoch): "42s ago", "14m ago", "3h ago", "5d ago";
/// `None` from thirty days on, where the views print the date instead.
pub fn relative_age(now: i64, t: i64) -> (r: Option<String>)
    ensures
        crate::diff_model::opt_view(r) == age_spec(now - t),
{
    let d: i128 = now as i128 - t as i128;
    let mut s = String::new();
    if d < 60 {
        if d < 0 {
            push_str(&mut s, "-");
            let m: i128 = -d;
            assert(m <= u64::MAX);
            push_decimal(&mut s, m as u64);
        } else {
            push_decimal(&mut s, d as u64);
        }
        push_str(&mut s, "s ago");
    } else if d < 3600 {
        push_decimal(&mut s, (d / 60) as u64);
        push_str(&mut s, "m ago");
    } else if d < 86400 {
        push_decimal(&mut s, (d / 3600) as u64);
        push_str(&mut s, "h ago");
    } else if d < 2592000 {
        push_decimal(&mut s, (d / 86400) as u64);
        push_str(&mut s, "d ago");
    } else {
        return None;
    }
    Some(s)
}

/// The local date and time of `t` ("2024-05-01 14:03"), or nothing when
/// chrono has no date for `t`: the date and time of `t` shifted by the
/// machine's offset from UTC, which is less than a day.
pub fn fmt_time(t: i64) -> (r: String)
    ensures
        four_digit_years(t as int) ==> is_date_time_text(r@),
        four_digit_years(t as int) ==> exists|off: int| offset_ok(off) && #[trigger] local_date_time(t as int, off) == r@,
{
    proof {
        reveal_strlit("%Y-%m-%d %H:%M");
    }
    let r = match local_stamp(t, "%Y-%m-%d %H:%M") {
        Some(s) => s,
        None => String::new(),
    };
    proof {
        if four_digit_years(t as int) {
            let off = choose|off: int| offset_ok(off) && #[trigger] stamp_for(t as int, off, "%Y-%m-%d %H:%M"@) == r@;
            assert(local_date_time(t as int, off) == r@);
        }
    }
    r
}

} // verus!
