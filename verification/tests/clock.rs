use std::time::{SystemTime, UNIX_EPOCH};
use turbogit_ui::blame_view::{blame_age, blame_cells, blame_title, blame_view_key, fmt_age, BlameLine};
use turbogit_ui::clock::{fmt_time, relative_age};
use turbogit_ui::log_window::{fmt_date, root_color, DateFormat};

fn now() -> i64 {
    SystemTime::now().duration_since(UNIX_EPOCH).unwrap().as_secs() as i64
}

#[test]
fn relative_ages_use_whole_units() {
    let t = 1_000_000;
    assert_eq!(relative_age(t + 42, t).as_deref(), Some("42s ago"));
    assert_eq!(relative_age(t + 59, t).as_deref(), Some("59s ago"));
    assert_eq!(relative_age(t + 60, t).as_deref(), Some("1m ago"));
    assert_eq!(relative_age(t + 14 * 60 + 59, t).as_deref(), Some("14m ago"));
    assert_eq!(relative_age(t + 3600, t).as_deref(), Some("1h ago"));
    assert_eq!(relative_age(t + 86399, t).as_deref(), Some("23h ago"));
    assert_eq!(relative_age(t + 86400 * 5, t).as_deref(), Some("5d ago"));
    assert_eq!(relative_age(t + 2_591_999, t).as_deref(), Some("29d ago"));
    assert_eq!(relative_age(t + 2_592_000, t), None);
}

#[test]
fn relative_age_of_a_future_timestamp_is_negative_seconds() {
    assert_eq!(relative_age(100, 105).as_deref(), Some("-5s ago"));
    assert_eq!(relative_age(i64::MIN, i64::MAX).as_deref(), Some("-18446744073709551615s ago"));
}

#[test]
fn blame_ages_never_go_negative() {
    assert_eq!(blame_age(100, 105).as_deref(), Some("0s ago"));
    assert_eq!(blame_age(1000, 100).as_deref(), Some("15m ago"));
    assert_eq!(blame_age(10_000_000, 100), None);
}

#[test]
fn clock_backed_dates_read_as_expected() {
    let n = now();
    assert!(fmt_date(n - 5, DateFormat::Relative).ends_with("s ago"));
    assert!(fmt_age(n - 7200).ends_with("h ago"));
    let stamp = fmt_time(1_431_648_000);
    assert_eq!(stamp.len(), 16);
    assert!(stamp.starts_with("2015-05-1"));
    assert_eq!(fmt_date(1_431_648_000, DateFormat::Iso), stamp);
    assert_eq!(fmt_date(1_431_648_000, DateFormat::Absolute), stamp);
    assert_eq!(fmt_age(1_431_648_000).len(), 10);
}

#[test]
fn root_colors_repeat_every_eight() {
    assert_eq!(root_color(0), 0x508c_e6ff);
    assert_eq!(root_color(1), 0xdc78_8cff);
    assert_eq!(root_color(7), 0x96c8_dcff);
    assert_eq!(root_color(8), root_color(0));
    assert_eq!(root_color(13), 0x5abe_c8ff);
}

#[test]
fn blame_rows_and_titles() {
    let line = BlameLine {
        commit: "0123456789".to_string(),
        author: "Alexandra Constantinople".to_string(),
        time: 0,
        content: "let x = 1;  \t\n".to_string(),
    };
    let cells = blame_cells(&line, "0123456789");
    assert!(cells.highlight);
    assert_eq!(cells.hash, "0123456");
    assert_eq!(cells.author, "Alexandra Co");
    assert_eq!(cells.content, "let x = 1;");
    assert!(!blame_cells(&line, "fff").highlight);
    assert_eq!(blame_title("src/a.rs", "abcdef0123"), "src/a.rs @ abcdef0");
    assert_eq!(blame_view_key("/w/a", "HEAD", "src/a.rs"), "/w/a|HEAD|src/a.rs");
}

fn two_digits(s: &str, at: usize) -> u32 {
    s[at..at + 2].parse().unwrap()
}

#[test]
fn stamps_have_the_documented_shape() {
    for t in [-62_135_510_400i64, 0, 1_431_648_000, 253_402_214_399] {
        let s = fmt_time(t);
        assert_eq!(s.len(), 16, "{s}");
        assert!(s[0..4].chars().all(|c| c.is_ascii_digit()));
        assert_eq!(&s[4..5], "-");
        assert!((1..=12).contains(&two_digits(&s, 5)));
        assert_eq!(&s[7..8], "-");
        assert!((1..=31).contains(&two_digits(&s, 8)));
        assert_eq!(&s[10..11], " ");
        assert!(two_digits(&s, 11) <= 23);
        assert_eq!(&s[13..14], ":");
        assert!(two_digits(&s, 14) <= 59);
        let d = fmt_age(t);
        if t < now() - 2_592_000 {
            assert_eq!(d, s[..10].to_string());
        } else {
            assert_eq!(d, "0s ago");
        }
        assert_eq!(fmt_date(t, DateFormat::Iso), s);
    }
}

/// The proleptic Gregorian date and time of `s` seconds since the epoch,
/// written as `%Y-%m-%d %H:%M`, by the days-to-civil algorithm.
fn civil_text(s: i64) -> String {
    let z = s.div_euclid(86400) + 719468;
    let era = z.div_euclid(146097);
    let doe = z - era * 146097;
    let yoe = (doe - doe / 1460 + doe / 36524 - doe / 146096) / 365;
    let doy = doe - (365 * yoe + yoe / 4 - yoe / 100);
    let mp = (5 * doy + 2) / 153;
    let d = doy - (153 * mp + 2) / 5 + 1;
    let m = if mp < 10 { mp + 3 } else { mp - 9 };
    let y = yoe + era * 400 + if m <= 2 { 1 } else { 0 };
    let sod = s.rem_euclid(86400);
    format!("{y:04}-{m:02}-{d:02} {:02}:{:02}", sod / 3600, sod % 3600 / 60)
}

#[test]
fn civil_dates_match_known_instants() {
    assert_eq!(civil_text(0), "1970-01-01 00:00");
    assert_eq!(civil_text(1_431_648_000), "2015-05-15 00:00");
    assert_eq!(civil_text(951_782_400), "2000-02-29 00:00");
    assert_eq!(civil_text(-1), "1969-12-31 23:59");
    assert_eq!(civil_text(-62_135_596_800), "0001-01-01 00:00");
    assert_eq!(civil_text(253_402_300_799), "9999-12-31 23:59");
}

#[test]
fn local_stamps_are_utc_shifted_by_under_a_day() {
    for t in [0i64, 1_431_648_000, -62_135_510_400, 253_402_214_399] {
        let s = fmt_time(t);
        let found = (-86_399i64..86_400).any(|off| civil_text(t + off) == s);
        assert!(found, "{t}: {s}");
        assert_eq!(fmt_age(t).len(), if t < now() - 2_592_000 { 10 } else { 6 });
    }
}
