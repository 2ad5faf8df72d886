use chrono::Datelike;
use sam_toolkit::budget::{
    col_width, in_months, iso_to_local_input, month_of_date, last_day_before, month_end, month_key_parts, month_keys_from,
    parse_local_datetime, recorded_before, summary_since, trailing_months,
};
use sam_toolkit::budget::{
    EARLIEST_RFC3339_UNIX, FIRST_FOUR_DIGIT_LOCAL_DAY, LAST_FOUR_DIGIT_LOCAL_DAY, LATEST_RFC3339_UNIX,
    UNIX_EPOCH_DAY,
};
use sam_toolkit::in_canada::{iso_date, EARLIEST_DAY};

#[test]
fn columns_fit_their_widest_cell() {
    let values = vec!["Lunch".to_string(), "Tea".to_string()];
    assert_eq!(col_width("Name", &values), 5);
    assert_eq!(col_width("Category", &values), 8);
    assert_eq!(col_width("Amount", &vec![]), 6);
}

#[test]
fn widths_count_bytes() {
    // Widths are measured with `str::len`, which counts UTF-8 bytes.
    assert_eq!(col_width("N", &vec!["€€".to_string()]), 6);
}

#[test]
fn recorded_times_are_placed_against_a_month_end() {
    let end = chrono::NaiveDate::from_ymd_opt(2026, 3, 31).unwrap().num_days_from_ce();
    assert!(recorded_before("2026-03-31T23:00:00-05:00", end));
    assert!(!recorded_before("2026-04-01T00:30:00+02:00", end));
    // Not RFC 3339: the first ten bytes are read as a date.
    assert!(recorded_before("2026-03-15 09:00", end));
    assert!(!recorded_before("2026-04-15 garbage", end));
    assert!(!recorded_before("yesterday", end));
    assert!(!recorded_before("", end));
}

#[test]
fn local_times_are_read_in_their_forms() {
    assert!(parse_local_datetime("2026-07-01 09:30").is_some());
    assert!(parse_local_datetime(" 2026-07-01T09:30:15 ").is_some());
    assert!(parse_local_datetime("2026-07-01").is_some());
    assert!(parse_local_datetime("yesterday").is_none());
    assert!(parse_local_datetime("2026-13-01 09:30").is_none());
}

#[test]
fn local_datetime_roundtrips_through_display_format() {
    let iso = parse_local_datetime("2026-07-01 09:30").unwrap();
    assert_eq!(iso_to_local_input(&iso), "2026-07-01 09:30");
    // Text that is no timestamp is shown as it is.
    assert_eq!(iso_to_local_input("soon"), "soon");
}

fn day(year: i32, month: u32, date: u32) -> i32 {
    chrono::NaiveDate::from_ymd_opt(year, month, date).unwrap().num_days_from_ce()
}

#[test]
fn month_keys_split_into_year_and_month() {
    assert_eq!(month_key_parts("2024-02"), (2024, 2));
    assert_eq!(month_key_parts("1999-12-31"), (1999, 12));
    assert_eq!(month_key_parts("+202-07"), (202, 7));
    assert_eq!(month_key_parts("-001-03"), (-1, 3));
    // Parts that do not read as numbers fall back to January 2000.
    assert_eq!(month_key_parts("abcd-ef"), (2000, 1));
    assert_eq!(month_key_parts("2024"), (2024, 1));
    assert_eq!(month_key_parts(""), (2000, 1));
    assert_eq!(month_key_parts("2024--1"), (2024, 1));
    // A multi-byte character across byte four leaves no year to read.
    assert_eq!(month_key_parts("202é-05"), (2000, 1));
}

#[test]
fn month_end_is_the_last_day_of_the_month() {
    let today = day(2030, 6, 15);
    assert_eq!(month_end("2024-02", today), day(2024, 2, 29));
    assert_eq!(month_end("2023-02", today), day(2023, 2, 28));
    assert_eq!(month_end("2024-12", today), day(2024, 12, 31));
    assert_eq!(month_end("2024-04", today), day(2024, 4, 30));
    // Unreadable keys read as January 2000.
    assert_eq!(month_end("soon", today), day(2000, 1, 31));
    // A month that does not exist falls back to today.
    assert_eq!(month_end("2024-13", today), today);
    assert_eq!(month_end("2024-99", today), today);
}

#[test]
fn the_day_before_steps_back_one() {
    assert_eq!(last_day_before(Some(day(2024, 3, 1)), 7), day(2024, 2, 29));
    assert_eq!(last_day_before(None, 7), 7);
    assert_eq!(last_day_before(Some(EARLIEST_DAY), 7), 7);
}

#[test]
fn trailing_months_end_with_this_month() {
    let today = day(2024, 3, 15);
    assert_eq!(trailing_months(3, today), vec!["2024-01", "2024-02", "2024-03"]);
    assert_eq!(trailing_months(0, today), vec!["2024-03"]);
    assert_eq!(trailing_months(1, today), vec!["2024-03"]);
    assert_eq!(
        trailing_months(4, day(2024, 1, 31)),
        vec!["2023-10", "2023-11", "2023-12", "2024-01"]
    );
    assert_eq!(month_keys_from(day(2024, 5, 1), 2), vec!["2024-04", "2024-05"]);
}

#[test]
fn summaries_start_on_the_first_of_a_month() {
    let today = day(2024, 3, 15);
    assert_eq!(summary_since(1, today), "2024-03-01");
    assert_eq!(summary_since(0, today), "2024-03-01");
    assert_eq!(summary_since(3, today), "2024-01-01");
    assert_eq!(summary_since(13, today), "2023-03-01");
}

#[test]
fn days_are_written_year_month_day() {
    assert_eq!(iso_date(day(2024, 1, 2)), "2024-01-02");
    assert_eq!(iso_date(day(1, 1, 1)), "0001-01-01");
}

fn is_minute_stamp(text: &str) -> bool {
    let chars: Vec<char> = text.chars().collect();
    let n = chars.len();
    if n < 16 {
        return false;
    }
    let tail = &chars[n - 12..];
    let digit = |c: char| c.is_ascii_digit();
    let year: String = chars[..n - 12].iter().collect();
    let year_ok = (year.len() >= 4 && year.chars().all(digit))
        || (year.len() >= 5 && (year.starts_with('+') || year.starts_with('-')) && year[1..].chars().all(digit));
    year_ok
        && tail[0] == '-' && digit(tail[1]) && digit(tail[2])
        && tail[3] == '-' && digit(tail[4]) && digit(tail[5])
        && tail[6] == ' ' && digit(tail[7]) && digit(tail[8])
        && tail[9] == ':' && digit(tail[10]) && digit(tail[11])
}

#[test]
fn stored_timestamps_always_read_back_as_minute_stamps() {
    for iso in ["2024-01-02T03:04:05Z", "0000-01-01T00:00:00+23:59", "9999-12-31T23:59:59-23:59", "2024-06-30T12:00:00.5+02:00"] {
        let text = iso_to_local_input(iso);
        assert!(is_minute_stamp(&text), "{iso} gave {text}");
    }
    assert_eq!(iso_to_local_input("2024-13-01T00:00:00Z"), "2024-13-01T00:00:00Z");
}

#[test]
fn local_stamps_name_an_instant_within_a_day_of_the_local_time() {
    let stamp = parse_local_datetime(" 2026-07-01T09:30 ").unwrap();
    let unix = chrono::DateTime::parse_from_rfc3339(&stamp).unwrap().timestamp();
    let naive = chrono::NaiveDate::from_ymd_opt(2026, 7, 1).unwrap().and_hms_opt(9, 30, 0).unwrap().and_utc().timestamp();
    assert!((unix - naive).abs() < 86_400);
    let midnight = parse_local_datetime("2026-07-01").unwrap();
    let unix = chrono::DateTime::parse_from_rfc3339(&midnight).unwrap().timestamp();
    assert!((unix - (naive - 9 * 3600 - 30 * 60)).abs() < 86_400);
    assert_eq!(parse_local_datetime("not a date"), None);
}

#[test]
fn the_four_digit_local_days_are_the_inner_days_of_years_0_to_9999() {
    assert_eq!(FIRST_FOUR_DIGIT_LOCAL_DAY, day(0, 1, 2));
    assert_eq!(LAST_FOUR_DIGIT_LOCAL_DAY, day(9999, 12, 30));
}

#[test]
fn rfc3339_bounds_are_the_extreme_timestamps() {
    let earliest = chrono::DateTime::parse_from_rfc3339("0000-01-01T00:00:00+23:59").unwrap().timestamp();
    let latest = chrono::DateTime::parse_from_rfc3339("9999-12-31T23:59:59-23:59").unwrap().timestamp();
    assert_eq!(earliest, EARLIEST_RFC3339_UNIX + 59);
    assert_eq!(latest, LATEST_RFC3339_UNIX - 59);
    assert_eq!(i64::from(day(1970, 1, 1)), UNIX_EPOCH_DAY);
}

#[test]
fn a_stored_instant_is_shown_as_its_own_local_minute() {
    for iso in ["2024-01-02T03:04:05Z", "2024-06-30T12:00:59.5+02:00", "1969-12-31T23:59:00-05:00"] {
        let unix = chrono::DateTime::parse_from_rfc3339(iso).unwrap().timestamp();
        let text = iso_to_local_input(iso);
        let shown = chrono::NaiveDateTime::parse_from_str(&text, "%Y-%m-%d %H:%M").unwrap().and_utc().timestamp();
        assert!(unix - 86_400 < shown + 60 && shown < unix + 86_400, "{iso} shown as {text}");
    }
}

#[test]
fn dates_are_bucketed_by_their_month() {
    let keys = vec!["2024-01".to_string(), "2024-02".to_string()];
    assert!(in_months("2024-02-29", &keys));
    assert!(!in_months("2024-03-01", &keys));
    assert!(!in_months("2024", &keys));
    assert!(!in_months("2024-01-01", &Vec::new()));
    assert_eq!(month_of_date("2024-02-29"), Some("2024-02".to_string()));
    assert_eq!(month_of_date("2024-0"), None);
    assert_eq!(month_of_date("2024-0é-01"), None);
}
