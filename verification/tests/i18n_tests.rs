use gitlog::i18n::{choose_locale, format_date, format_timestamp, parse_locale, DateParts};

#[test]
fn locale_parsing() {
    assert_eq!(parse_locale("de_DE.UTF-8"), Some("de"));
    assert_eq!(parse_locale("de-AT"), Some("de"));
    assert_eq!(parse_locale("DE_de"), Some("de"));
    assert_eq!(parse_locale("en_US.UTF-8"), None);
    assert_eq!(parse_locale("fr"), None);
    assert_eq!(parse_locale(""), None);
}

fn parts(weekday: i32, day: i32, month: i32, year: i32, hour: i32, minute: i32) -> DateParts {
    DateParts { weekday, day, month, year, hour, minute }
}

#[test]
fn date_english() {
    // 6 Jan 2025 is a Monday
    let dt = parts(1, 6, 1, 2025, 14, 30);
    assert_eq!(format_date(&dt, "en"), "Mon, 06 Jan 2025, 14:30");
}

#[test]
fn date_german() {
    // 6 Jan 2025 is a Monday, 15 Mar 2025 is a Saturday
    let dt = parts(1, 6, 1, 2025, 14, 30);
    assert_eq!(format_date(&dt, "de"), "Mo, 06 Jan 2025, 14:30");
    let dt = parts(6, 15, 3, 2025, 8, 5);
    assert_eq!(format_date(&dt, "de"), "Sa, 15 Mär 2025, 08:05");
}

#[test]
fn timestamp_formats() {
    // 6 Jan 2025, 10:30 UTC, as a local date and time
    let s = format_timestamp(Some(parts(1, 6, 1, 2025, 10, 30)), 1736140200, "en");
    assert!(s.contains("Jan"));
    assert!(s.contains("2025"));
}

#[test]
fn timestamp_without_local_time_is_the_number() {
    assert_eq!(format_timestamp(None, 1736140200, "en"), "1736140200");
    assert_eq!(format_timestamp(None, -42, "de"), "-42");
}

#[test]
fn date_padding_and_other_locales() {
    assert_eq!(format_date(&parts(0, 1, 12, 987, 0, 7), "fr"), "Sun, 01 Dec 0987, 00:07");
    assert_eq!(format_date(&parts(3, 31, 10, 2024, 23, 59), "de"), "Mi, 31 Okt 2024, 23:59");
    assert_eq!(format_date(&parts(4, 2, 5, 2024, 9, 0), "de"), "Do, 02 Mai 2024, 09:00");
}

#[test]
fn locale_choice_takes_the_first_set_variable() {
    assert_eq!(choose_locale(None, None, None), "en");
    assert_eq!(choose_locale(Some("de_DE.UTF-8"), Some("en_US"), None), "de");
    assert_eq!(choose_locale(Some("C"), Some("de_DE"), Some("de_DE")), "en");
    assert_eq!(choose_locale(None, None, Some("de_AT.UTF-8")), "de");
    assert_eq!(choose_locale(None, Some("pt_BR"), Some("de_DE")), "en");
}
