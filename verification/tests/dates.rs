use blog_core::date::{format_date, format_iso, parse_date};

#[test]
fn parses_valid_dates() {
    let d = parse_date("2024-02-29").unwrap();
    assert_eq!((d.year, d.month, d.day), (2024, 2, 29));
    let d2 = parse_date("1999-12-31").unwrap();
    assert_eq!((d2.year, d2.month, d2.day), (1999, 12, 31));
}

#[test]
fn rejects_impossible_dates() {
    assert!(parse_date("2023-02-29").is_none());
    assert!(parse_date("2100-02-29").is_none());
    assert!(parse_date("2020-00-10").is_none());
    assert!(parse_date("2020-13-10").is_none());
    assert!(parse_date("2020-04-31").is_none());
    assert!(parse_date("20-04-01").is_none());
    assert!(parse_date("2020-004-01").is_none());
    assert!(parse_date("not-a-date").is_none());
}

#[test]
fn leap_year_rules() {
    assert!(parse_date("2000-02-29").is_some());
    assert!(parse_date("1900-02-29").is_none());
}

#[test]
fn timestamp_is_midnight_of_the_date() {
    let d = parse_date("2024-01-05").unwrap();
    assert_eq!(format_iso(&d), "2024-01-05T00:00:00Z");
    let d2 = parse_date("0999-10-01").unwrap();
    assert_eq!(format_iso(&d2), "0999-10-01T00:00:00Z");
}

#[test]
fn formats_for_templates() {
    assert_eq!(format_date("2024-01-05", true), "Jan 05, 2024");
    assert_eq!(format_date("2024-01-05", false), "January 05, 2024");
    assert_eq!(format_date("2024-12-25", true), "Dec 25, 2024");
}

#[test]
fn unparseable_text_comes_back_unchanged() {
    assert_eq!(format_date("soon", true), "soon");
    assert_eq!(format_date("soon", false), "soon");
}

#[test]
fn year_is_exactly_four_digits() {
    assert!(parse_date("0001-01-01").is_some());
    assert!(parse_date("10000-01-01").is_none());
    assert!(parse_date("999-01-01").is_none());
}

#[test]
fn month_and_day_may_come_unpadded() {
    let d = parse_date("2024-1-5").unwrap();
    assert_eq!((d.year, d.month, d.day), (2024, 1, 5));
    assert_eq!(parse_date("2024-1-5"), parse_date("2024-01-05"));
    let d2 = parse_date("2024-12-5").unwrap();
    assert_eq!((d2.year, d2.month, d2.day), (2024, 12, 5));
    let d3 = parse_date("2024-1-25").unwrap();
    assert_eq!((d3.year, d3.month, d3.day), (2024, 1, 25));
    assert_eq!(format_iso(&d), "2024-01-05T00:00:00Z");
}

#[test]
fn formats_unpadded_dates_too() {
    assert_eq!(format_date("2024-1-5", true), "Jan 05, 2024");
    assert_eq!(format_date("2024-1-5", false), "January 05, 2024");
}
