use wakalog::Date;

#[test]
fn parse_iso_accepts_valid_dates() {
    let d = Date::parse_iso("2024-03-01").unwrap();
    assert_eq!(d.year, 2024);
    assert_eq!(d.month, 3);
    assert_eq!(d.day, 1);
}

#[test]
fn parse_iso_rejects_bad_shapes() {
    assert!(Date::parse_iso("").is_none());
    assert!(Date::parse_iso("2024-3-1").is_none());
    assert!(Date::parse_iso("2024/03/01").is_none());
    assert!(Date::parse_iso("20240301").is_none());
    assert!(Date::parse_iso("2024-03-01x").is_none());
    assert!(Date::parse_iso("abcd-ef-gh").is_none());
}

#[test]
fn parse_iso_rejects_impossible_days() {
    assert!(Date::parse_iso("2024-13-01").is_none());
    assert!(Date::parse_iso("2024-00-01").is_none());
    assert!(Date::parse_iso("2024-04-31").is_none());
    assert!(Date::parse_iso("2024-03-00").is_none());
}

#[test]
fn leap_years_have_february_29() {
    assert!(Date::parse_iso("2024-02-29").is_some());
    assert!(Date::parse_iso("2023-02-29").is_none());
    assert!(Date::parse_iso("1900-02-29").is_none());
    assert!(Date::parse_iso("2000-02-29").is_some());
}

#[test]
fn format_iso_round_trips() {
    let d = Date::parse_iso("2024-03-01").unwrap();
    assert_eq!(d.format_iso(), "2024-03-01");
    let e = Date::new(987, 12, 31).unwrap();
    assert_eq!(e.format_iso(), "0987-12-31");
}

#[test]
fn format_compact_and_parse_compact() {
    let d = Date::new(2024, 3, 1).unwrap();
    assert_eq!(d.format_compact(), "20240301");
    assert_eq!(Date::parse_compact("20240301"), Some(d));
    assert!(Date::parse_compact("2024-03-01").is_none());
    assert!(Date::parse_compact("20241301").is_none());
}

#[test]
fn next_day_steps_through_month_and_year_ends() {
    let d = Date::new(2024, 2, 28).unwrap();
    assert_eq!(d.next_day(), Some(Date::new(2024, 2, 29).unwrap()));
    let d = Date::new(2023, 2, 28).unwrap();
    assert_eq!(d.next_day(), Some(Date::new(2023, 3, 1).unwrap()));
    let d = Date::new(2024, 12, 31).unwrap();
    assert_eq!(d.next_day(), Some(Date::new(2025, 1, 1).unwrap()));
    let d = Date::new(9999, 12, 31).unwrap();
    assert_eq!(d.next_day(), None);
}

#[test]
fn from_file_name_reads_the_date_piece() {
    let d = Date::new(2024, 3, 1).unwrap();
    assert_eq!(Date::from_file_name("res_20240301.json"), Some(d));
    assert_eq!(Date::from_file_name("20240301.json"), Some(d));
    assert_eq!(Date::from_file_name("a_b_20240301.json"), Some(d));
}

#[test]
fn from_file_name_rejects_everything_else() {
    assert!(Date::from_file_name("").is_none());
    assert!(Date::from_file_name("noext").is_none());
    assert!(Date::from_file_name("foo.txt").is_none());
    assert!(Date::from_file_name("res_20241301.json").is_none());
    assert!(Date::from_file_name("res_20240301-20240305.json").is_none());
    assert!(Date::from_file_name("res_20240301.json.bak").is_none());
    assert!(Date::from_file_name("x.json").is_none());
}

#[test]
fn date_order_follows_the_calendar() {
    let a = Date::new(2024, 2, 29).unwrap();
    let b = Date::new(2024, 3, 1).unwrap();
    assert!(a.le(&b));
    assert!(!b.le(&a));
    assert!(a.le(&a));
}
