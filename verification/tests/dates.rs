use parsley_csv::{
    apply_date_filter, build_date_filter, parse_date_filter, parse_date_value, Date, DateFilter,
    FilterConfigError, FilterError,
};

fn date(year: i32, month: u8, day: u8) -> Date {
    Date { year, month, day }
}

#[test]
fn test_parse_date_value() {
    // ISO 8601 date
    assert!(parse_date_value("2024-01-15").is_some());

    // ISO 8601 datetime
    assert!(parse_date_value("2024-01-15T14:30:00").is_some());

    // US format
    assert!(parse_date_value("01/15/2024").is_some());

    // Invalid date
    assert!(parse_date_value("not-a-date").is_none());
}

#[test]
fn test_recognized_formats_agree_on_the_date() {
    let expected = date(2024, 1, 15);
    assert_eq!(parse_date_value("2024-01-15"), Some(expected));
    assert_eq!(parse_date_value("2024-01-15T14:30:00"), Some(expected));
    assert_eq!(parse_date_value("2024-01-15T14:30:00+00:00"), Some(expected));
    assert_eq!(parse_date_value("01/15/2024"), Some(expected));
    assert_eq!(parse_date_value("not-a-date"), None);
}

#[test]
fn test_more_recognizer_formats() {
    let expected = date(2024, 1, 15);
    assert_eq!(parse_date_value("2024-01-15 14:30:00"), Some(expected));
    assert_eq!(parse_date_value("2024-01-15 14:30:00.123456"), Some(expected));
    assert_eq!(parse_date_value("2024-01-15T14:30:00.123"), Some(expected));
    assert_eq!(parse_date_value("15/01/2024"), Some(expected));
}

#[test]
fn test_slash_date_ambiguity_prefers_month_first() {
    // Valid under both slash formats: month-first is tried first and wins.
    assert_eq!(parse_date_value("03/04/2024"), Some(date(2024, 3, 4)));
}

#[test]
fn test_epoch_fallback_prefers_milliseconds() {
    // 1705276800000 ms since the epoch is 2024-01-15.
    assert_eq!(parse_date_value("1705276800000"), Some(date(2024, 1, 15)));
    // A seconds-sized value is still divided by 1000 first, landing in 1970.
    assert_eq!(parse_date_value("1705276800"), Some(date(1970, 1, 20)));
}

#[test]
fn test_filter_keeps_rows_in_range() {
    let headers = vec!["id".to_string(), "createdAt".to_string()];
    let rows = vec![
        vec!["1".to_string(), "2024-01-10".to_string()],
        vec!["2".to_string(), "2024-02-20".to_string()],
    ];
    let filter = DateFilter::new(
        "createdAt".to_string(),
        date(2024, 1, 1),
        date(2024, 1, 31),
    )
    .expect("range is ordered");
    let kept = apply_date_filter(&headers, &rows, &filter).expect("column exists");
    assert_eq!(kept, vec![vec!["1".to_string(), "2024-01-10".to_string()]]);
}

#[test]
fn test_filter_missing_column_fails() {
    let headers = vec!["id".to_string(), "name".to_string()];
    let rows = vec![vec!["1".to_string(), "2024-01-10".to_string()]];
    let filter = DateFilter::new(
        "createdAt".to_string(),
        date(2024, 1, 1),
        date(2024, 1, 31),
    )
    .expect("range is ordered");
    let result = apply_date_filter(&headers, &rows, &filter);
    assert_eq!(result, Err(FilterError::ColumnMissing));
}

#[test]
fn test_filter_excludes_short_and_unrecognized_rows() {
    let headers = vec!["id".to_string(), "when".to_string()];
    let rows = vec![
        vec!["1".to_string()],
        vec!["2".to_string(), "not-a-date".to_string()],
        vec!["3".to_string(), "2024-01-15".to_string()],
    ];
    let filter = DateFilter::new("when".to_string(), date(2024, 1, 1), date(2024, 12, 31))
        .expect("range is ordered");
    let kept = apply_date_filter(&headers, &rows, &filter).expect("column exists");
    assert_eq!(kept, vec![vec!["3".to_string(), "2024-01-15".to_string()]]);
}

#[test]
fn test_filter_range_is_inclusive() {
    let headers = vec!["when".to_string()];
    let rows = vec![
        vec!["2024-01-01".to_string()],
        vec!["2024-01-31".to_string()],
        vec!["2023-12-31".to_string()],
        vec!["2024-02-01".to_string()],
    ];
    let filter = DateFilter::new("when".to_string(), date(2024, 1, 1), date(2024, 1, 31))
        .expect("range is ordered");
    let kept = apply_date_filter(&headers, &rows, &filter).expect("column exists");
    assert_eq!(
        kept,
        vec![vec!["2024-01-01".to_string()], vec!["2024-01-31".to_string()]]
    );
}

#[test]
fn test_date_filter_rejects_start_after_end() {
    let result = DateFilter::new("c".to_string(), date(2024, 2, 1), date(2024, 1, 1));
    assert_eq!(result.unwrap_err(), FilterConfigError::StartAfterEnd);
}

#[test]
fn test_date_filter_holds_its_range() {
    let filter = DateFilter::new("c".to_string(), date(2023, 5, 2), date(2024, 1, 1))
        .expect("range is ordered");
    assert_eq!(filter.column_name(), "c");
    assert_eq!(filter.start_date(), date(2023, 5, 2));
    assert_eq!(filter.end_date(), date(2024, 1, 1));
}

fn args(items: &[&str]) -> Vec<String> {
    items.iter().map(|s| s.to_string()).collect()
}

#[test]
fn test_filter_configuration_without_flag() {
    let r = parse_date_filter(&args(&["prog", "dump.sql"]));
    assert!(matches!(r, Ok(None)));
}

#[test]
fn test_filter_configuration_errors() {
    let r = parse_date_filter(&args(&["prog", "dump.sql", "--date-filter", "createdAt"]));
    assert_eq!(r.unwrap_err(), FilterConfigError::MissingArguments);

    let r = parse_date_filter(&args(&[
        "prog",
        "dump.sql",
        "--date-filter",
        "createdAt",
        "01-01-2024",
    ]));
    assert_eq!(r.unwrap_err(), FilterConfigError::InvalidStartDate);

    let r = parse_date_filter(&args(&[
        "prog",
        "dump.sql",
        "--date-filter",
        "createdAt",
        "2024-01-01",
        "soon",
    ]));
    assert_eq!(r.unwrap_err(), FilterConfigError::InvalidEndDate);

    let r = parse_date_filter(&args(&[
        "prog",
        "dump.sql",
        "--date-filter",
        "createdAt",
        "2024-06-01",
        "2024-01-01",
    ]));
    assert_eq!(r.unwrap_err(), FilterConfigError::StartAfterEnd);
}

#[test]
fn test_filter_configuration_with_explicit_range() {
    let r = parse_date_filter(&args(&[
        "prog",
        "dump.sql",
        "--date-filter",
        "createdAt",
        "2024-01-01",
        "2024-12-31",
    ]));
    let filter = r.expect("arguments are valid").expect("flag is present");
    assert_eq!(filter.column_name(), "createdAt");
    assert_eq!(filter.start_date(), date(2024, 1, 1));
    assert_eq!(filter.end_date(), date(2024, 12, 31));
}

#[test]
fn test_build_filter_defaults_end_to_today() {
    let today = date(2024, 7, 1);
    let r = build_date_filter(
        &args(&["prog", "dump.sql", "--date-filter", "createdAt", "2024-01-01"]),
        today,
    );
    let filter = r.expect("arguments are valid").expect("flag is present");
    assert_eq!(filter.start_date(), date(2024, 1, 1));
    assert_eq!(filter.end_date(), today);

    let r = build_date_filter(
        &args(&["prog", "dump.sql", "--date-filter", "createdAt", "2024-08-01"]),
        today,
    );
    assert_eq!(r.unwrap_err(), FilterConfigError::StartAfterEnd);
}
