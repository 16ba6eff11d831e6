use news::dates::resolve_date;

#[test]
fn iso_like_format_resolves_fields() {
    let ts = resolve_date("2024-01-15 10:30:00").unwrap();
    assert_eq!(ts.year, 2024);
    assert_eq!(ts.month, 1);
    assert_eq!(ts.day, 15);
    assert_eq!(ts.hour, 10);
    assert_eq!(ts.minute, 30);
    assert_eq!(ts.second, 0);
    assert_eq!(ts.offset_seconds, 0);
    assert_eq!(ts.epoch_seconds(), 1705314600);
}

#[test]
fn iso_like_format_tolerates_trailing_text() {
    let ts = resolve_date("2024-01-15 10:30:00.123456").unwrap();
    assert_eq!((ts.year, ts.month, ts.day), (2024, 1, 15));
    assert_eq!((ts.hour, ts.minute, ts.second), (10, 30, 0));
}

#[test]
fn rfc822_style_format_resolves_equivalent_instant() {
    let ts = resolve_date("Tue, 02 Jan 2024 15:04:05 +0000").unwrap();
    assert_eq!(ts.epoch_seconds(), 1704207845);
    let iso = resolve_date("2024-01-02 15:04:05").unwrap();
    assert_eq!(ts.epoch_seconds(), iso.epoch_seconds());
}

#[test]
fn rfc822_style_offset_shifts_the_instant() {
    let utc = resolve_date("Tue, 02 Jan 2024 15:04:05 +0000").unwrap();
    let plus_one = resolve_date("Tue, 02 Jan 2024 15:04:05 +0100").unwrap();
    assert_eq!(plus_one.epoch_seconds(), utc.epoch_seconds() - 3600);
    let colon_form = resolve_date("Tue, 02 Jan 2024 15:04:05 +01:00").unwrap();
    assert_eq!(colon_form.epoch_seconds(), plus_one.epoch_seconds());
}

#[test]
fn unrecognized_input_is_an_error() {
    assert!(resolve_date("not-a-date").is_err());
}

#[test]
fn out_of_range_fields_are_errors() {
    assert!(resolve_date("2024-13-01 10:30:00").is_err());
    assert!(resolve_date("2024-02-30 10:30:00").is_err());
    assert!(resolve_date("2024-01-15 24:00:00").is_err());
}

#[test]
fn leap_day_resolves_only_in_leap_years() {
    assert!(resolve_date("2024-02-29 00:00:00").is_ok());
    assert!(resolve_date("2023-02-29 00:00:00").is_err());
}

#[test]
fn rfc822_style_weekday_is_case_insensitive() {
    assert!(resolve_date("tue, 02 Jan 2024 15:04:05 +0000").is_ok());
    assert!(resolve_date("Xyz, 02 Jan 2024 15:04:05 +0000").is_err());
}

#[test]
fn rfc822_style_single_digit_day_is_accepted() {
    let ts = resolve_date("Tue, 2 Jan 2024 15:04:05 +0000").unwrap();
    assert_eq!(ts.day, 2);
}
