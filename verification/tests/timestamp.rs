use agent_workbench::timestamp::format_utc_timestamp;

#[test]
fn epoch_start() {
    assert_eq!(format_utc_timestamp(0), "1970-01-01T00:00:00Z");
}

#[test]
fn leap_days_and_century_years() {
    assert_eq!(format_utc_timestamp(951782400), "2000-02-29T00:00:00Z");
    assert_eq!(format_utc_timestamp(1709251199), "2024-02-29T23:59:59Z");
    assert_eq!(format_utc_timestamp(4102444800), "2100-01-01T00:00:00Z");
    assert_eq!(format_utc_timestamp(4107542400), "2100-03-01T00:00:00Z");
}

#[test]
fn ordinary_time_of_day() {
    assert_eq!(format_utc_timestamp(1700000000), "2023-11-14T22:13:20Z");
}

#[test]
fn years_past_9999_keep_all_digits() {
    assert_eq!(format_utc_timestamp(253402300800), "10000-01-01T00:00:00Z");
}
