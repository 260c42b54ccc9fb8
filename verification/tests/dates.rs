use bitcoin_bench::util::{parse_date, unix_timestamp_to_hr, civil_from_timestamp};
use bitcoin_bench::bench::plan_dates;
use bitcoin_bench::error::BenchError;

#[test]
fn parse_known_dates() {
    assert_eq!(parse_date("1970-01-01").unwrap(), 0);
    assert_eq!(parse_date("1970-01-02").unwrap(), 86400);
    assert_eq!(parse_date("2024-01-01").unwrap(), 1704067200);
    assert_eq!(parse_date("2024-03-01").unwrap(), 1709251200);
    assert_eq!(parse_date("2000-02-29").unwrap(), 951782400);
}

#[test]
fn parse_rejects_malformed_dates() {
    for s in [
        "", "2024-1-01", "2024-01-1", "24-01-01", "2024/01/01", "abcd-ef-gh", "2024-01-011",
    ] {
        assert!(matches!(parse_date(s), Err(BenchError::Usage(_))), "accepted {:?}", s);
    }
}

#[test]
fn parse_rejects_impossible_dates() {
    assert!(parse_date("2023-02-29").is_err());
    assert!(parse_date("2100-02-29").is_err());  // centuries are not leap
    assert!(parse_date("2096-02-29").is_ok());
    assert!(parse_date("2024-02-30").is_err());
    assert!(parse_date("2024-04-31").is_err());
    assert!(parse_date("2024-13-01").is_err());
    assert!(parse_date("2024-00-10").is_err());
    assert!(parse_date("2024-01-00").is_err());
}

#[test]
fn parse_rejects_dates_before_the_epoch() {
    assert!(matches!(parse_date("1969-12-31"), Err(BenchError::Usage(_))));
}

#[test]
fn daily_plan_steps_by_one_day() {
    let v = plan_dates(0, 172800);
    assert_eq!(v, vec![0, 86400, 172800]);
    let v = plan_dates(100, 86500);
    assert_eq!(v, vec![100, 86500]);
    assert!(plan_dates(100, 50).is_empty());
    assert_eq!(plan_dates(7, 7), vec![7]);
}

#[test]
fn timestamp_rendering() {
    assert_eq!(unix_timestamp_to_hr(0), "1970-01-01 00:00:00");
    assert_eq!(unix_timestamp_to_hr(86399), "1970-01-01 23:59:59");
    assert_eq!(unix_timestamp_to_hr(951782400), "2000-02-29 00:00:00");
    assert_eq!(unix_timestamp_to_hr(1709251200 + 3661), "2024-03-01 01:01:01");
}

#[test]
fn timestamp_decomposition() {
    assert_eq!(civil_from_timestamp(0), (1970, 1, 1, 0, 0, 0));
    assert_eq!(civil_from_timestamp(1709251200 + 3661), (2024, 3, 1, 1, 1, 1));
    // rendering inverts parsing at midnight
    let ts = parse_date("2031-07-15").unwrap();
    assert_eq!(unix_timestamp_to_hr(ts), "2031-07-15 00:00:00");
}
