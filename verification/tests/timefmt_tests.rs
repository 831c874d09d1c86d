use rshell_core::timefmt::{chrono_from_unix_timestamp, days_to_ymd};

#[test]
fn test_chrono_from_unix_timestamp_epoch() {
    let result = chrono_from_unix_timestamp(0);
    assert_eq!(result, "1970-01-01 00:00:00");
}

#[test]
fn test_chrono_from_unix_timestamp_known_date() {
    // 2024-01-01 00:00:00 UTC = 1704067200
    let result = chrono_from_unix_timestamp(1704067200);
    assert_eq!(result, "2024-01-01 00:00:00");
}

#[test]
fn test_chrono_from_unix_timestamp_with_time() {
    // 2000-06-15 11:30:45 UTC = 961068645
    let result = chrono_from_unix_timestamp(961068645);
    assert_eq!(result, "2000-06-15 11:30:45");
}

#[test]
fn test_days_to_ymd_epoch() {
    let (y, m, d) = days_to_ymd(0);
    assert_eq!((y, m, d), (1970, 1, 1));
}

#[test]
fn test_days_to_ymd_known_date() {
    // 2024-01-01 = day 19723 from epoch
    let (y, m, d) = days_to_ymd(19723);
    assert_eq!((y, m, d), (2024, 1, 1));
}

#[test]
fn test_days_to_ymd_leap_day() {
    // 2020-02-29 = day 18321 from epoch
    let (y, m, d) = days_to_ymd(18321);
    assert_eq!((y, m, d), (2020, 2, 29));
}
