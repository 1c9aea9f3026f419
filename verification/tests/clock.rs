use opengemini_engine::clock::{unix_time_seconds, whole_seconds};

#[test]
fn test_whole_seconds_of_readings() {
    assert_eq!(whole_seconds(None), 0);
    assert_eq!(whole_seconds(Some(5_999_999_999)), 5);
    assert_eq!(whole_seconds(Some(u128::MAX)), i64::MAX);
}

#[test]
fn test_unix_time_seconds_after_epoch() {
    assert!(unix_time_seconds() > 1_600_000_000);
}
