use metrum::calendar::days_in_year;
use metrum::time::MetrumDate;
use metrum::time::MetrumDateTime;
use metrum::time::MetrumTime;
use metrum::time::TimeError;

#[test]
fn day_boundary_of_year() {
    for year in [1900, 1980, 2000, 2014, 2020] {
        let count = days_in_year(year);
        assert_eq!(MetrumDate::new(year, count).unwrap_err(), TimeError::InvalidDay);
        assert!(MetrumDate::new(year, count - 1).is_ok());
    }
}

#[test]
fn month_boundaries() {
    assert_eq!(MetrumDate::from_utc(2000, 0, 1).unwrap_err(), TimeError::InvalidUtcMonth);
    assert_eq!(MetrumDate::from_utc(2000, 13, 1).unwrap_err(), TimeError::InvalidUtcMonth);
    assert!(MetrumDate::from_utc(2000, 1, 1).is_ok());
    assert!(MetrumDate::from_utc(2000, 12, 31).is_ok());
}

#[test]
fn century_leap_exceptions() {
    assert!(MetrumDate::from_utc(1900, 2, 28).is_ok());
    assert_eq!(MetrumDate::from_utc(1900, 2, 29).unwrap_err(), TimeError::InvalidUtcDay);
    assert!(MetrumDate::from_utc(2000, 2, 29).is_ok());
    assert_eq!(MetrumDate::from_utc(2000, 2, 30).unwrap_err(), TimeError::InvalidUtcDay);
}

#[test]
fn time_field_boundaries() {
    assert!(MetrumTime::new(1000, 100, 1_000_000).is_ok());
    assert_eq!(MetrumTime::new(1001, 0, 0).unwrap_err(), TimeError::InvalidMinute);
    assert_eq!(MetrumTime::new(0, 101, 0).unwrap_err(), TimeError::InvalidTick);
    assert_eq!(MetrumTime::new(0, 0, 1_000_001).unwrap_err(), TimeError::InvalidSubtick);
}

#[test]
fn utc_clock_boundaries() {
    assert_eq!(MetrumTime::from_utc(24, 0, 0, 0).unwrap_err(), TimeError::InvalidUtcHour);
    assert_eq!(MetrumTime::from_utc(0, 60, 0, 0).unwrap_err(), TimeError::InvalidUtcMinute);
    assert_eq!(MetrumTime::from_utc(0, 0, 60, 0).unwrap_err(), TimeError::InvalidUtcSecond);
    assert_eq!(
        MetrumTime::from_utc(0, 0, 0, 1_000_000_000).unwrap_err(),
        TimeError::InvalidUtcNano
    );
    assert!(MetrumTime::from_utc(23, 59, 59, 999_999_999).is_ok());
}

#[test]
fn datetime_propagates_first_error() {
    assert_eq!(
        MetrumDateTime::new(1900, 365, 2000, 200, 2_000_000).unwrap_err(),
        TimeError::InvalidDay
    );
    assert_eq!(
        MetrumDateTime::new(1900, 0, 2000, 200, 2_000_000).unwrap_err(),
        TimeError::InvalidMinute
    );
    assert_eq!(
        MetrumDateTime::from_utc(2000, 13, 1, 24, 0, 0, 0).unwrap_err(),
        TimeError::InvalidUtcMonth
    );
    assert_eq!(
        MetrumDateTime::from_utc(2000, 2, 29, 24, 0, 0, 0).unwrap_err(),
        TimeError::InvalidUtcHour
    );
}

#[test]
fn time_accessors() {
    let time = MetrumTime::new(845, 60, 160_000).unwrap();
    assert_eq!(time.minute(), 845);
    assert_eq!(time.tick(), 60);
    assert_eq!(time.subtick(), 160_000);
}
