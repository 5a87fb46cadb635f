use chrono::Datelike;
use chrono::TimeZone;
use chrono::Timelike;
use chrono::Utc;
use metrum::calendar::days_in_month;
use metrum::calendar::days_in_year;
use metrum::calendar::is_leap_year;
use metrum::calendar::year_day;
use metrum::time::MetrumDateTime;

fn from_naive(naive: chrono::NaiveDateTime) -> MetrumDateTime {
    MetrumDateTime::from_utc(
        naive.year(),
        naive.month() as u8,
        naive.day() as u8,
        naive.hour() as u8,
        naive.minute() as u8,
        naive.second() as u8,
        naive.nanosecond(),
    )
    .unwrap()
}

#[test]
fn leap_years() {
    assert!(days_in_month(2, 1980) == 29);
    assert!(days_in_month(2, 2000) == 29);
    assert!(days_in_month(2, 2020) == 29);

    assert!(days_in_month(2, 1900) == 28);
    assert!(days_in_month(2, 2014) == 28);
}

#[test]
fn constructors() {
    let naive = Utc.with_ymd_and_hms(1970, 12, 24, 12, 15, 17).unwrap().naive_utc();
    let mut date_time = from_naive(naive);
    date_time.set_subtick(0);
    let mut same_date_time = MetrumDateTime::from_utc(1970, 12, 24, 12, 15, 17, 0).unwrap();
    same_date_time.set_subtick(0);
    let also_same_date_time = MetrumDateTime::new(
        date_time.year(),
        date_time.day(),
        date_time.minute(),
        date_time.tick(),
        date_time.subtick(),
    )
    .unwrap();
    assert_eq!(date_time, same_date_time);
    assert_eq!(date_time, also_same_date_time);
}

#[test]
fn timestamps() {
    let mut now = from_naive(Utc::now().naive_utc());
    now.set_subtick(0);
    let timestamp = now.timestamp();
    assert_eq!(MetrumDateTime::from_timestamp(timestamp), now);

    let mut moon_landing = MetrumDateTime::from_utc(1969, 7, 20, 20, 17, 40, 0).unwrap();
    moon_landing.set_subtick(0);
    assert_eq!(moon_landing, MetrumDateTime::from_timestamp(moon_landing.timestamp()));
}

#[test]
fn leap_year_rule() {
    assert!(!is_leap_year(1900));
    assert!(is_leap_year(1980));
    assert!(is_leap_year(2000));
    assert!(!is_leap_year(2014));
    assert!(is_leap_year(2020));
    assert!(is_leap_year(-4));
    assert!(!is_leap_year(-100));
    assert_eq!(days_in_year(2000), 366);
    assert_eq!(days_in_year(1900), 365);
}

#[test]
fn year_day_ordinals() {
    assert_eq!(year_day(2000, 1, 1), 0);
    assert_eq!(year_day(2000, 3, 1), 60);
    assert_eq!(year_day(1900, 3, 1), 59);
    assert_eq!(year_day(2000, 12, 31), 365);
}

#[test]
fn epoch_anchor() {
    let anchor = MetrumDateTime::new(2000, 0, 0, 0, 0).unwrap();
    assert_eq!(anchor.timestamp(), 0);
    assert_eq!(MetrumDateTime::from_timestamp(0), anchor);
}

#[test]
fn time_remap_exact() {
    let moon_landing = MetrumDateTime::from_utc(1969, 7, 20, 20, 17, 40, 0).unwrap();
    assert_eq!(moon_landing.year(), 1969);
    assert_eq!(moon_landing.day(), 200);
    assert_eq!(moon_landing.minute(), 845);
    assert_eq!(moon_landing.tick(), 60);
    assert_eq!(moon_landing.subtick(), 160_000);
}

#[test]
fn timestamp_exact_values() {
    let next_year = MetrumDateTime::new(2001, 0, 0, 0, 0).unwrap();
    assert_eq!(next_year.timestamp(), 36_600_000);
    let previous_year = MetrumDateTime::new(1999, 0, 0, 0, 0).unwrap();
    assert_eq!(previous_year.timestamp(), -36_500_000);
    let within = MetrumDateTime::new(2000, 2, 3, 4, 0).unwrap();
    assert_eq!(within.timestamp(), 200_304);
}

#[test]
fn from_timestamp_before_epoch_boundaries() {
    let last_tick_of_1999 = MetrumDateTime::from_timestamp(-1);
    assert_eq!(last_tick_of_1999, MetrumDateTime::new(1999, 364, 999, 99, 0).unwrap());
    let start_of_1999 = MetrumDateTime::from_timestamp(-36_500_000);
    assert_eq!(start_of_1999, MetrumDateTime::new(1999, 0, 0, 0, 0).unwrap());
    let last_tick_of_1998 = MetrumDateTime::from_timestamp(-36_500_001);
    assert_eq!(last_tick_of_1998, MetrumDateTime::new(1998, 364, 999, 99, 0).unwrap());
}

#[test]
fn round_trip_across_boundaries() {
    let cases: [i64; 9] = [
        0,
        1,
        -1,
        36_600_000,
        -36_500_000,
        99_999,
        100_000,
        -3_155_800_000,
        3_155_800_000,
    ];
    for &timestamp in cases.iter() {
        let value = MetrumDateTime::from_timestamp(timestamp);
        assert_eq!(value.timestamp(), timestamp);
    }
}

#[test]
fn round_trip_century_exception() {
    let mut century = MetrumDateTime::from_utc(1900, 2, 28, 23, 59, 59, 0).unwrap();
    century.set_subtick(0);
    assert_eq!(MetrumDateTime::from_timestamp(century.timestamp()), century);
    let mut leap_century = MetrumDateTime::from_utc(2000, 2, 29, 0, 0, 0, 0).unwrap();
    leap_century.set_subtick(0);
    assert_eq!(MetrumDateTime::from_timestamp(leap_century.timestamp()), leap_century);
}

#[test]
fn set_subtick_overwrites_only_subtick() {
    let mut value = MetrumDateTime::from_utc(1969, 7, 20, 20, 17, 40, 123_456_789).unwrap();
    let year = value.year();
    let day = value.day();
    let minute = value.minute();
    let tick = value.tick();
    value.set_subtick(7);
    assert_eq!(value.year(), year);
    assert_eq!(value.day(), day);
    assert_eq!(value.minute(), minute);
    assert_eq!(value.tick(), tick);
    assert_eq!(value.subtick(), 7);
}
