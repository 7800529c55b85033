use gtfsfabrik::datetime::{gtfs_time_fits, gtfs_time_to_seconds, seconds_to_gtfs_time, Day, Time};
use gtfsfabrik::errors::TimeParsingError;

#[test]
fn reads_plain_time() {
    assert_eq!(gtfs_time_to_seconds("08:30:15").unwrap(), 8 * 3600 + 30 * 60 + 15);
}

#[test]
fn reads_time_after_midnight() {
    assert_eq!(gtfs_time_to_seconds("27:15:30").unwrap(), 98130);
}

#[test]
fn rejects_bad_format() {
    assert!(matches!(gtfs_time_to_seconds("08:30"), Err(TimeParsingError::InvalidFormat(t)) if t == "08:30"));
    assert!(matches!(gtfs_time_to_seconds("xx:30:00"), Err(TimeParsingError::InvalidFormat(_))));
}

#[test]
fn rejects_bad_minutes_and_seconds() {
    assert!(matches!(gtfs_time_to_seconds("08:60:00"),
        Err(TimeParsingError::InvalidComponent(n, p)) if n == "minutes" && p == "60"));
    assert!(matches!(gtfs_time_to_seconds("08:00:7x"),
        Err(TimeParsingError::InvalidComponent(n, p)) if n == "seconds" && p == "7x"));
}

#[test]
fn writes_gtfs_time() {
    assert_eq!(seconds_to_gtfs_time(3723), "01:02:03");
    assert_eq!(seconds_to_gtfs_time(98130), "27:15:30");
    assert_eq!(seconds_to_gtfs_time(0), "00:00:00");
}

#[test]
fn time_round_trip() {
    let t = seconds_to_gtfs_time(45296);
    assert_eq!(gtfs_time_to_seconds(&t).unwrap(), 45296);
}

#[test]
fn huge_hours_do_not_fit() {
    assert!(gtfs_time_fits("10:00:00"));
    assert!(gtfs_time_fits("not a time"));
    assert!(!gtfs_time_fits("18446744073709551615:00:00"));
}

#[test]
fn time_after_midnight_is_next_day() {
    assert!(matches!(Time::new(25, 0, 0).day, Day::NextDay));
    assert!(matches!(Time::new(23, 59, 0).day, Day::CurrentDay));
}
