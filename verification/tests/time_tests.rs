use allezon::aggregates::{Aggregate, AggregatesQuery, AggregatesRow};
use allezon::datetime::{parse_millis_str, parse_rfc3339_str, parse_seconds_str, DateTime};
use allezon::time_range::{BucketsRange, SimpleTimeRange};
use allezon::user_tag::Action;

fn dt(year: u16, month: u8, day: u8, hour: u8, minute: u8, second: u8, milli: u16) -> DateTime {
    DateTime { year, month, day, hour, minute, second, milli }
}

#[test]
fn parse_datetime() {
    let expected = dt(2022, 1, 12, 3, 45, 12, 1);
    let as_str = "2022-01-12T03:45:12.001";
    let parsed = parse_millis_str(as_str).unwrap();
    assert_eq!(expected, parsed);

    let expected = dt(2022, 1, 12, 3, 45, 12, 0);
    let as_str = "2022-01-12T03:45:12";
    let parsed = parse_seconds_str(as_str).unwrap();
    assert_eq!(expected, parsed);
}

#[test]
fn de_simpletimerange() {
    let deserialized = SimpleTimeRange::parse("2022-03-22T12:15:00.000_2022-03-22T12:30:00.000")
        .unwrap();
    assert_eq!(deserialized.from, dt(2022, 3, 22, 12, 15, 0, 0));
    assert_eq!(deserialized.to, dt(2022, 3, 22, 12, 30, 0, 0));

    let deserialized = SimpleTimeRange::parse("2022-03-22T12:15:12.000_2022-03-22T12:30:01.000")
        .unwrap();
    assert_eq!(deserialized.from, dt(2022, 3, 22, 12, 15, 12, 0));
    assert_eq!(deserialized.to, dt(2022, 3, 22, 12, 30, 1, 0));

    // End earlier than begin.
    assert!(SimpleTimeRange::parse("2022-03-22T12:30:00.000_2022-03-22T12:15:00.000").is_none());

    // More than 2 datetimes.
    assert!(
        SimpleTimeRange::parse("2022-03-22T12:15:00.000_2022-03-22T12:30:00.000_2022-03-22T12:45:00.000")
            .is_none()
    );
}

#[test]
fn de_bucketsrange() {
    let deserialized = BucketsRange::parse("2022-03-22T12:15:00_2022-03-22T12:25:00").unwrap();
    assert_eq!(deserialized.from, dt(2022, 3, 22, 12, 15, 0, 0));
    assert_eq!(deserialized.to, dt(2022, 3, 22, 12, 25, 0, 0));

    // Milliseconds precision.
    assert!(BucketsRange::parse("2022-03-22T12:15:00.000_2022-03-22T12:25:00.000").is_none());

    // Not full minutes.
    assert!(BucketsRange::parse("2022-03-22T12:20:01_2022-03-22T12:22:00").is_none());

    // End earlier than begin.
    assert!(BucketsRange::parse("2022-03-22T12:30:00.001_2022-03-22T12:25:00").is_none());

    // More than 2 datetimes.
    assert!(
        BucketsRange::parse("2022-03-22T12:15:00_2022-03-22T12:30:00_2022-03-22T12:45:00").is_none()
    );

    // More than 10 minutes.
    assert!(BucketsRange::parse("2022-03-22T12:20:00_2022-03-22T12:31:00").is_none());
}

#[test]
fn buckets() {
    let range = BucketsRange::parse("2022-03-22T12:15:00_2022-03-22T12:20:00").unwrap();

    assert_eq!(range.buckets_count(), 5);

    let starts: Vec<String> = range.bucket_starts().iter().map(|s| s.format_seconds()).collect();
    let expected = vec![
        "2022-03-22T12:15:00".to_string(),
        "2022-03-22T12:16:00".to_string(),
        "2022-03-22T12:17:00".to_string(),
        "2022-03-22T12:18:00".to_string(),
        "2022-03-22T12:19:00".to_string(),
    ];
    assert_eq!(starts, expected);

    let range = BucketsRange::parse("2022-03-22T12:15:00_2022-03-22T12:15:00").unwrap();

    assert_eq!(range.buckets_count(), 0);

    let starts: Vec<String> = range.bucket_starts().iter().map(|s| s.format_seconds()).collect();
    let expected: Vec<String> = Default::default();
    assert_eq!(starts, expected);
}

#[test]
fn ser_de_datetime() {
    let as_str = "2022-03-22T12:15:00.000Z";
    let expected = dt(2022, 3, 22, 12, 15, 0, 0);

    let deserialized = parse_rfc3339_str(as_str).unwrap();
    assert_eq!(deserialized, expected);

    let serialized = expected.format_rfc3339();
    assert_eq!(serialized, as_str);
}

#[test]
fn make_reply() {
    let time_range = BucketsRange::parse("2022-03-22T12:15:00_2022-03-22T12:17:00").unwrap();
    let query = AggregatesQuery {
        time_range,
        action: Action::Buy,
        origin: None,
        brand_id: None,
        category_id: None,
        aggregates: vec![Aggregate::Count],
    };

    query
        .clone()
        .make_reply(vec![
            AggregatesRow { sum_price: 2, count: 1 },
            AggregatesRow { sum_price: 2, count: 2 },
        ])
        .unwrap();

    // Invalid row count.
    query.make_reply(vec![AggregatesRow { sum_price: 1, count: 1 }]).unwrap_err();
}

#[test]
fn rollover_minutes() {
    // Leap-year February, month, year and day boundaries.
    let range = BucketsRange::parse("2020-02-28T23:58:00_2020-02-29T00:02:00").unwrap();
    let starts: Vec<String> = range.bucket_starts().iter().map(|s| s.format_seconds()).collect();
    assert_eq!(
        starts,
        vec![
            "2020-02-28T23:58:00".to_string(),
            "2020-02-28T23:59:00".to_string(),
            "2020-02-29T00:00:00".to_string(),
            "2020-02-29T00:01:00".to_string(),
        ]
    );

    let range = BucketsRange::parse("2021-12-31T23:59:00_2022-01-01T00:01:00").unwrap();
    let starts: Vec<String> = range.bucket_starts().iter().map(|s| s.format_seconds()).collect();
    assert_eq!(
        starts,
        vec!["2021-12-31T23:59:00".to_string(), "2022-01-01T00:00:00".to_string()]
    );

    // A non-leap February.
    assert!(parse_seconds_str("2021-02-29T00:00:00").is_none());
    assert!(parse_seconds_str("2020-02-29T00:00:00").is_some());
}

#[test]
fn epoch_arithmetic() {
    // The epoch itself, and one known timestamp.
    assert_eq!(dt(1970, 1, 1, 0, 0, 0, 0).timestamp_millis(), 0);
    assert_eq!(dt(2022, 3, 22, 12, 15, 0, 0).timestamp_secs(), 1647951300);
    assert_eq!(dt(1969, 12, 31, 23, 59, 59, 0).timestamp_secs(), -1);
}
