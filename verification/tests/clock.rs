use chrono::{DateTime, Duration, Utc};
use nootnoot::clock::{Timestamp, MAX_SECS, MIN_SECS};

fn at(secs: i64, nanos: u32) -> Timestamp {
    Timestamp::new(secs, nanos).unwrap()
}

#[test]
fn calendar_is_that_of_the_clock() {
    assert_eq!(DateTime::<Utc>::MIN_UTC.timestamp(), MIN_SECS);
    assert_eq!(DateTime::<Utc>::MAX_UTC.timestamp(), MAX_SECS);
    for secs in [MIN_SECS - 1, MIN_SECS, -1, -61, 0, 59, 60, 1_700_000_039, MAX_SECS, MAX_SECS + 1] {
        for nanos in [0, 999_999_999, 1_000_000_000, 1_999_999_999, 2_000_000_000] {
            assert_eq!(
                Timestamp::new(secs, nanos).is_some(),
                DateTime::<Utc>::from_timestamp(secs, nanos).is_some(),
                "{} {}",
                secs,
                nanos
            );
        }
    }
}

#[test]
fn rfc3339_texts() {
    assert_eq!(at(0, 0).to_rfc3339(), "1970-01-01T00:00:00+00:00");
    assert_eq!(at(1_431_648_000, 0).to_rfc3339(), "2015-05-15T00:00:00+00:00");
    assert_eq!(at(1_431_648_000, 120_000_000).to_rfc3339(), "2015-05-15T00:00:00.120+00:00");
    assert_eq!(at(-1, 5).to_rfc3339(), "1969-12-31T23:59:59.000000005+00:00");
}

#[test]
fn earlier_times_are_those_of_the_clock() {
    for (secs, nanos) in [
        (0, 0),
        (1_700_000_000, 5),
        (59, 1_500_000_000),
        (-1, 1_000_000_000),
        (MIN_SECS + 10_800, 0),
        (MIN_SECS + 10_799, 999_999_999),
        (MIN_SECS, 0),
        (MAX_SECS, 1_999_999_999),
    ] {
        for span in [0u64, 1, 10_800, 86_400, 9_223_372_036_854_775] {
            let expected = DateTime::<Utc>::from_timestamp(secs, nanos)
                .unwrap()
                .checked_sub_signed(Duration::seconds(span as i64))
                .map(|t| at(t.timestamp(), t.timestamp_subsec_nanos()));
            assert_eq!(at(secs, nanos).back(span), expected, "{} {} {}", secs, nanos, span);
        }
    }
    assert_eq!(at(20_000, 7).back(10_800), Some(at(9_200, 7)));
    assert_eq!(at(59, 1_500_000_000).back(1), Some(at(59, 500_000_000)));
    assert_eq!(at(MIN_SECS, 0).back(1), None);
}

#[test]
fn order_of_times() {
    let times = [(-1, 5), (0, 0), (0, 1), (59, 999_999_999), (59, 1_000_000_000), (60, 0)];
    for a in times {
        for b in times {
            let expected = DateTime::<Utc>::from_timestamp(a.0, a.1).unwrap()
                < DateTime::<Utc>::from_timestamp(b.0, b.1).unwrap();
            assert_eq!(at(a.0, a.1).before(&at(b.0, b.1)), expected);
        }
    }
}
