use plc_mirror::clock::{Span, Timestamp};

#[test]
fn a_point_in_time_exists_within_the_years_of_the_calendar() {
    assert!(Timestamp::new(-8_334_601_228_800, 0).is_some());
    assert!(Timestamp::new(-8_334_601_228_801, 999_999_999).is_none());
    assert!(Timestamp::new(8_210_266_876_799, 999_999_999).is_some());
    assert!(Timestamp::new(8_210_266_876_800, 0).is_none());
    assert!(Timestamp::new(59, 1_999_999_999).is_some());
    assert!(Timestamp::new(-1, 1_500_000_000).is_some());
    assert!(Timestamp::new(58, 1_000_000_000).is_none());
    assert!(Timestamp::new(59, 2_000_000_000).is_none());
}

#[test]
fn the_points_in_time_are_those_of_chrono() {
    for (secs, nanos) in [
        (-8_334_601_228_800, 0),
        (-8_334_601_228_801, 0),
        (8_210_266_876_799, 0),
        (8_210_266_876_800, 0),
        (59, 1_000_000_000),
        (60, 1_000_000_000),
        (-1, 1_000_000_000),
        (0, 2_000_000_000),
        (1_700_000_000, 5),
    ] {
        assert_eq!(
            Timestamp::new(secs, nanos).is_some(),
            chrono::DateTime::from_timestamp(secs, nanos).is_some()
        );
    }
}

#[test]
fn milliseconds_and_hours_go_down_from_the_second() {
    let moment = Timestamp::new(1_704_164_645, 987_654_321).unwrap();
    assert_eq!(moment.secs(), 1_704_164_645);
    assert_eq!(moment.nanos(), 987_654_321);
    assert_eq!(moment.millis(), 1_704_164_645_987);
    assert_eq!(moment.hour(), 3);
    let before = Timestamp::new(-1, 500_000_000).unwrap();
    assert_eq!(before.millis(), -500);
    assert_eq!(before.hour(), 23);
    for secs in [-86_401, -86_400, -3_601, 0, 3_599, 3_600, 86_399, 1_700_000_000] {
        let ours = Timestamp::new(secs, 1_999_999).unwrap();
        let theirs = chrono::DateTime::from_timestamp(secs, 1_999_999).unwrap();
        assert_eq!(ours.millis(), theirs.timestamp_millis());
        assert_eq!(ours.hour(), chrono::Timelike::hour(&theirs));
    }
}

#[test]
fn a_point_in_time_is_written_in_full_and_to_the_second() {
    let moment = Timestamp::new(1_704_164_645, 0).unwrap();
    assert_eq!(moment.to_rfc3339(), "2024-01-02T03:04:05+00:00");
    assert_eq!(moment.to_cursor(), "2024-01-02T03:04:05Z");
    let finer = Timestamp::new(1_704_164_645, 120_000_000).unwrap();
    assert_eq!(finer.to_rfc3339(), "2024-01-02T03:04:05.120+00:00");
    assert_eq!(finer.to_cursor(), "2024-01-02T03:04:05Z");
    for (secs, nanos) in [(-8_334_601_228_800, 0), (8_210_266_876_799, 0), (59, 1_999_999_999)] {
        let edge = Timestamp::new(secs, nanos).unwrap();
        assert!(!edge.to_rfc3339().is_empty());
        assert!(edge.to_cursor().ends_with('Z'));
    }
}

#[test]
fn points_in_time_are_ordered() {
    let a = Timestamp::new(10, 5).unwrap();
    let b = Timestamp::new(10, 6).unwrap();
    let c = Timestamp::new(11, 0).unwrap();
    assert!(a.is_before(&b));
    assert!(b.is_before(&c));
    assert!(!c.is_before(&a));
    assert!(!a.is_before(&a));
}

#[test]
fn lengths_of_time_are_cut_and_compared() {
    let minute = Span::from_secs(60);
    assert_eq!(minute.as_nanos(), 60_000_000_000);
    assert_eq!(minute.part(7).as_nanos(), 8_571_428_571);
    assert_eq!(minute.as_millis(), 60_000);
    assert_eq!(minute.as_secs(), 60);
    assert_eq!(Span::from_millis(1_999).as_secs(), 1);
    assert_eq!(minute.max(Span::from_millis(70_000)).as_secs(), 70);
    assert_eq!(minute.max(Span::from_millis(50_000)).as_secs(), 60);
    let longest = u64::MAX as u128 * 1_000_000_000 + 999_999_999;
    assert_eq!(Span::from_nanos(longest).unwrap().as_secs(), u64::MAX);
    assert!(Span::from_nanos(longest + 1).is_none());
}
