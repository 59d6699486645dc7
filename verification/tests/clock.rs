use singeros::clock::Moment;

#[test]
fn epoch_in_shanghai() {
    let m = Moment::from_unix(0, 0).unwrap();
    assert_eq!(m.shanghai_display(), "1970-01-01 08:00:00");
    assert_eq!(m.shanghai_compact(), "19700101_080000");
    assert_eq!(m.rfc3339(), "1970-01-01T00:00:00+00:00");
    assert_eq!(m.secs(), 0);
    assert_eq!(m.nanos(), 0);
}

#[test]
fn shanghai_crosses_midnight() {
    let m = Moment::from_unix(1_700_000_000, 0).unwrap();
    assert_eq!(m.shanghai_display(), "2023-11-15 06:13:20");
    assert_eq!(m.shanghai_compact(), "20231115_061320");
}

#[test]
fn whole_seconds_round_toward_zero() {
    let a = Moment::from_unix(10, 500_000_000).unwrap();
    let b = Moment::from_unix(5, 700_000_000).unwrap();
    assert_eq!(a.whole_seconds_since(&b), 4);
    assert_eq!(b.whole_seconds_since(&a), -4);
    assert_eq!(a.whole_seconds_since(&a), 0);
}

#[test]
fn unrepresentable_instants_are_refused() {
    assert!(Moment::from_unix(0, 2_000_000_000).is_none());
    assert!(Moment::from_unix(i64::MAX, 0).is_none());
    assert!(Moment::from_unix(-1, 999_999_999).is_some());
}

#[test]
fn later_than_orders_by_seconds_then_nanos() {
    let a = Moment::from_unix(5, 1).unwrap();
    let b = Moment::from_unix(5, 0).unwrap();
    let c = Moment::from_unix(4, 999_999_999).unwrap();
    assert!(a.is_later_than(&b));
    assert!(b.is_later_than(&c));
    assert!(!c.is_later_than(&a));
    assert!(!a.is_later_than(&a));
}

#[test]
fn calendar_range_bounds_are_chronos() {
    assert!(Moment::from_unix(-8_334_601_228_800, 0).is_some());
    assert!(Moment::from_unix(-8_334_601_228_801, 999_999_999).is_none());
    assert!(Moment::from_unix(8_210_266_876_799, 999_999_999).is_some());
    assert!(Moment::from_unix(8_210_266_876_800, 0).is_none());
}

#[test]
fn leap_seconds_only_in_the_last_second_of_a_minute() {
    assert!(Moment::from_unix(59, 1_500_000_000).is_some());
    assert!(Moment::from_unix(-1, 1_000_000_000).is_some());
    assert!(Moment::from_unix(58, 1_000_000_000).is_none());
    assert!(Moment::from_unix(59, 2_000_000_000).is_none());
}

#[test]
fn whole_seconds_across_a_leap_second() {
    let leap = Moment::from_unix(59, 1_500_000_000).unwrap();
    let start = Moment::from_unix(0, 0).unwrap();
    let after = Moment::from_unix(60, 0).unwrap();
    let later = Moment::from_unix(61, 0).unwrap();
    assert_eq!(leap.whole_seconds_since(&start), 60);
    assert_eq!(after.whole_seconds_since(&leap), 0);
    assert_eq!(later.whole_seconds_since(&leap), 1);
    assert_eq!(start.whole_seconds_since(&leap), -60);
    assert_eq!(leap.whole_seconds_since(&after), 0);
}
