use iqscan::report::{header_label, second_label, TimeLabel};

#[test]
fn utc_header_at_the_epoch() {
    let label = header_label(0, false).unwrap();
    assert_eq!(label, "Thursday, January  1, 1970 at 00:00 UTC");
}

#[test]
fn utc_header_of_a_modern_timestamp() {
    let label = header_label(1431648000, false).unwrap();
    assert_eq!(label, "Friday, May 15, 2015 at 00:00 UTC");
}

#[test]
fn local_header_renders_something() {
    let label = header_label(1431648000, true).unwrap();
    assert!(!label.is_empty());
}

#[test]
fn second_label_without_epoch_is_the_raw_second() {
    match second_label(7, None, false) {
        Some(TimeLabel::RawSecond(s)) => assert_eq!(s, 7),
        other => panic!("unexpected label: {:?}", other),
    }
}

#[test]
fn second_label_with_epoch_is_the_anchored_second() {
    match second_label(5, Some(100), false) {
        Some(TimeLabel::EpochSeconds(t)) => assert_eq!(t, 105),
        other => panic!("unexpected label: {:?}", other),
    }
}

#[test]
fn second_label_localtime_is_a_clock_time() {
    match second_label(5, Some(1_431_648_000), true) {
        Some(TimeLabel::Clock(s)) => assert_eq!(s.len(), 8),
        other => panic!("unexpected label: {:?}", other),
    }
}
