use iqscan::breakout::{breakout_range, scan_range};
use iqscan::full::FullScan;

#[test]
fn range_of_a_second_inside_the_file() {
    // 12 bytes, 2 samples per second: 4 bytes per second, 3 full seconds
    assert_eq!(breakout_range(0, 2, 12), Ok((0, 4)));
    assert_eq!(breakout_range(1, 2, 12), Ok((4, 4)));
    assert_eq!(breakout_range(2, 2, 12), Ok((8, 4)));
}

#[test]
fn range_beyond_the_file_fails_with_max_duration() {
    let err = breakout_range(3, 2, 12).unwrap_err();
    assert_eq!(err.second, 3);
    assert_eq!(err.file_len, 12);
    assert_eq!(err.max_full_seconds, 3);
    let err = breakout_range(1000, 2, 13).unwrap_err();
    assert_eq!(err.max_full_seconds, 3);
}

#[test]
fn short_file_reports_zero_full_seconds() {
    // 10 bytes cannot hold even one second at 1,000,000 samples per second
    let err = breakout_range(0, 1_000_000, 10).unwrap_err();
    assert_eq!(err.second, 0);
    assert_eq!(err.file_len, 10);
    assert_eq!(err.max_full_seconds, 0);
}

#[test]
fn partial_last_second_is_not_requestable() {
    // 13 bytes at 2 samples per second: 3 full seconds and a remainder
    assert!(breakout_range(2, 2, 13).is_ok());
    let err = breakout_range(3, 2, 13).unwrap_err();
    assert_eq!(err.max_full_seconds, 3);
}

#[test]
fn scan_range_tallies_each_extreme_independently() {
    let bytes = [0u8, 255, 255, 0, 7, 7];
    let c = scan_range(&bytes);
    assert_eq!(c.i_low, 1);
    assert_eq!(c.i_high, 1);
    assert_eq!(c.q_low, 1);
    assert_eq!(c.q_high, 1);
}

#[test]
fn scan_range_drops_a_trailing_odd_byte() {
    let c = scan_range(&[0u8, 0, 255]);
    assert_eq!(c.i_low, 1);
    assert_eq!(c.q_low, 1);
    assert_eq!(c.i_high, 0);
    assert_eq!(c.q_high, 0);
}

#[test]
fn breakout_agrees_with_the_full_scan_on_one_second() {
    // 2 samples per second; second 1 holds pairs 2 and 3: (0, 1) and (255, 255)
    let bytes = [9u8, 9, 8, 8, 0, 1, 255, 255, 0, 0, 9, 9];
    let (start, len) = breakout_range(1, 2, bytes.len() as u64).unwrap();
    let c = scan_range(&bytes[start as usize..(start + len) as usize]);
    assert_eq!(c.i_low, 1);
    assert_eq!(c.i_high, 1);
    assert_eq!(c.q_low, 0);
    assert_eq!(c.q_high, 1);

    // the full scan's per-second map holds the deduplicated count of the same
    // pairs: both pairs of second 1 are clipped, counted once each
    let mut scan = FullScan::new(2);
    scan.process_chunk(&bytes);
    let entry = scan.per_second.iter().find(|&&(b, _)| b == 1).copied().unwrap();
    assert_eq!(entry, (1, 2));
    // deduplicated per-second count never exceeds the bucket's share of the
    // per-channel-per-extreme counters
    assert!(entry.1 <= c.i_low + c.i_high + c.q_low + c.q_high);
}
