use iqscan::full::FullScan;
use iqscan::pair_count;

#[test]
fn million_zero_bytes_all_clipped_low() {
    let bytes = vec![0u8; 2_000_000];
    let mut scan = FullScan::new(1_000_000);
    scan.process_chunk(&bytes);
    assert_eq!(scan.total_pairs, 1_000_000);
    assert_eq!(scan.i_low, 1_000_000);
    assert_eq!(scan.q_low, 1_000_000);
    assert_eq!(scan.i_high, 0);
    assert_eq!(scan.q_high, 0);
    assert_eq!(scan.percent_micro(), Some(100_000_000));
    assert_eq!(scan.per_second.len(), 1);
    assert_eq!(scan.per_second[0], (0, 1_000_000));
}

#[test]
fn four_bytes_one_pair_clipped_on_both_channels() {
    let bytes = [10u8, 20, 0, 255];
    let mut scan = FullScan::new(2);
    scan.process_chunk(&bytes);
    assert_eq!(scan.total_pairs, 2);
    assert_eq!(scan.i_low, 1);
    assert_eq!(scan.q_high, 1);
    assert_eq!(scan.i_high, 0);
    assert_eq!(scan.q_low, 0);
    // both pairs fall in bucket floor(index / 2) == 0; only one is clipped,
    // and a pair clipped on both channels counts once toward the map
    assert_eq!(scan.per_second.len(), 1);
    assert_eq!(scan.per_second[0], (0, 1));
}

#[test]
fn empty_scan_has_no_counts_and_no_percentage() {
    let scan = FullScan::new(5);
    assert_eq!(scan.total_pairs, 0);
    assert_eq!(scan.total_clipped(), 0);
    assert_eq!(scan.percent_micro(), None);
    assert_eq!(scan.per_second.len(), 0);
}

#[test]
fn odd_trailing_byte_is_dropped() {
    let bytes = [0u8, 255, 7];
    let mut scan = FullScan::new(1);
    scan.process_chunk(&bytes);
    assert_eq!(scan.total_pairs, 1);
    assert_eq!(scan.i_low, 1);
    assert_eq!(scan.q_high, 1);
}

#[test]
fn chunk_split_matches_single_chunk() {
    let bytes = [0u8, 1, 255, 2, 3, 0, 4, 255, 5, 6, 0, 0, 255, 255, 9, 9];
    let mut whole = FullScan::new(3);
    whole.process_chunk(&bytes);
    let mut split = FullScan::new(3);
    split.process_chunk(&bytes[..6]);
    split.process_chunk(&bytes[6..10]);
    split.process_chunk(&bytes[10..]);
    assert_eq!(split.total_pairs, whole.total_pairs);
    assert_eq!(split.i_low, whole.i_low);
    assert_eq!(split.i_high, whole.i_high);
    assert_eq!(split.q_low, whole.q_low);
    assert_eq!(split.q_high, whole.q_high);
    assert_eq!(split.per_second, whole.per_second);
}

#[test]
fn odd_chunk_drops_its_own_trailing_byte() {
    let mut scan = FullScan::new(1);
    scan.process_chunk(&[0u8]);
    assert_eq!(scan.total_pairs, 0);
    scan.process_chunk(&[255u8, 255]);
    assert_eq!(scan.total_pairs, 1);
    assert_eq!(scan.i_high, 1);
    assert_eq!(scan.q_high, 1);
}

#[test]
fn per_second_map_is_ascending_and_skips_clean_seconds() {
    // rate 2: pairs 0..1 are second 0, pairs 2..3 second 1, pairs 4..5 second 2
    let bytes = [
        0u8, 9, // pair 0: clipped (i low), second 0
        9, 9, // pair 1: clean
        9, 9, // pair 2: clean, second 1
        9, 9, // pair 3: clean
        9, 255, // pair 4: clipped (q high), second 2
        255, 0, // pair 5: clipped on both channels, second 2
    ];
    let mut scan = FullScan::new(2);
    scan.process_chunk(&bytes);
    assert_eq!(scan.per_second, vec![(0, 1), (2, 2)]);
    assert_eq!(scan.i_low, 1);
    assert_eq!(scan.i_high, 1);
    assert_eq!(scan.q_low, 1);
    assert_eq!(scan.q_high, 1);
}

#[test]
fn percentage_counts_channel_events_over_samples() {
    // one clipped channel event over 2 pairs = 4 samples: 25%
    let bytes = [0u8, 5, 9, 9];
    let mut scan = FullScan::new(10);
    scan.process_chunk(&bytes);
    assert_eq!(scan.total_clipped(), 1);
    assert_eq!(scan.percent_micro(), Some(25_000_000));
}

#[test]
fn total_clipped_sums_the_four_counters() {
    let bytes = [0u8, 255, 255, 0, 0, 0, 9, 9];
    let mut scan = FullScan::new(4);
    scan.process_chunk(&bytes);
    assert_eq!(scan.i_low, 2);
    assert_eq!(scan.i_high, 1);
    assert_eq!(scan.q_low, 2);
    assert_eq!(scan.q_high, 1);
    assert_eq!(scan.total_clipped(), 6);
    // 6 events over 8 samples: 75%
    assert_eq!(scan.percent_micro(), Some(75_000_000));
}

#[test]
fn pair_count_halves_and_rounds_down() {
    assert_eq!(pair_count(0), 0);
    assert_eq!(pair_count(1), 0);
    assert_eq!(pair_count(4), 2);
    assert_eq!(pair_count(5), 2);
}
