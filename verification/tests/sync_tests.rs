use std::collections::VecDeque;

use mech_game_ddev::{
    find_mismatch, frame_dilation, latest_peer_frame, record_local_hash, should_send_state, Dilation,
    HASH_HISTORY_LEN,
};

#[test]
fn hash_history_keeps_most_recent_window() {
    let mut recent = VecDeque::new();
    for f in 1..=300u32 {
        record_local_hash(&mut recent, f, f as u64 * 7);
        assert!(recent.len() <= HASH_HISTORY_LEN);
    }
    assert_eq!(recent.len(), HASH_HISTORY_LEN);
    assert_eq!(recent.front(), Some(&(45, 315)));
    assert_eq!(recent.back(), Some(&(300, 2100)));
}

#[test]
fn mismatch_detection() {
    let mut recent = VecDeque::new();
    record_local_hash(&mut recent, 10, 100);
    record_local_hash(&mut recent, 11, 110);
    record_local_hash(&mut recent, 12, 120);
    // unknown frames are ignored, matching frames are fine
    assert_eq!(find_mismatch(&recent, &[(9, 5), (10, 100), (11, 110)]), None);
    // the first disagreeing known frame is reported
    assert_eq!(find_mismatch(&recent, &[(13, 1), (11, 999), (12, 0)]), Some(11));
    assert_eq!(find_mismatch(&recent, &[]), None);
}

#[test]
fn peer_frame_only_moves_forward() {
    assert_eq!(latest_peer_frame(50, &[(40, 0), (45, 0)]), 50);
    assert_eq!(latest_peer_frame(50, &[(40, 0), (61, 0), (55, 0)]), 61);
    assert_eq!(latest_peer_frame(7, &[]), 7);
}

#[test]
fn state_send_debounce() {
    assert!(should_send_state(None, 0));
    assert!(!should_send_state(Some(100), 111));
    assert!(should_send_state(Some(100), 112));
    assert!(!should_send_state(Some(100), 50));
}

#[test]
fn dilation_thresholds() {
    assert_eq!(frame_dilation(100, 100), Dilation::Normal);
    assert_eq!(frame_dilation(110, 100), Dilation::Normal);
    assert_eq!(frame_dilation(111, 100), Dilation::SlowDown);
    assert_eq!(frame_dilation(89, 100), Dilation::SpeedUp);
    assert_eq!(frame_dilation(90, 100), Dilation::Normal);
}
