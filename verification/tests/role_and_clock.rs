use mech_game_ddev::{chrono_lite_timestamp, is_leap, player_id_from_uuid_bytes, Role};

#[test]
fn role_ids_match_canonical_slots() {
    assert_eq!(Role::Host.player_id(), 0);
    assert_eq!(Role::Guest.player_id(), 1);
    assert_eq!(Role::Spectator.player_id(), 255);
}

#[test]
fn role_opponents_face_each_other() {
    assert_eq!(Role::Host.opponent_id(), Role::Guest.player_id());
    assert_eq!(Role::Guest.opponent_id(), Role::Host.player_id());
    assert_eq!(Role::Spectator.opponent_id(), 255);
}

#[test]
fn leap_year_rule() {
    assert!(is_leap(2024));
    assert!(is_leap(2000));
    assert!(!is_leap(1900));
    assert!(!is_leap(2023));
    assert!(is_leap(1972));
}

#[test]
fn timestamp_of_epoch() {
    assert_eq!(chrono_lite_timestamp(0), "1970-01-01-000000");
}

#[test]
fn timestamp_of_known_instant() {
    // 2024-02-29 12:34:56 UTC
    assert_eq!(chrono_lite_timestamp(1_709_210_096), "2024-02-29-123456");
    // 2000-12-31 23:59:59 UTC
    assert_eq!(chrono_lite_timestamp(978_307_199), "2000-12-31-235959");
}

#[test]
fn timestamp_day_after_leap_day() {
    // 2024-03-01 00:00:00 UTC
    assert_eq!(chrono_lite_timestamp(1_709_251_200), "2024-03-01-000000");
}

#[test]
fn timestamp_fields_are_zero_padded() {
    // 1970-01-02 01:02:03
    assert_eq!(chrono_lite_timestamp(86_400 + 3_723), "1970-01-02-010203");
}

#[test]
fn peer_id_from_uuid_bytes_reads_big_endian() {
    let mut bytes = [0u8; 16];
    bytes[0] = 0x12;
    bytes[1] = 0x34;
    bytes[2] = 0xff;
    assert_eq!(player_id_from_uuid_bytes(&bytes), 0x1234);
}

#[test]
fn later_instants_sort_later() {
    let instants = [0u64, 59, 60, 3599, 3600, 86399, 86400, 951_782_399, 951_782_400, 1_700_000_000, 253_402_300_799];
    for w in instants.windows(2) {
        let (a, b) = (chrono_lite_timestamp(w[0]), chrono_lite_timestamp(w[1]));
        assert_eq!(a.len(), 17);
        assert!(a < b, "{} should sort before {}", a, b);
    }
    assert_eq!(chrono_lite_timestamp(951_782_400), "2000-02-29-000000");
    assert_eq!(chrono_lite_timestamp(253_402_300_799), "9999-12-31-235959");
}
