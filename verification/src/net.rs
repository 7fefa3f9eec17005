use vstd::prelude::*;

verus! {

/// One player's line in the host's end-of-round report.
#[derive(Clone, Copy, Debug, PartialEq, Eq, Structural)]
pub struct RoundEndPlayerData {
    pub player_id: u16,
    pub alive_count: u16,
    pub total_hp: i32,
    pub timeout_damage: i32,
}

/// A full authoritative state snapshot received from the host.
#[derive(Clone, Debug)]
pub struct StateSyncData {
    pub frame: u32,
    pub units_data: Vec<u8>,
    pub projectiles_data: Vec<u8>,
    pub obstacles_data: Vec<u8>,
}

/// The host's authoritative end-of-round result.
#[derive(Clone, Debug)]
pub struct RoundEndData {
    pub winner: Option<u16>,
    pub lp_damage: i32,
    pub loser: Option<u16>,
    pub per_player: Vec<RoundEndPlayerData>,
}

/// Derive a u16 player_id from the 16 bytes of a peer's UUID: its first
/// two bytes read big-endian.
pub fn player_id_from_uuid_bytes(bytes: &[u8; 16]) -> (id: u16)
    ensures
        id == bytes@[0] * 256 + bytes@[1],
{
    (bytes[0] as u16) * 256 + (bytes[1] as u16)
}

} // verus!
