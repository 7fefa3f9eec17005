use vstd::prelude::*;

verus! {

/// Canonical player identity within a match.
#[derive(Clone, Copy, Debug, PartialEq, Eq, Structural)]
pub enum Role {
    /// Player 0 — always builds on the left half.
    Host,
    /// Player 1 — always builds on the right half (camera flipped later).
    Guest,
    /// Observer — no build zone, cannot act.
    Spectator,
}

/// The player id a role plays as; observers get the sentinel 255.
pub open spec fn role_player_id(role: Role) -> u8 {
    match role {
        Role::Host => 0,
        Role::Guest => 1,
        Role::Spectator => 255,
    }
}

/// The player id of the role's opponent; observers get the sentinel 255.
pub open spec fn role_opponent_id(role: Role) -> u8 {
    match role {
        Role::Host => 1,
        Role::Guest => 0,
        Role::Spectator => 255,
    }
}

impl Role {
    /// The canonical player_id (0 for Host, 1 for Guest).
    pub fn player_id(self) -> (id: u8)
        ensures
            id == role_player_id(self),
    {
        match self {
            Role::Host => 0,
            Role::Guest => 1,
            Role::Spectator => 255,
        }
    }

    /// The opponent's player_id.
    pub fn opponent_id(self) -> (id: u8)
        ensures
            id == role_opponent_id(self),
    {
        match self {
            Role::Host => 1,
            Role::Guest => 0,
            Role::Spectator => 255,
        }
    }
}

/// The two playing roles face each other: each one's opponent id is the
/// other's own id, and a player's opponent is never itself.
pub proof fn lemma_roles_face_each_other()
    ensures
        role_opponent_id(Role::Host) == role_player_id(Role::Guest),
        role_opponent_id(Role::Guest) == role_player_id(Role::Host),
        forall|r: Role| r != Role::Spectator ==> role_player_id(r) != role_opponent_id(r),
{
}

} // verus!
