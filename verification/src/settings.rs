use vstd::prelude::*;

verus! {

/// Game settings configurable in the lobby before starting a match.
/// Gameplay-changing settings are toggleable; visual/UX features are always on.
#[derive(Clone, Copy, Debug, PartialEq, Eq, Structural)]
pub struct GameSettings {
    /// Enable terrain obstacles on the battlefield
    pub terrain_enabled: bool,
    /// Allow destructible cover (in addition to indestructible walls)
    pub terrain_destructible: bool,
    /// Enable draft/ban phase where each player bans 2 unit types
    pub draft_ban_enabled: bool,
    /// Enable smarter AI (counter-picking, balanced compositions)
    pub smart_ai: bool,
    /// Player's chosen team color index (0-5)
    pub player_color_index: u8,
}

/// Number of team colours on offer.
pub const TEAM_COLOR_COUNT: u8 = 6;

impl GameSettings {
    /// No terrain (destructible cover on when terrain is enabled), no draft,
    /// plain AI, red.
    pub fn default() -> (s: Self)
        ensures
            s == (GameSettings {
                terrain_enabled: false,
                terrain_destructible: true,
                draft_ban_enabled: false,
                smart_ai: false,
                player_color_index: 0,
            }),
    {
        Self {
            terrain_enabled: false,
            terrain_destructible: true,
            draft_ban_enabled: false,
            smart_ai: false,
            player_color_index: 0,  // Red by default
        }
    }

    /// Joiner adopting the host's match settings: everything comes from the
    /// host except our own colour, which moves to the first other colour
    /// when it clashes with the host's (an unknown host colour reads as 255).
    pub fn adopt_host_settings(&mut self, host: GameSettings, peer_color_index: Option<u8>)
        ensures
            final(self).terrain_enabled == host.terrain_enabled,
            final(self).terrain_destructible == host.terrain_destructible,
            final(self).draft_ban_enabled == host.draft_ban_enabled,
            final(self).smart_ai == host.smart_ai,
            final(self).player_color_index == adopted_color(old(self).player_color_index, peer_color_index),
    {
        let peer_color_idx = match peer_color_index {
            Some(c) => c,
            None => 255,
        };
        let my_color = self.player_color_index;
        *self = host;
        self.player_color_index = my_color;
        // If peer color matches ours, pick a different one
        if my_color == peer_color_idx {
            let mut i: u8 = 0;
            while i < TEAM_COLOR_COUNT
                invariant_except_break
                    *self == (GameSettings { player_color_index: my_color, ..host }),
                invariant
                    i <= 1,
                    my_color == peer_color_idx,
                    i == 1 ==> peer_color_idx == 0,
                ensures
                    *self == (GameSettings {
                        player_color_index: (if peer_color_idx == 0 { 1u8 } else { 0u8 }),
                        ..host
                    }),
                decreases TEAM_COLOR_COUNT - i,
            {
                if i != peer_color_idx {
                    self.player_color_index = i;
                    break;
                }
                i = i + 1;
            }
        }
    }
}


/// The colour a joiner ends up with after adopting the host's settings
/// (see `adopt_host_settings`).
pub open spec fn adopted_color(mine: u8, peer_color_index: Option<u8>) -> u8 {
    let peer = match peer_color_index {
        Some(c) => c,
        None => 255u8,
    };
    if peer == mine {
        if peer == 0 { 1u8 } else { 0u8 }
    } else {
        mine
    }
}

/// The two players never share a colour: after adopting the host's
/// settings the joiner's colour differs from the host's, and it is kept
/// whenever there was no clash.
pub proof fn lemma_colours_never_clash(mine: u8, host_color: u8)
    ensures
        adopted_color(mine, Some(host_color)) != host_color,
        mine != host_color ==> adopted_color(mine, Some(host_color)) == mine,
{
}

} // verus!
