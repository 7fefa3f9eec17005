//! Match rules, economy, tech and synchronisation logic of a two-player
//! arena auto-battler: players draft and ban unit kinds, buy packs and
//! techs with per-round gold, and fight rounds whose outcome costs the
//! loser life points; two peers keep their simulations in lockstep by
//! exchanging per-frame state hashes.
//!
//! Every function here is verified; the contracts are stated over the spec
//! functions of each module.

pub mod arena;
pub mod battle_phase;
pub mod build_phase;
pub mod chat;
pub mod draft_ban;
pub mod economy;
pub mod game_state;
pub mod lobby;
pub mod logging;
pub mod match_progress;
pub mod net;
pub mod pack;
pub mod role;
pub mod settings;
pub mod sync;
pub mod tech;
pub mod terrain;
pub mod text;
pub mod unit;
mod rng;

pub use arena::{alive_count, check_match_state, timeout_damage, MatchState};
pub use battle_phase::{
    find_mismatch, frame_dilation, latest_peer_frame, record_local_hash, should_send_state, Dilation,
    DEBUG_DUMP_FRAMES, DILATION_THRESHOLD, HASH_HISTORY_LEN, MAX_STEPS_PER_FRAME, STATE_SEND_DEBOUNCE_FRAMES,
};
pub use build_phase::{buy_tech, undo_tech, Undone};
pub use chat::{ChatInput, ChatKey, MAX_CHAT_LEN};
pub use draft_ban::{decode_bans, draft_ban_result, encode_bans, toggle_ban, DraftBanResult, MAX_BANS};
pub use economy::{
    affordable_count, ai_buy_techs, ai_tech_attempt, ai_tech_choices, category_pool_len, pick_affordable, pick_in_category,
    random_army_filtered,
};
pub use game_state::{BuildState, GamePhase, PlacedPack, UndoEntry};
pub use lobby::{generate_room_code, room_code_from_draws, type_code_char, type_name_char, LobbyAction, LobbyEvent, LobbyMode, LobbyResult, MatchSettingsNext, MAX_NAME_LEN, ROOM_CODE_LEN};
pub use logging::{chrono_lite_timestamp, is_leap};
pub use match_progress::{AiMemory, MatchProgress, PlayerState, STARTING_LP};
pub use net::{player_id_from_uuid_bytes, RoundEndData, RoundEndPlayerData, StateSyncData};
pub use pack::{all_packs, assign_unit_ids, shop_offer, PackDef, PACK_COUNT};
pub use role::Role;
pub use settings::{GameSettings, TEAM_COLOR_COUNT};
pub use sync::{hash_order, unit_hash_order, HashKey};
pub use tech::{all_techs, TechDef, TechId, TechState, TECH_COUNT};
pub use terrain::{blocks_movement, blocks_projectile, nearest_passable, NavGrid, ObstacleType, NEUTRAL_OWNER};
pub use unit::{ProjectileType, UnitKind, UnitShape, UnitStatus, ALL_KINDS, KIND_COUNT};
