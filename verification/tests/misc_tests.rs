use mech_game_ddev::{
    decode_bans, draft_ban_result, encode_bans, generate_room_code, nearest_passable, toggle_ban, DraftBanResult,
    GameSettings, type_code_char, type_name_char, MAX_NAME_LEN, LobbyAction, LobbyEvent, LobbyMode, MatchSettingsNext, NavGrid, UnitKind, ROOM_CODE_LEN,
};

#[test]
fn ban_toggling() {
    let mut bans = Vec::new();
    toggle_ban(&mut bans, UnitKind::Sniper);
    toggle_ban(&mut bans, UnitKind::Chaff);
    assert_eq!(bans, vec![UnitKind::Sniper, UnitKind::Chaff]);
    // a third ban is refused
    toggle_ban(&mut bans, UnitKind::Scout);
    assert_eq!(bans, vec![UnitKind::Sniper, UnitKind::Chaff]);
    // clicking a banned kind unbans it
    toggle_ban(&mut bans, UnitKind::Sniper);
    assert_eq!(bans, vec![UnitKind::Chaff]);
}

#[test]
fn ban_codes_round_trip() {
    let bans = vec![UnitKind::Interceptor, UnitKind::Striker];
    let codes = encode_bans(&bans);
    assert_eq!(codes, vec![12, 0]);
    assert_eq!(decode_bans(&codes), bans);
}

#[test]
fn out_of_range_ban_codes_are_dropped() {
    assert_eq!(decode_bans(&[3, 13, 200, 6]), vec![UnitKind::Scout, UnitKind::Chaff]);
}

#[test]
fn draft_ends_when_both_sides_are_in() {
    let bans = vec![UnitKind::Chaff];
    assert!(matches!(draft_ban_result(&bans, false, false, &None), DraftBanResult::Waiting));
    assert!(matches!(draft_ban_result(&bans, true, true, &None), DraftBanResult::Waiting));
    match draft_ban_result(&bans, true, true, &Some(vec![UnitKind::Sniper])) {
        DraftBanResult::Done(all) => assert_eq!(all, vec![UnitKind::Chaff, UnitKind::Sniper]),
        DraftBanResult::Waiting => panic!("draft should be done"),
    }
    match draft_ban_result(&bans, true, false, &None) {
        DraftBanResult::Done(all) => assert_eq!(all, vec![UnitKind::Chaff]),
        DraftBanResult::Waiting => panic!("offline draft should be done"),
    }
}

#[test]
fn room_codes_use_the_alphabet() {
    for _ in 0..50 {
        let code = generate_room_code();
        assert_eq!(code.chars().count(), ROOM_CODE_LEN);
        assert!(code.chars().all(|c| c.is_ascii_uppercase() || c.is_ascii_digit()));
    }
}

#[test]
fn default_settings() {
    let s = GameSettings::default();
    assert!(!s.terrain_enabled);
    assert!(s.terrain_destructible);
    assert!(!s.draft_ban_enabled);
    assert!(!s.smart_ai);
    assert_eq!(s.player_color_index, 0);
}

#[test]
fn joiner_adopts_host_settings_but_keeps_a_distinct_colour() {
    let host = GameSettings {
        terrain_enabled: true,
        terrain_destructible: false,
        draft_ban_enabled: true,
        smart_ai: true,
        player_color_index: 0,
    };
    let mut mine = GameSettings::default();
    mine.player_color_index = 3;
    mine.adopt_host_settings(host, Some(0));
    assert!(mine.terrain_enabled && !mine.terrain_destructible && mine.draft_ban_enabled && mine.smart_ai);
    assert_eq!(mine.player_color_index, 3);
    let mut clash = GameSettings::default();
    clash.adopt_host_settings(host, Some(0));
    assert_eq!(clash.player_color_index, 1);
    let mut clash2 = GameSettings::default();
    clash2.player_color_index = 4;
    clash2.adopt_host_settings(host, Some(4));
    assert_eq!(clash2.player_color_index, 0);
}

fn grid(width: usize, height: usize, blocked: &[(usize, usize)]) -> NavGrid {
    let mut cells = vec![true; width * height];
    for &(x, y) in blocked {
        cells[y * width + x] = false;
    }
    NavGrid { cells, width, height }
}

#[test]
fn passable_checks_bounds() {
    let g = grid(4, 3, &[(1, 1)]);
    assert!(g.passable(0, 0));
    assert!(!g.passable(1, 1));
    assert!(!g.passable(4, 0));
    assert!(!g.passable(0, 3));
}

#[test]
fn nearest_passable_searches_rings_in_order() {
    let g = grid(5, 5, &[(2, 2)]);
    assert_eq!(nearest_passable(&g, (0, 0)), (0, 0));
    // ring 1 around (2,2): first in (dx, dy) order is (-1, -1)
    assert_eq!(nearest_passable(&g, (2, 2)), (1, 1));
    let blocked: Vec<(usize, usize)> = (0..3).flat_map(|x| (0..3).map(move |y| (x, y))).collect();
    let g2 = grid(5, 5, &blocked);
    // ring 1 of (0,0) inside the grid is blocked; ring 2 starts at column 0
    assert_eq!(nearest_passable(&g2, (0, 0)), (0, 3));
    let all: Vec<(usize, usize)> = (0..2).flat_map(|x| (0..2).map(move |y| (x, y))).collect();
    let none = grid(2, 2, &all);
    assert_eq!(nearest_passable(&none, (1, 1)), (1, 1));
}

#[test]
fn lobby_menu_leads_to_match_settings_and_rooms() {
    let menu = LobbyMode::Menu;
    let (m, a) = menu.step(false, 0, LobbyEvent::CreateRoomClicked);
    assert_eq!(m, LobbyMode::MatchSettings { next_action: MatchSettingsNext::CreateRoom });
    assert_eq!(a, LobbyAction::Nothing);
    let (m, a) = m.step(false, 0, LobbyEvent::StartGameClicked);
    assert_eq!((m, a), (LobbyMode::WaitingForPeer, LobbyAction::CreateRoom));
    let (m, a) = m.step(true, 0, LobbyEvent::PeerConnected);
    assert_eq!((m, a), (LobbyMode::Connected, LobbyAction::GreetPeer));
    // The creator ignores settings sent to it and starts once the peer is ready.
    assert_eq!(m.step(true, 0, LobbyEvent::HostSettingsArrived), (LobbyMode::Connected, LobbyAction::Nothing));
    assert_eq!(m.step(true, 0, LobbyEvent::PeerReady), (LobbyMode::Connected, LobbyAction::StartMultiplayer));
    // A joiner adopts them and picks a colour.
    assert_eq!(m.step(false, 0, LobbyEvent::HostSettingsArrived), (LobbyMode::ColorPick, LobbyAction::AdoptHostSettings));
    assert_eq!(LobbyMode::ColorPick.step(false, 0, LobbyEvent::ReadyClicked), (LobbyMode::ColorPick, LobbyAction::StartMultiplayer));
}

#[test]
fn lobby_join_needs_a_full_code_and_escape_returns_to_menu() {
    assert_eq!(LobbyMode::Menu.step(false, 3, LobbyEvent::JoinRoomClicked), (LobbyMode::EnteringCode, LobbyAction::ClearCode));
    assert_eq!(LobbyMode::EnteringCode.step(false, 3, LobbyEvent::ConnectRequested), (LobbyMode::EnteringCode, LobbyAction::Nothing));
    assert_eq!(LobbyMode::EnteringCode.step(false, 4, LobbyEvent::ConnectRequested), (LobbyMode::WaitingForPeer, LobbyAction::JoinRoom));
    assert_eq!(LobbyMode::WaitingForPeer.step(false, 4, LobbyEvent::Disconnected), (LobbyMode::WaitingForPeer, LobbyAction::ConnectionFailed));
    assert_eq!(LobbyMode::WaitingForPeer.step(false, 4, LobbyEvent::Escape), (LobbyMode::Menu, LobbyAction::ResetLobby));
    assert_eq!(LobbyMode::Settings.step(false, 0, LobbyEvent::Escape), (LobbyMode::Menu, LobbyAction::Nothing));
    assert_eq!(LobbyMode::EnteringCode.step(false, 0, LobbyEvent::Escape), (LobbyMode::Menu, LobbyAction::Nothing));
    let vs_ai = LobbyMode::MatchSettings { next_action: MatchSettingsNext::VsAi };
    assert_eq!(vs_ai.step(false, 0, LobbyEvent::StartGameClicked), (vs_ai, LobbyAction::StartVsAi));
    assert_eq!(vs_ai.step(false, 0, LobbyEvent::Escape), (LobbyMode::Menu, LobbyAction::Nothing));
    assert_eq!(LobbyMode::Connected.step(false, 0, LobbyEvent::Disconnected), (LobbyMode::Connected, LobbyAction::PeerLeft));
    // Clicks meant for the menu do nothing elsewhere.
    assert_eq!(LobbyMode::Connected.step(false, 0, LobbyEvent::CreateRoomClicked), (LobbyMode::Connected, LobbyAction::Nothing));
}

#[test]
fn name_typing_filters_and_limits() {
    let mut name: Vec<char> = Vec::new();
    for c in "Ann_B-c d!?".chars() {
        type_name_char(&mut name, c);
    }
    assert_eq!(name.iter().collect::<String>(), "Ann_B-c d");
    type_name_char(&mut name, '\u{8}');
    assert_eq!(name.iter().collect::<String>(), "Ann_B-c ");
    let mut long: Vec<char> = Vec::new();
    for _ in 0..30 {
        type_name_char(&mut long, 'x');
    }
    assert_eq!(long.len(), MAX_NAME_LEN);
    // the limit counts UTF-8 bytes: 'é' takes two
    let mut accented: Vec<char> = Vec::new();
    for _ in 0..30 {
        type_name_char(&mut accented, 'é');
    }
    assert_eq!(accented.len(), 8);
    let mut empty: Vec<char> = Vec::new();
    type_name_char(&mut empty, '\u{8}');
    assert!(empty.is_empty());
}

#[test]
fn code_typing_uppercases_and_stops_at_four() {
    let mut code: Vec<char> = Vec::new();
    for c in "a-b c9zq".chars() {
        type_code_char(&mut code, c);
    }
    assert_eq!(code.iter().collect::<String>(), "ABC9");
}

#[test]
fn room_code_follows_its_draws() {
    assert_eq!(mech_game_ddev::room_code_from_draws(&[0, 25, 26, 35]), "AZ09");
    assert_eq!(mech_game_ddev::room_code_from_draws(&[7, 4, 11, 11]), "HELL");
}

#[test]
fn kinds_have_their_shapes_and_projectiles() {
    assert_eq!(UnitKind::Striker.shape(), mech_game_ddev::UnitShape::Triangle);
    assert_eq!(UnitKind::Skirmisher.shape(), mech_game_ddev::UnitShape::Dot);
    assert_eq!(UnitKind::Sniper.projectile_type(), mech_game_ddev::ProjectileType::Laser);
    assert_eq!(UnitKind::Artillery.projectile_type(), mech_game_ddev::ProjectileType::Rocket);
    assert_eq!(UnitKind::Shield.projectile_type(), mech_game_ddev::ProjectileType::Bullet);
}
