use mech_game_ddev::{
    alive_count, check_match_state, timeout_damage, AiMemory, BuildState, GamePhase, MatchProgress, MatchState,
    PlacedPack, PlayerState, RoundEndData, RoundEndPlayerData, TechId, UnitKind, UnitStatus, STARTING_LP,
};

type Progress = MatchProgress<(i32, i32), (u8, u8)>;

fn unit(id: u64, kind: UnitKind, player_id: u16, alive: bool) -> UnitStatus {
    UnitStatus { id, kind, player_id, alive }
}

#[test]
fn match_state_draw_when_nobody_stands() {
    assert_eq!(check_match_state(&[]), MatchState::Draw);
    let units = [unit(1, UnitKind::Chaff, 0, false), unit(2, UnitKind::Chaff, 1, false)];
    assert_eq!(check_match_state(&units), MatchState::Draw);
}

#[test]
fn match_state_winner_when_one_side_stands() {
    let units = [
        unit(1, UnitKind::Chaff, 0, false),
        unit(2, UnitKind::Chaff, 1, true),
        unit(3, UnitKind::Sniper, 1, true),
    ];
    assert_eq!(check_match_state(&units), MatchState::Winner(1));
}

#[test]
fn match_state_in_progress_with_two_sides() {
    let units = [unit(1, UnitKind::Chaff, 0, true), unit(2, UnitKind::Chaff, 1, true)];
    assert_eq!(check_match_state(&units), MatchState::InProgress);
}

#[test]
fn counts_for_round_end_report() {
    let units = [
        unit(1, UnitKind::Chaff, 0, true),
        unit(2, UnitKind::Chaff, 0, false),
        unit(3, UnitKind::Chaff, 1, true),
        unit(4, UnitKind::Chaff, 1, true),
    ];
    assert_eq!(alive_count(&units, 0), 1);
    assert_eq!(alive_count(&units, 1), 2);
    assert_eq!(timeout_damage(&units, 0, true), 2);
    assert_eq!(timeout_damage(&units, 1, true), 1);
    assert_eq!(timeout_damage(&units, 1, false), 0);
}

#[test]
fn fresh_players() {
    let p: PlayerState<(i32, i32), (u8, u8)> = PlayerState::new(7);
    assert_eq!(p.player_id, 7);
    assert_eq!(p.lp, STARTING_LP);
    assert_eq!(p.name, "Player 7");
    assert_eq!(p.next_id, 700_001);
    assert_eq!(p.gold, 0);
    assert!(p.packs.is_empty());
    let m: Progress = MatchProgress::new(&[0, 1]);
    assert_eq!(m.round, 1);
    assert_eq!(m.players.len(), 2);
    assert_eq!(m.players[1].name, "Player 1");
    assert_eq!(m.players[1].next_id, 100_001);
    assert!(m.banned_kinds.is_empty());
}

#[test]
fn allowance_is_200_per_round() {
    let mut m: Progress = MatchProgress::new(&[0, 1]);
    assert_eq!(m.round_allowance(), 200);
    m.advance_round();
    m.advance_round();
    assert_eq!(m.round, 3);
    assert_eq!(m.round_allowance(), 600);
}

#[test]
fn player_lookup_and_others() {
    let mut m: Progress = MatchProgress::new(&[4, 9]);
    assert_eq!(m.player(9).name, "Player 9");
    m.player_mut(9).gold = 55;
    assert_eq!(m.players[1].gold, 55);
    let others: Vec<u16> = m.other_players(4).iter().map(|p| p.player_id).collect();
    assert_eq!(others, vec![9]);
}

#[test]
fn lp_damage_is_surviving_army_value() {
    let units = [
        unit(1, UnitKind::Sniper, 1, true),   // 300 / 1
        unit(2, UnitKind::Chaff, 1, true),    // 100 / 18 = 5
        unit(3, UnitKind::Striker, 1, true),  // 200 / 3 = 66
        unit(4, UnitKind::Dragoon, 1, false), // dead: nothing
        unit(5, UnitKind::Sniper, 0, true),   // other player
    ];
    assert_eq!(Progress::calculate_lp_damage(&units, 1), 371);
    assert_eq!(Progress::calculate_lp_damage(&units, 0), 300);
    assert_eq!(Progress::calculate_lp_damage(&[], 0), 0);
}

#[test]
fn game_over_and_winner() {
    let mut m: Progress = MatchProgress::new(&[0, 1]);
    assert!(!m.is_game_over());
    assert_eq!(m.game_winner(), None);
    assert!(m.game_over_phase().is_none());
    m.players[1].lp = 0;
    assert!(m.is_game_over());
    assert_eq!(m.game_winner(), Some(0));
    assert!(matches!(m.game_over_phase(), Some(GamePhase::GameOver(0))));
    m.players[0].lp = -5;
    assert_eq!(m.game_winner(), None);
    assert!(matches!(m.game_over_phase(), Some(GamePhase::GameOver(0))));
}

#[test]
fn round_outcome_charges_first_other_player() {
    let m: Progress = MatchProgress::new(&[0, 1]);
    let units = [unit(1, UnitKind::Sniper, 0, true)];
    assert_eq!(m.round_lp_outcome(&units, MatchState::Winner(0), false), (300, Some(1)));
    assert_eq!(m.round_lp_outcome(&units, MatchState::Winner(0), true), (0, None));
    assert_eq!(m.round_lp_outcome(&units, MatchState::Draw, false), (0, None));
}

#[test]
fn round_end_report_charges_loser() {
    let mut m: Progress = MatchProgress::new(&[0, 1]);
    let rd = RoundEndData {
        winner: Some(0),
        lp_damage: 371,
        loser: Some(1),
        per_player: vec![
            RoundEndPlayerData { player_id: 0, alive_count: 3, total_hp: 900, timeout_damage: 0 },
            RoundEndPlayerData { player_id: 1, alive_count: 0, total_hp: 0, timeout_damage: 0 },
        ],
    };
    m.apply_round_end(&rd);
    assert_eq!(m.players[0].lp, STARTING_LP);
    assert_eq!(m.players[1].lp, STARTING_LP - 371);
}

#[test]
fn round_end_report_on_timeout_charges_everyone() {
    let mut m: Progress = MatchProgress::new(&[0, 1]);
    let rd = RoundEndData {
        winner: None,
        lp_damage: 0,
        loser: None,
        per_player: vec![
            RoundEndPlayerData { player_id: 0, alive_count: 2, total_hp: 100, timeout_damage: 3 },
            RoundEndPlayerData { player_id: 1, alive_count: 3, total_hp: 100, timeout_damage: 2 },
        ],
    };
    m.apply_round_end(&rd);
    assert_eq!(m.players[0].lp, STARTING_LP - 3);
    assert_eq!(m.players[1].lp, STARTING_LP - 2);
}

#[test]
fn draw_report_changes_nothing() {
    let mut m: Progress = MatchProgress::new(&[0, 1]);
    let rd = RoundEndData { winner: None, lp_damage: 0, loser: None, per_player: Vec::new() };
    m.apply_round_end(&rd);
    assert_eq!(m.players[0].lp, STARTING_LP);
    assert_eq!(m.players[1].lp, STARTING_LP);
}

#[test]
fn ai_memory_counts_human_army() {
    let mut mem = AiMemory::default();
    let units = [
        unit(1, UnitKind::Chaff, 0, true),
        unit(2, UnitKind::Chaff, 0, false),
        unit(3, UnitKind::Sniper, 0, true),
        unit(4, UnitKind::Chaff, 1, true),
    ];
    mem.record_round(&units, 0, true);
    assert!(mem.last_result);
    let mut counts = mem.last_enemy_kinds.clone();
    counts.sort_by_key(|(k, _)| *k as u8);
    assert_eq!(counts, vec![(UnitKind::Chaff, 2), (UnitKind::Sniper, 1)]);
}

#[test]
fn ai_memories_recorded_for_non_local_players() {
    let mut m: Progress = MatchProgress::new(&[0, 1]);
    let units = [unit(1, UnitKind::Scout, 0, true)];
    m.record_ai_memories(&units, 0, MatchState::Winner(1));
    assert!(m.players[1].ai_memory.last_result);
    assert_eq!(m.players[1].ai_memory.last_enemy_kinds, vec![(UnitKind::Scout, 1)]);
    assert!(m.players[0].ai_memory.last_enemy_kinds.is_empty());
}

#[test]
fn next_round_carries_gold() {
    let mut m: Progress = MatchProgress::new(&[0, 1]);
    let gold = m.start_next_round(1, 75);
    assert_eq!(m.round, 2);
    assert_eq!(m.players[1].gold, 75);
    assert_eq!(gold, 475);
}

#[test]
fn lock_packs_locks_every_pack() {
    let mut p: PlayerState<(i32, i32), (u8, u8)> = PlayerState::new(0);
    p.packs.push(PlacedPack {
        pack_index: 3,
        center: (10, 20),
        unit_ids: vec![1, 2, 3],
        pre_drag_center: (10, 20),
        rotated: false,
        locked: false,
        round_placed: 1,
    });
    p.lock_packs();
    assert!(p.packs[0].locked);
    assert_eq!(p.packs[0].unit_ids, vec![1, 2, 3]);
}

#[test]
fn chat_allowed_phases() {
    assert!(GamePhase::Build.allows_chat());
    assert!(GamePhase::Battle.allows_chat());
    assert!(GamePhase::RoundResult { match_state: MatchState::Draw, lp_damage: 0, loser_team: None }.allows_chat());
    assert!(!GamePhase::Lobby.allows_chat());
    assert!(!GamePhase::GameOver(0).allows_chat());
}

#[test]
fn peer_build_buys_techs_and_places_packs() {
    let mut m = Progress::new(&[0, 1]);
    m.round = 2;
    // Pack 11 (one sniper), an unknown pack index, then pack 4 (two bruisers);
    // the sender's ids are kept, gaps included.
    let new_packs = [
        (11usize, (600, 300), false, vec![100_001]),
        (99usize, (0, 0), false, vec![7]),
        (4usize, (650, 200), true, vec![100_005, 100_006]),
    ];
    let techs = [
        (UnitKind::Sniper, TechId::RangeBoost),
        (UnitKind::Sniper, TechId::RangeBoost),
        (UnitKind::Bruiser, TechId::BruiserCleave),
    ];
    m.apply_peer_build(1, &new_packs, &techs);
    let p = m.player(1);
    assert_eq!(p.techs.tech_count(UnitKind::Sniper), 1);
    assert!(p.techs.has_tech(UnitKind::Bruiser, TechId::BruiserCleave));
    assert_eq!(p.packs.len(), 2);
    assert_eq!(p.packs[0].pack_index, 11);
    assert_eq!(p.packs[0].unit_ids, vec![100_001]);
    assert_eq!(p.packs[0].round_placed, 2);
    assert!(p.packs[0].locked);
    assert_eq!(p.packs[1].pack_index, 4);
    assert_eq!(p.packs[1].center, (650, 200));
    assert!(p.packs[1].rotated);
    assert_eq!(p.packs[1].unit_ids, vec![100_005, 100_006]);
    assert_eq!(p.next_id, 100_001);
    // The other player is untouched.
    assert_eq!(m.player(0).packs.len(), 0);
    assert_eq!(m.player(0).techs.tech_count(UnitKind::Sniper), 0);
}

#[test]
fn rematch_keeps_names_colours_and_zones() {
    let mut m = Progress::new(&[0, 1]);
    m.round = 4;
    m.banned_kinds.push(UnitKind::Sniper);
    {
        let p = m.player_mut(1);
        p.name = "Zed".to_string();
        p.color_index = 3;
        p.deploy_zone = (5, 9);
        p.lp = 120;
        p.gold = 77;
        p.next_id = 100_050;
    }
    let r = m.rematch();
    assert_eq!(r.round, 1);
    assert!(r.banned_kinds.is_empty());
    let p = r.player(1);
    assert_eq!(p.name, "Zed");
    assert_eq!(p.color_index, 3);
    assert_eq!(p.deploy_zone, (5, 9));
    assert_eq!(p.lp, STARTING_LP);
    assert_eq!(p.gold, 0);
    assert_eq!(p.next_id, 100_001);
    assert_eq!(r.player(0).name, "Player 0");
}

#[test]
fn board_carries_over_locked_with_new_allowance() {
    let mut m = Progress::new(&[0, 1]);
    let mut b: BuildState<(i32, i32)> = BuildState::new(m.round_allowance(), 1);
    assert!(b.purchase_pack(3, (100, 100), 1));
    assert_eq!(b.gold_remaining, 0);
    m.carry_board_over(0, &mut b);
    assert_eq!(m.round, 2);
    assert_eq!(m.player(0).gold, 0);
    assert_eq!(b.gold_remaining, 400);
    assert_eq!(b.placed_packs.len(), 1);
    assert!(b.placed_packs[0].locked);
    assert_eq!(b.next_id, 4);
    assert!(b.undo_history.is_empty());
}

#[test]
fn round_end_report_for_a_win_and_a_timeout() {
    let m = Progress::new(&[0, 1]);
    let units = [
        unit(1, UnitKind::Sniper, 0, true),
        unit(2, UnitKind::Chaff, 0, true),
        unit(3, UnitKind::Chaff, 1, false),
    ];
    let rd = m.round_end_report(&units, &[400, 0], MatchState::Winner(0), false);
    assert_eq!(rd.winner, Some(0));
    // Sniper 300/1 plus one chaff 100/18 (rounded down to 5).
    assert_eq!(rd.lp_damage, 305);
    assert_eq!(rd.loser, Some(1));
    assert_eq!(rd.per_player.len(), 2);
    assert_eq!(rd.per_player[0], RoundEndPlayerData { player_id: 0, alive_count: 2, total_hp: 400, timeout_damage: 0 });
    assert_eq!(rd.per_player[1], RoundEndPlayerData { player_id: 1, alive_count: 0, total_hp: 0, timeout_damage: 0 });

    let units = [unit(1, UnitKind::Sniper, 0, true), unit(2, UnitKind::Chaff, 1, true), unit(3, UnitKind::Chaff, 1, true)];
    let rd = m.round_end_report(&units, &[10, 20], MatchState::Draw, true);
    assert_eq!((rd.winner, rd.lp_damage, rd.loser), (None, 0, None));
    assert_eq!(rd.per_player[0].timeout_damage, 2);
    assert_eq!(rd.per_player[1].timeout_damage, 1);
    let mut after = m.clone();
    after.apply_round_end(&rd);
    assert_eq!(after.player(0).lp, STARTING_LP - 2);
    assert_eq!(after.player(1).lp, STARTING_LP - 1);
}

#[test]
fn what_a_peer_sends_the_other_rebuilds() {
    let mut board: BuildState<(i32, i32)> = BuildState::new(1000, 1);
    assert!(board.purchase_pack(2, (10, 20), 1));
    board.lock_current_packs();
    assert!(board.purchase_pack(6, (30, 40), 2));
    assert!(board.purchase_pack(9, (50, 60), 2));
    board.placed_packs[2].rotated = true;
    let sent = board.packs_for_peer();
    let mut m = Progress::new(&[0, 1]);
    m.apply_peer_build(1, &sent, &[]);
    let p = m.player(1);
    assert_eq!(p.packs.len(), 2);
    for (q, b) in p.packs.iter().zip(board.placed_packs[1..].iter()) {
        assert_eq!((q.pack_index, q.center, q.rotated), (b.pack_index, b.center, b.rotated));
        assert_eq!(q.unit_ids, b.unit_ids);
        assert!(q.locked);
    }
}
