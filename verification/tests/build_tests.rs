use mech_game_ddev::{BuildState, TechId, TechState, UndoEntry, Undone, UnitKind};

type Board = BuildState<(i32, i32)>;

#[test]
fn buying_a_pack_pays_and_numbers_units() {
    let mut b = Board::new(400, 1);
    // Shop entry 3: three strikers for 200.
    assert!(b.purchase_pack(3, (300, 200), 1));
    assert_eq!(b.gold_remaining, 200);
    assert_eq!(b.placed_packs.len(), 1);
    assert_eq!(b.placed_packs[0].unit_ids, vec![1, 2, 3]);
    assert_eq!(b.placed_packs[0].center, (300, 200));
    assert!(!b.placed_packs[0].locked);
    assert_eq!(b.next_id, 4);
    assert_eq!(b.undo_history.len(), 1);
}

#[test]
fn buying_without_gold_changes_nothing() {
    let mut b = Board::new(250, 1);
    // Shop entry 10: artillery for 300.
    assert!(!b.purchase_pack(10, (300, 200), 1));
    assert_eq!(b.gold_remaining, 250);
    assert!(b.placed_packs.is_empty());
    assert_eq!(b.next_id, 1);
    assert!(b.undo_history.is_empty());
}

#[test]
fn undo_after_purchase_restores_gold_and_board() {
    let mut b = Board::new(400, 10);
    let mut techs = TechState::new();
    assert!(b.purchase_pack(0, (100, 100), 2));
    assert_eq!(b.gold_remaining, 300);
    match b.undo(&mut techs) {
        Undone::Removed(ids) => assert_eq!(ids.len(), 18),
        other => panic!("unexpected undo result {:?}", other),
    }
    assert_eq!(b.gold_remaining, 400);
    assert!(b.placed_packs.is_empty());
    assert!(b.undo_history.is_empty());
    // Ids are not handed out again.
    assert_eq!(b.next_id, 28);
}

#[test]
fn locked_packs_cannot_be_sold() {
    let mut b = Board::new(200, 1);
    assert!(b.purchase_pack(4, (0, 0), 1));
    b.lock_current_packs();
    assert!(b.placed_packs[0].locked);
    assert_eq!(b.sell_pack(0), None);
    assert_eq!(b.gold_remaining, 0);
    let mut techs = TechState::new();
    // Undoing the placement of a locked pack does nothing.
    assert!(matches!(b.undo(&mut techs), Undone::Nothing));
    assert_eq!(b.placed_packs.len(), 1);
}

#[test]
fn selling_refunds_the_price() {
    let mut b = Board::new(500, 1);
    assert!(b.purchase_pack(11, (5, 5), 1));
    assert_eq!(b.gold_remaining, 200);
    assert_eq!(b.sell_pack(0), Some((300, vec![1])));
    assert_eq!(b.gold_remaining, 500);
    assert!(b.placed_packs.is_empty());
}

#[test]
fn undo_restores_moves_and_rotations() {
    let mut b = Board::new(1000, 1);
    let mut techs = TechState::new();
    assert!(b.purchase_pack(4, (10, 10), 1));
    assert!(b.purchase_pack(5, (50, 50), 1));
    b.placed_packs[0].center = (20, 20);
    b.undo_history.push(UndoEntry::Move { placed_index: 0, old_center: (10, 10) });
    b.placed_packs[1].rotated = true;
    b.placed_packs[1].center = (60, 60);
    b.undo_history.push(UndoEntry::Rotate { placed_index: 1, was_rotated: false, old_center: (50, 50) });
    b.placed_packs[0].center = (30, 30);
    b.placed_packs[1].center = (70, 70);
    b.undo_history.push(UndoEntry::MultiMove { indices: vec![0, 1, 9], old_centers: vec![(20, 20), (60, 60), (0, 0)] });

    match b.undo(&mut techs) {
        Undone::Moved(v) => assert_eq!(v, vec![0, 1]),
        other => panic!("unexpected undo result {:?}", other),
    }
    assert_eq!(b.placed_packs[0].center, (20, 20));
    assert_eq!(b.placed_packs[1].center, (60, 60));
    match b.undo(&mut techs) {
        Undone::Moved(v) => assert_eq!(v, vec![1]),
        other => panic!("unexpected undo result {:?}", other),
    }
    assert_eq!(b.placed_packs[1].center, (50, 50));
    assert!(!b.placed_packs[1].rotated);
    match b.undo(&mut techs) {
        Undone::Moved(v) => assert_eq!(v, vec![0]),
        other => panic!("unexpected undo result {:?}", other),
    }
    assert_eq!(b.placed_packs[0].center, (10, 10));
    assert_eq!(b.undo_history.len(), 2);
}

#[test]
fn undo_of_a_tech_refunds_its_price() {
    let mut b = Board::new(1000, 1);
    let mut techs = TechState::new();
    assert!(mech_game_ddev::buy_tech(&mut techs, &mut b.gold_remaining, &mut b.round_tech_purchases, UnitKind::Sniper, TechId::SniperArmorPierce));
    b.undo_history.push(UndoEntry::Tech { kind: UnitKind::Sniper, tech_id: TechId::SniperArmorPierce });
    assert_eq!(b.gold_remaining, 800);
    match b.undo(&mut techs) {
        Undone::TechRemoved(k) => assert_eq!(k, UnitKind::Sniper),
        other => panic!("unexpected undo result {:?}", other),
    }
    // The refund is exactly what the tech cost.
    assert_eq!(b.gold_remaining, 1000);
    assert!(!techs.has_tech(UnitKind::Sniper, TechId::SniperArmorPierce));
    assert!(b.round_tech_purchases.is_empty());
}

#[test]
fn undo_of_a_second_tech_refunds_the_second_price() {
    let mut b = Board::new(1000, 1);
    let mut techs = TechState::new();
    let kind = UnitKind::Sniper;
    let first = techs.available_techs(kind)[0].id;
    assert!(mech_game_ddev::buy_tech(&mut techs, &mut b.gold_remaining, &mut b.round_tech_purchases, kind, first));
    let second = techs.available_techs(kind)[0].id;
    assert!(mech_game_ddev::buy_tech(&mut techs, &mut b.gold_remaining, &mut b.round_tech_purchases, kind, second));
    b.undo_history.push(UndoEntry::Tech { kind, tech_id: second });
    assert_eq!(b.gold_remaining, 400);
    b.undo(&mut techs);
    assert_eq!(b.gold_remaining, 800);
    assert!(techs.has_tech(kind, first));
    assert!(!techs.has_tech(kind, second));
    assert_eq!(b.round_tech_purchases, vec![(kind, first)]);
}

#[test]
fn undo_on_an_empty_history_does_nothing() {
    let mut b = Board::new(100, 1);
    let mut techs = TechState::new();
    assert!(matches!(b.undo(&mut techs), Undone::Nothing));
    assert_eq!(b.gold_remaining, 100);
}

#[test]
fn only_this_rounds_packs_go_to_the_peer() {
    let mut b = Board::new(1000, 1);
    assert!(b.purchase_pack(11, (1, 1), 1));
    b.lock_current_packs();
    assert!(b.purchase_pack(4, (2, 2), 2));
    b.placed_packs[1].rotated = true;
    let sent = b.packs_for_peer();
    assert_eq!(sent, vec![(4, (2, 2), true, vec![2, 3])]);
}

#[test]
fn army_value_sums_pack_prices() {
    let mut b = Board::new(1000, 1);
    assert_eq!(b.army_value(), 0);
    assert!(b.purchase_pack(0, (0, 0), 1));
    assert!(b.purchase_pack(10, (0, 0), 1));
    assert_eq!(b.army_value(), 400);
}

#[test]
fn packs_bought_are_counted_per_round() {
    let mut b = Board::new(1000, 1);
    assert!(b.purchase_pack(11, (1, 1), 1));
    assert!(b.purchase_pack(11, (5, 5), 1));
    b.lock_current_packs();
    assert!(b.purchase_pack(11, (9, 9), 2));
    assert_eq!(b.packs_bought_in_round(1), 2);
    assert_eq!(b.packs_bought_in_round(2), 1);
    assert_eq!(b.packs_bought_in_round(3), 0);
}
