use mech_game_ddev::{all_packs, assign_unit_ids, shop_offer, UnitKind, PACK_COUNT};

#[test]
fn shop_lists_thirteen_packs_one_per_kind() {
    let packs = all_packs();
    assert_eq!(packs.len(), PACK_COUNT);
    for (i, p) in packs.iter().enumerate() {
        for q in &packs[i + 1..] {
            assert_ne!(p.kind, q.kind);
        }
    }
    assert_eq!(packs[0].kind, UnitKind::Chaff);
    assert_eq!(packs[0].name, "Chaff");
    assert_eq!(packs[11].name, "Sniper");
}

#[test]
fn pack_count_and_rotation() {
    let chaff = all_packs()[0];
    assert_eq!(chaff.count(), 18);
    assert_eq!(chaff.effective_dims(false), (3, 6));
    assert_eq!(chaff.effective_dims(true), (6, 3));
    let dragoons = all_packs()[7];
    assert_eq!(dragoons.count(), 5);
    assert_eq!(dragoons.cost, 200);
}

#[test]
fn unit_ids_are_consecutive_and_advance() {
    let mut next = 100_001u64;
    let ids = assign_unit_ids(3, &mut next);
    assert_eq!(ids, vec![100_001, 100_002, 100_003]);
    assert_eq!(next, 100_004);
    let more = assign_unit_ids(2, &mut next);
    assert_eq!(more, vec![100_004, 100_005]);
    let none = assign_unit_ids(0, &mut next);
    assert!(none.is_empty());
    assert_eq!(next, 100_006);
}

#[test]
fn shop_hides_banned_packs_and_marks_affordable_ones() {
    let offer = shop_offer(150, &[UnitKind::Chaff, UnitKind::Sniper], 2);
    assert_eq!(offer.len(), 11);
    assert_eq!(offer[0], (1, true));
    assert_eq!(offer[1], (2, true));
    assert_eq!(offer[2], (3, false));
    assert!(offer.iter().all(|&(i, _)| i != 0 && i != 11));
    assert_eq!(offer.last(), Some(&(12, false)));
}

#[test]
fn shop_refuses_everything_once_no_builds_remain() {
    let offer = shop_offer(10_000, &[], 0);
    assert_eq!(offer.len(), PACK_COUNT);
    assert!(offer.iter().all(|&(_, affordable)| !affordable));
    assert!(shop_offer(10_000, &[], 1).iter().all(|&(_, affordable)| affordable));
}
