use mech_game_ddev::{category_pool_len, pick_in_category, ai_buy_techs, ai_tech_attempt, ai_tech_choices, all_packs, all_techs, random_army_filtered, TechState, UnitKind, ALL_KINDS};

#[test]
fn random_army_is_a_full_purchase() {
    for gold in [0u32, 99, 100, 250, 1000, 2000] {
        let banned = [UnitKind::Chaff, UnitKind::Sniper];
        let army = random_army_filtered(gold, &banned);
        let spent: u32 = army.iter().map(|p| p.cost).sum();
        assert!(spent <= gold);
        for p in &army {
            assert!(!banned.contains(&p.kind));
        }
        let remaining = gold - spent;
        for p in all_packs() {
            if !banned.contains(&p.kind) {
                assert!(p.cost > remaining, "an allowed pack is still affordable");
            }
        }
    }
}

#[test]
fn random_army_with_little_gold_is_empty() {
    assert!(random_army_filtered(99, &[]).is_empty());
}

#[test]
fn random_army_respects_all_bans() {
    let army = random_army_filtered(5000, &ALL_KINDS);
    assert!(army.is_empty());
}

#[test]
fn ai_tech_spending_stays_within_a_third() {
    for start in [0u32, 200, 599, 600, 1800, 10_000] {
        let mut gold = start;
        let mut techs = TechState::new();
        ai_buy_techs(&mut gold, &mut techs);
        assert!(start - gold <= start / 3);
        // every bought tech applies to its kind; price accounting matches
        let mut owned = 0usize;
        for kind in ALL_KINDS {
            owned += techs.tech_count(kind);
            let applicable = all_techs().iter().filter(|d| d.applicable_to.contains(&kind)).count();
            assert!(techs.tech_count(kind) <= applicable);
        }
        assert!(owned <= 5);
        if start < 600 {
            assert_eq!(gold, start, "a budget under 200 buys nothing");
        }
    }
}

#[test]
fn ai_with_enough_gold_always_buys_a_tech() {
    for _ in 0..20 {
        let mut gold = 600u32;
        let mut techs = TechState::new();
        ai_buy_techs(&mut gold, &mut techs);
        let owned: usize = ALL_KINDS.iter().map(|k| techs.tech_count(*k)).sum();
        assert!(owned >= 1);
        assert_eq!(gold, 400);
    }
}

#[test]
fn ai_attempt_buys_the_drawn_tech() {
    let mut techs = TechState::new();
    let kind = UnitKind::Sniper;
    let offer: Vec<_> = techs.available_techs(kind).iter().map(|d| d.id).collect();
    assert_eq!(ai_tech_choices(1000, 0, 300, &techs, kind), offer.len());
    let (mut gold, mut spent) = (1000u32, 0u32);
    ai_tech_attempt(&mut gold, &mut spent, 300, &mut techs, kind, 1);
    assert_eq!((gold, spent), (800, 200));
    assert!(techs.has_tech(kind, offer[1]));
    assert_eq!(techs.tech_count(kind), 1);
}

#[test]
fn ai_attempt_over_budget_does_nothing() {
    let mut techs = TechState::new();
    let kind = UnitKind::Chaff;
    assert_eq!(ai_tech_choices(1000, 150, 300, &techs, kind), 0);
    assert_eq!(ai_tech_choices(150, 0, 300, &techs, kind), 0);
    let (mut gold, mut spent) = (1000u32, 150u32);
    ai_tech_attempt(&mut gold, &mut spent, 300, &mut techs, kind, 0);
    assert_eq!((gold, spent), (1000, 150));
    assert_eq!(techs.tech_count(kind), 0);
}

#[test]
fn army_draws_pick_among_affordable_packs_in_catalogue_order() {
    let packs = all_packs();
    assert_eq!(mech_game_ddev::affordable_count(150, &[]), 3);
    assert_eq!(mech_game_ddev::affordable_count(150, &[UnitKind::Chaff]), 2);
    assert_eq!(mech_game_ddev::affordable_count(99, &[]), 0);
    let p = mech_game_ddev::pick_affordable(150, &[UnitKind::Chaff], 1);
    assert_eq!(p.kind, packs[2].kind);
    assert_eq!(p.cost, packs[2].cost);
    let q = mech_game_ddev::pick_affordable(150, &[], 0);
    assert_eq!(q.kind, UnitKind::Chaff);
}

#[test]
fn smart_draws_prefer_the_aimed_kinds() {

    let frontline = [UnitKind::Sentinel, UnitKind::Bruiser, UnitKind::Dragoon];
    // with 150 gold no frontline pack is affordable: every affordable pack is in the pool
    assert_eq!(category_pool_len(150, &[], &frontline), 3);
    let swarm = [UnitKind::Chaff, UnitKind::Skirmisher];
    assert_eq!(category_pool_len(150, &[], &swarm), 2);
    assert_eq!(pick_in_category(150, &[], &swarm, 1).kind, UnitKind::Skirmisher);
    assert_eq!(category_pool_len(50, &[], &swarm), 0);
}
