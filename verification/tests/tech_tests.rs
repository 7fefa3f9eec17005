use mech_game_ddev::{all_techs, TechId, TechState, UnitKind, TECH_COUNT};

#[test]
fn catalogue_has_every_tech_once() {
    let defs = all_techs();
    assert_eq!(defs.len(), TECH_COUNT);
    for (i, d) in defs.iter().enumerate() {
        for e in &defs[i + 1..] {
            assert_ne!(d.id, e.id);
        }
    }
    assert_eq!(defs[0].id, TechId::RangeBoost);
    assert_eq!(defs[0].name, "+Range");
    assert_eq!(defs[16].id, TechId::InterceptorDualWeapon);
}

#[test]
fn new_state_owns_nothing() {
    let t = TechState::new();
    assert_eq!(t.tech_count(UnitKind::Striker), 0);
    assert!(!t.has_tech(UnitKind::Striker, TechId::RangeBoost));
}

#[test]
fn cost_starts_at_200_and_rises_by_200() {
    let mut t = TechState::new();
    assert_eq!(t.effective_cost(UnitKind::Striker), 200);
    assert!(t.purchase(UnitKind::Striker, TechId::RangeBoost));
    assert_eq!(t.effective_cost(UnitKind::Striker), 400);
    assert!(t.purchase(UnitKind::Striker, TechId::ArmorBoost));
    assert_eq!(t.effective_cost(UnitKind::Striker), 600);
    // other kinds are priced independently
    assert_eq!(t.effective_cost(UnitKind::Ranger), 200);
}

#[test]
fn purchase_refuses_duplicates() {
    let mut t = TechState::new();
    assert!(t.purchase(UnitKind::Scout, TechId::ScoutEvasion));
    assert!(!t.purchase(UnitKind::Scout, TechId::ScoutEvasion));
    assert_eq!(t.tech_count(UnitKind::Scout), 1);
    assert!(t.has_tech(UnitKind::Scout, TechId::ScoutEvasion));
    assert!(!t.has_tech(UnitKind::Ranger, TechId::ScoutEvasion));
}

#[test]
fn unpurchase_undoes_purchase() {
    let mut t = TechState::new();
    t.purchase(UnitKind::Striker, TechId::RangeBoost);
    let before = t.effective_cost(UnitKind::Striker);
    t.purchase(UnitKind::Striker, TechId::SniperArmorPierce);
    t.unpurchase(UnitKind::Striker, TechId::SniperArmorPierce);
    assert_eq!(t.effective_cost(UnitKind::Striker), before);
    assert!(t.has_tech(UnitKind::Striker, TechId::RangeBoost));
    assert!(!t.has_tech(UnitKind::Striker, TechId::SniperArmorPierce));
}

#[test]
fn available_techs_follow_catalogue_and_ownership() {
    let mut t = TechState::new();
    let ids: Vec<TechId> = t.available_techs(UnitKind::Striker).iter().map(|d| d.id).collect();
    assert_eq!(
        ids,
        vec![TechId::RangeBoost, TechId::ArmorBoost, TechId::StrikerRapidFire, TechId::SniperArmorPierce]
    );
    t.purchase(UnitKind::Striker, TechId::ArmorBoost);
    let ids: Vec<TechId> = t.available_techs(UnitKind::Striker).iter().map(|d| d.id).collect();
    assert_eq!(ids, vec![TechId::RangeBoost, TechId::StrikerRapidFire, TechId::SniperArmorPierce]);
    let chaff: Vec<TechId> = t.available_techs(UnitKind::Chaff).iter().map(|d| d.id).collect();
    assert_eq!(chaff, vec![TechId::ChaffOverwhelm]);
}

#[test]
fn clone_keeps_purchases() {
    let mut t = TechState::new();
    t.purchase(UnitKind::Dragoon, TechId::DragoonFortify);
    let c = t.clone();
    assert!(c.has_tech(UnitKind::Dragoon, TechId::DragoonFortify));
    assert_eq!(c.tech_count(UnitKind::Dragoon), 1);
}
