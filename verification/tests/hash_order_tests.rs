use mech_game_ddev::{blocks_movement, blocks_projectile, hash_order, unit_hash_order, ObstacleType, NEUTRAL_OWNER};

#[test]
fn units_are_hashed_by_id() {
    let ids = [42u64, 7, 19, 7, 3];
    let order = unit_hash_order(&ids);
    let visited: Vec<u64> = order.iter().map(|&i| ids[i]).collect();
    assert_eq!(visited, vec![3, 7, 7, 19, 42]);
    let mut seen = order.clone();
    seen.sort();
    assert_eq!(seen, vec![0, 1, 2, 3, 4]);
}

#[test]
fn projectiles_are_hashed_by_attacker_then_position() {
    let keys = [(5u64, 10u32, 1u32), (2, 99, 0), (5, 3, 8), (5, 10, 0)];
    let order = hash_order(&keys);
    assert_eq!(order, vec![1, 2, 3, 0]);
    assert!(hash_order(&[]).is_empty());
}

#[test]
fn obstacles_block_by_kind_and_side() {
    assert!(blocks_projectile(true, ObstacleType::Wall, NEUTRAL_OWNER, 0));
    assert!(blocks_projectile(true, ObstacleType::Cover, NEUTRAL_OWNER, 1));
    assert!(blocks_projectile(true, ObstacleType::Cover, 0, 1));
    assert!(!blocks_projectile(true, ObstacleType::Cover, 1, 1));
    assert!(!blocks_projectile(false, ObstacleType::Wall, NEUTRAL_OWNER, 0));
    assert!(blocks_movement(true, ObstacleType::Wall));
    assert!(!blocks_movement(true, ObstacleType::Cover));
    assert!(!blocks_movement(false, ObstacleType::Wall));
}
