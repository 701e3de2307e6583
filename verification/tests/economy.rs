use tower_defense::economy::{
    calculate_available_towers, calculate_cost_to_upgrade, can_afford, convert_score,
    upgrade_radius, Gold, PlacedTowers, PlayerUpgrades, Score, Upgrade,
};
use tower_defense::round::{purchase_upgrade, GameState};

#[test]
fn cost_of_first_levels() {
    assert_eq!(calculate_cost_to_upgrade(1), 1);
    assert_eq!(calculate_cost_to_upgrade(2), 4);
    assert_eq!(calculate_cost_to_upgrade(3), 5);
    assert_eq!(calculate_cost_to_upgrade(4), 8);
    assert_eq!(calculate_cost_to_upgrade(8), 14);
    assert_eq!(calculate_cost_to_upgrade(1000), 1018);
}

#[test]
fn cost_rises_with_every_level() {
    let mut level: u32 = 1;
    while level < 5000 {
        assert!(calculate_cost_to_upgrade(level + 1) > calculate_cost_to_upgrade(level));
        level += 1;
    }
}

#[test]
fn cost_of_last_priced_level() {
    assert_eq!(calculate_cost_to_upgrade(4_294_967_233), u32::MAX);
}

#[test]
fn budget_is_allowance_less_placed() {
    assert_eq!(calculate_available_towers(Score(0), PlacedTowers(0)), 1);
    assert_eq!(calculate_available_towers(Score(49), PlacedTowers(0)), 1);
    assert_eq!(calculate_available_towers(Score(50), PlacedTowers(0)), 2);
    assert_eq!(calculate_available_towers(Score(50), PlacedTowers(2)), 0);
    assert_eq!(calculate_available_towers(Score(499), PlacedTowers(3)), 7);
}

#[test]
fn budget_never_goes_below_zero() {
    assert_eq!(calculate_available_towers(Score(0), PlacedTowers(2)), 0);
    assert_eq!(calculate_available_towers(Score(100), PlacedTowers(u32::MAX)), 0);
    assert_eq!(calculate_available_towers(Score(u32::MAX), PlacedTowers(0)), 85_899_346);
}

#[test]
fn upgrade_radius_from_logarithm() {
    assert_eq!(upgrade_radius(0), 500_000);
    // level 2: log to base 1.1 of 2 is 7.272541
    assert_eq!(upgrade_radius(7_272_541), 790_901);
}

#[test]
fn score_converts_at_the_logarithm() {
    // level 2: log to base 1.5 of 2 is 1.709511
    let mut gold = Gold(0);
    convert_score(&mut gold, Score(100), 1_709_511);
    assert_eq!(gold, Gold(292_481_300));
    convert_score(&mut gold, Score(0), 1_709_511);
    assert_eq!(gold, Gold(292_481_300));
}

#[test]
fn score_converts_at_level_one() {
    // The logarithm of level one is zero and counts as the smallest positive
    // number.
    let mut gold = Gold(7);
    convert_score(&mut gold, Score(100), 0);
    assert_eq!(gold, Gold(500_000_000_000_007));
    let mut same = Gold(7);
    convert_score(&mut same, Score(100), 1);
    assert_eq!(same, gold);
}

#[test]
fn gold_stops_at_the_top() {
    let mut gold = Gold(u64::MAX - 5);
    convert_score(&mut gold, Score(1), 1_000_000);
    assert_eq!(gold, Gold(u64::MAX));
    let mut rich = Gold(0);
    convert_score(&mut rich, Score(u32::MAX), 0);
    assert_eq!(rich, Gold(u64::MAX));
}

#[test]
fn affordability_counts_whole_gold() {
    assert!(can_afford(Gold(1_000_000), 1));
    assert!(!can_afford(Gold(999_999), 1));
    assert!(can_afford(Gold(4_000_000), 2));
    assert!(!can_afford(Gold(3_999_999), 2));
    assert!(!can_afford(Gold(u64::MAX), 0));
    assert!(!can_afford(Gold(u64::MAX), 4_294_967_234));
    assert!(can_afford(Gold(u64::MAX), 4_294_967_233));
}

#[test]
fn purchase_takes_the_price_and_raises_the_level() {
    let mut gold = Gold(10_500_000);
    let mut upgrades = PlayerUpgrades::new();
    assert!(purchase_upgrade(GameState::Staging, &mut gold, &mut upgrades, Upgrade::Damage));
    assert_eq!(gold, Gold(9_500_000));
    assert_eq!(upgrades.damage.0, 2);
    assert_eq!(upgrades.attack_radius.0, 1);
    assert_eq!(upgrades.upgrade_radius.0, 1);
    assert_eq!(upgrades.gold_conversion_rate.0, 1);
    assert!(purchase_upgrade(GameState::Staging, &mut gold, &mut upgrades, Upgrade::Damage));
    assert_eq!(gold, Gold(5_500_000));
    assert_eq!(upgrades.damage.0, 3);
    assert!(purchase_upgrade(GameState::Staging, &mut gold, &mut upgrades, Upgrade::Damage));
    assert_eq!(gold, Gold(500_000));
    assert_eq!(upgrades.damage.0, 4);
}

#[test]
fn purchase_without_gold_changes_nothing() {
    let mut gold = Gold(3_999_999);
    let mut upgrades = PlayerUpgrades::new();
    upgrades.set_level(Upgrade::AttackRadius, 2);
    let before = upgrades;
    assert!(!purchase_upgrade(GameState::Staging, &mut gold, &mut upgrades, Upgrade::AttackRadius));
    assert_eq!(gold, Gold(3_999_999));
    assert_eq!(upgrades, before);
}

#[test]
fn purchase_in_a_round_changes_nothing() {
    let mut gold = Gold(100_000_000);
    let mut upgrades = PlayerUpgrades::new();
    let before = upgrades;
    assert!(!purchase_upgrade(GameState::InGame, &mut gold, &mut upgrades, Upgrade::UpgradeRadius));
    assert_eq!(gold, Gold(100_000_000));
    assert_eq!(upgrades, before);
}

#[test]
fn each_upgrade_is_bought_alone() {
    let mut gold = Gold(4_000_000);
    let mut upgrades = PlayerUpgrades::new();
    assert!(purchase_upgrade(GameState::Staging, &mut gold, &mut upgrades, Upgrade::UpgradeRadius));
    assert!(purchase_upgrade(GameState::Staging, &mut gold, &mut upgrades, Upgrade::AttackRadius));
    assert!(purchase_upgrade(GameState::Staging, &mut gold, &mut upgrades, Upgrade::Damage));
    assert!(purchase_upgrade(
        GameState::Staging,
        &mut gold,
        &mut upgrades,
        Upgrade::GoldConversionRate
    ));
    assert_eq!(gold, Gold(0));
    assert_eq!(upgrades.level(Upgrade::UpgradeRadius), 2);
    assert_eq!(upgrades.level(Upgrade::AttackRadius), 2);
    assert_eq!(upgrades.level(Upgrade::Damage), 2);
    assert_eq!(upgrades.level(Upgrade::GoldConversionRate), 2);
    assert!(!purchase_upgrade(GameState::Staging, &mut gold, &mut upgrades, Upgrade::Damage));
}
