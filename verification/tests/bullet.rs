use tower_defense::bullet::{
    attack_radius, bullet_damage, destroy_enemy, fly_to_enemy, spawn_bullet, Bullet,
};
use tower_defense::economy::{AttackRadiusLvl, DamageLvl, Score};
use tower_defense::enemy::{if_health_below_zero_then_die, Enemy, Health, Speed};
use tower_defense::geometry::Point;
use tower_defense::timer::Timer;
use tower_defense::tower::{Tower, TowerLevel, TowerProgress};

fn enemy(id: u64, x: i32, z: i32) -> Enemy {
    Enemy::new(id, Point::new(x, 200_000, z))
}

fn tower(x: i32, z: i32, elapsed: u64) -> Tower {
    Tower {
        position: Point::new(x, 300_000, z),
        level: TowerLevel(1),
        progress: TowerProgress(0),
        timer: Timer { elapsed, duration: 1_000_000, finished: false },
    }
}

#[test]
fn reach_and_damage_grow_with_the_level() {
    assert_eq!(attack_radius(AttackRadiusLvl(1)), 1_066_666);
    assert_eq!(attack_radius(AttackRadiusLvl(2)), 1_133_333);
    assert_eq!(attack_radius(AttackRadiusLvl(15)), 2_000_000);
    assert_eq!(attack_radius(AttackRadiusLvl(u32::MAX)), 286_331_154_000_000);
    assert_eq!(bullet_damage(DamageLvl(0)), 200_000);
    assert_eq!(bullet_damage(DamageLvl(1)), 233_333);
    assert_eq!(bullet_damage(DamageLvl(30)), 1_200_000);
}

#[test]
fn tower_fires_when_its_cooldown_completes() {
    let mut towers = vec![tower(0, 0, 990_000)];
    let herd = vec![enemy(4, 1_000_000, 0)];
    let mut bullets: Vec<Bullet> = Vec::new();
    let shots =
        spawn_bullet(&mut towers, &herd, &mut bullets, 9_999, AttackRadiusLvl(1), DamageLvl(1));
    assert_eq!(shots, 0);
    assert!(bullets.is_empty());
    assert_eq!(towers[0].timer.elapsed, 999_999);
    let shots = spawn_bullet(&mut towers, &herd, &mut bullets, 3, AttackRadiusLvl(1), DamageLvl(1));
    assert_eq!(shots, 1);
    assert_eq!(
        bullets,
        vec![Bullet { target: 4, damage: 233_333, position: Point::new(0, 300_000, 0) }]
    );
    assert_eq!(towers[0].timer.elapsed, 2);
    assert!(towers[0].timer.finished);
}

#[test]
fn tower_fires_only_at_enemies_in_reach() {
    let mut towers = vec![tower(0, 0, 999_999)];
    // The reach is 1.066666; the heights differ by a tenth.
    let herd = vec![
        enemy(0, 1_061_968, 0),
        enemy(1, 1_061_969, 0),
        enemy(2, 0, -1_000_000),
        enemy(3, 5_000_000, 5_000_000),
    ];
    let mut bullets = vec![Bullet { target: 9, damage: 1, position: Point::new(1, 1, 1) }];
    let shots = spawn_bullet(&mut towers, &herd, &mut bullets, 1, AttackRadiusLvl(1), DamageLvl(2));
    assert_eq!(shots, 2);
    assert_eq!(
        bullets,
        vec![
            Bullet { target: 9, damage: 1, position: Point::new(1, 1, 1) },
            Bullet { target: 0, damage: 266_666, position: Point::new(0, 300_000, 0) },
            Bullet { target: 2, damage: 266_666, position: Point::new(0, 300_000, 0) },
        ]
    );
}

#[test]
fn volley_holds_six_bullets_at_most() {
    let mut towers = vec![tower(0, 0, 999_999), tower(100_000, 0, 0), tower(0, 100_000, 999_999)];
    let mut herd = Vec::new();
    let mut id = 0;
    while id < 9 {
        herd.push(enemy(id, (id as i32) * 10_000, 0));
        id += 1;
    }
    let mut bullets: Vec<Bullet> = Vec::new();
    let shots = spawn_bullet(&mut towers, &herd, &mut bullets, 1, AttackRadiusLvl(1), DamageLvl(1));
    assert_eq!(shots, 12);
    assert_eq!(bullets.len(), 12);
    let mut k = 0;
    while k < 6 {
        assert_eq!(bullets[k].target, k as u64);
        assert_eq!(bullets[k].position, Point::new(0, 300_000, 0));
        assert_eq!(bullets[k + 6].target, k as u64);
        assert_eq!(bullets[k + 6].position, Point::new(0, 300_000, 100_000));
        k += 1;
    }
    assert!(!towers[1].timer.finished);
    assert_eq!(towers[1].timer.elapsed, 1);
}

#[test]
fn bullet_flies_a_step_toward_its_target() {
    let herd = vec![enemy(1, 9_000_000, 9_000_000), enemy(2, 3_000_000, 4_000_000)];
    let mut bullets =
        vec![Bullet { target: 2, damage: 5, position: Point::new(0, 300_000, 0) }];
    fly_to_enemy(&mut bullets, &herd);
    assert_eq!(
        bullets,
        vec![Bullet { target: 2, damage: 5, position: Point::new(59_988, 298_001, 79_984) }]
    );
}

#[test]
fn bullet_without_target_disappears() {
    let herd = vec![enemy(1, 9_000_000, 9_000_000), enemy(2, 3_000_000, 4_000_000)];
    let before = herd.clone();
    let mut bullets = vec![
        Bullet { target: 7, damage: 5, position: Point::new(9_000_000, 200_000, 9_000_000) },
        Bullet { target: 1, damage: 6, position: Point::new(9_000_000, 200_000, 9_000_000) },
        Bullet { target: 0, damage: 7, position: Point::new(0, 0, 0) },
    ];
    fly_to_enemy(&mut bullets, &herd);
    assert_eq!(
        bullets,
        vec![Bullet { target: 1, damage: 6, position: Point::new(9_000_000, 200_000, 9_000_000) }]
    );
    assert_eq!(herd, before);
}

#[test]
fn bullet_whose_target_was_removed_is_removed_on_its_next_flight() {
    let mut herd = vec![enemy(1, 1_000_000, 0), enemy(2, 2_000_000, 0)];
    let mut bullets =
        vec![Bullet { target: 1, damage: 200_000, position: Point::new(0, 300_000, 0) }];
    herd.remove(0);
    let others = herd.clone();
    fly_to_enemy(&mut bullets, &herd);
    assert!(bullets.is_empty());
    destroy_enemy(&mut bullets, &mut herd);
    assert_eq!(herd, others);
    assert_eq!(herd[0].health, Health(1_000_000));
}

#[test]
fn bullet_in_reach_strikes_and_is_spent() {
    let mut herd = vec![enemy(1, 0, 0), enemy(2, 1_000_000, 0)];
    let mut bullets = vec![
        Bullet { target: 2, damage: 200_000, position: Point::new(1_000_000, 200_000, 50_000) },
        Bullet { target: 2, damage: 300_000, position: Point::new(1_000_000, 200_000, 50_001) },
        Bullet { target: 3, damage: 400_000, position: Point::new(0, 200_000, 0) },
        Bullet { target: 1, damage: 1, position: Point::new(0, 200_000, 0) },
    ];
    destroy_enemy(&mut bullets, &mut herd);
    assert_eq!(
        bullets,
        vec![
            Bullet { target: 2, damage: 300_000, position: Point::new(1_000_000, 200_000, 50_001) },
            Bullet { target: 3, damage: 400_000, position: Point::new(0, 200_000, 0) },
        ]
    );
    assert_eq!(herd[0].health, Health(999_999));
    assert_eq!(herd[1].health, Health(800_000));
    assert_eq!(herd[0].position, Point::new(0, 200_000, 0));
    assert_eq!(herd[1].id, 2);
    assert_eq!(herd[1].speed, Speed(50_000));
}

#[test]
fn one_hit_of_a_fifth_leaves_four_fifths() {
    let mut herd = vec![enemy(1, 0, 0)];
    let mut bullets =
        vec![Bullet { target: 1, damage: 200_000, position: Point::new(0, 200_000, 0) }];
    destroy_enemy(&mut bullets, &mut herd);
    assert!(bullets.is_empty());
    assert_eq!(herd[0].health, Health(800_000));
    let mut score = Score(0);
    let deaths = if_health_below_zero_then_die(&mut herd, &mut score);
    assert!(deaths.is_empty());
    assert_eq!(herd.len(), 1);
    assert_eq!(score, Score(0));
}

#[test]
fn five_hits_of_a_fifth_kill_and_score_once() {
    let mut herd = vec![enemy(1, 0, 0), enemy(2, 3_000_000, 0)];
    let mut score = Score(0);
    let mut hit = 0;
    while hit < 5 {
        assert_eq!(herd[0].health, Health(1_000_000 - 200_000 * hit));
        let mut bullets =
            vec![Bullet { target: 1, damage: 200_000, position: Point::new(0, 200_000, 0) }];
        destroy_enemy(&mut bullets, &mut herd);
        let deaths = if_health_below_zero_then_die(&mut herd, &mut score);
        if hit < 4 {
            assert!(deaths.is_empty());
            assert_eq!(herd.len(), 2);
            assert_eq!(score, Score(0));
        } else {
            assert_eq!(deaths, vec![Point::new(0, 200_000, 0)]);
        }
        hit += 1;
    }
    assert_eq!(herd, vec![enemy(2, 3_000_000, 0)]);
    assert_eq!(score, Score(1));
}

#[test]
fn hits_in_one_frame_add_up_past_zero() {
    let mut herd = vec![enemy(1, 0, 0)];
    let mut bullets = vec![
        Bullet { target: 1, damage: 700_000, position: Point::new(0, 200_000, 0) },
        Bullet { target: 1, damage: 250_000, position: Point::new(10, 200_000, 0) },
        Bullet { target: 1, damage: 600_000, position: Point::new(0, 200_000, 10) },
    ];
    destroy_enemy(&mut bullets, &mut herd);
    assert!(bullets.is_empty());
    assert_eq!(herd[0].health, Health(-550_000));
    let mut score = Score(41);
    let deaths = if_health_below_zero_then_die(&mut herd, &mut score);
    assert_eq!(deaths.len(), 1);
    assert!(herd.is_empty());
    assert_eq!(score, Score(42));
}
