use tower_defense::economy::Score;
use tower_defense::enemy::{
    chance_to_spawn, draw_sample, if_health_below_zero_then_die, is_outside_ring, leave_ring,
    locate_enemy, move_enemy_to_mouse, spawn_enemies, spawn_rolled, Enemy, Health, SpawnRoll,
    Speed, Stride,
};
use tower_defense::geometry::Point;
use tower_defense::mouse::{kill_player, MousePos};
use tower_defense::tower::TimeSinceGameStart;

fn enemy(id: u64, x: i32, z: i32, health: i64) -> Enemy {
    Enemy { id, position: Point::new(x, 200_000, z), health: Health(health), speed: Speed(50_000) }
}

#[test]
fn fresh_enemy() {
    let e = Enemy::new(4, Point::new(1, 2, 3));
    assert_eq!(e.id, 4);
    assert_eq!(e.position, Point::new(1, 2, 3));
    assert_eq!(e.health, Health(1_000_000));
    assert_eq!(e.speed, Speed(50_000));
}

#[test]
fn wound_takes_damage_off() {
    let mut h = Health(1_000_000);
    h.wound(200_000);
    assert_eq!(h, Health(800_000));
    assert!(h.is_alive());
    h.wound(800_000);
    assert_eq!(h, Health(0));
    assert!(!h.is_alive());
    h.wound(5);
    assert_eq!(h, Health(-5));
    assert!(!h.is_alive());
}

#[test]
fn wound_stops_at_the_bottom() {
    let mut h = Health(i64::MIN + 3);
    h.wound(10);
    assert_eq!(h, Health(i64::MIN));
    let mut g = Health(5);
    g.wound(u64::MAX);
    assert_eq!(g, Health(i64::MIN));
}

#[test]
fn locate_finds_the_first_with_the_id() {
    let herd = vec![enemy(3, 0, 0, 1), enemy(5, 1, 1, 1), enemy(5, 2, 2, 1)];
    assert_eq!(locate_enemy(&herd, 3), Some(0));
    assert_eq!(locate_enemy(&herd, 5), Some(1));
    assert_eq!(locate_enemy(&herd, 4), None);
    assert_eq!(locate_enemy(&Vec::new(), 0), None);
}

#[test]
fn pursuit_pushes_each_enemy_toward_the_pointer() {
    let herd = vec![
        enemy(0, 7_000_000, 0, 1_000_000),
        enemy(1, 3_000_000, -4_000_000, 1_000_000),
        enemy(2, 0, 0, 1_000_000),
    ];
    let pushes = move_enemy_to_mouse(&herd, MousePos(Point::new(0, 900_000, 0)));
    assert_eq!(
        pushes,
        vec![Point::new(-300, 0, 0), Point::new(-180, 0, 240), Point::new(0, 0, 0)]
    );
    assert!(move_enemy_to_mouse(&Vec::new(), MousePos(Point::new(0, 0, 0))).is_empty());
}

#[test]
fn dead_enemies_leave_and_count() {
    let mut herd = vec![
        enemy(0, 1, 1, 0),
        enemy(1, 2, 2, 500_000),
        enemy(2, 3, 3, -7),
        enemy(3, 4, 4, 1),
    ];
    let mut score = Score(10);
    let deaths = if_health_below_zero_then_die(&mut herd, &mut score);
    assert_eq!(herd, vec![enemy(1, 2, 2, 500_000), enemy(3, 4, 4, 1)]);
    assert_eq!(deaths, vec![Point::new(1, 200_000, 1), Point::new(3, 200_000, 3)]);
    assert_eq!(score, Score(12));
}

#[test]
fn living_enemies_stay() {
    let mut herd = vec![enemy(0, 1, 1, 1), enemy(1, 2, 2, 2)];
    let before = herd.clone();
    let mut score = Score(0);
    let deaths = if_health_below_zero_then_die(&mut herd, &mut score);
    assert_eq!(herd, before);
    assert!(deaths.is_empty());
    assert_eq!(score, Score(0));
}

#[test]
fn score_stops_at_the_top() {
    let mut herd = vec![enemy(0, 1, 1, 0), enemy(1, 2, 2, 0)];
    let mut score = Score(u32::MAX - 1);
    let deaths = if_health_below_zero_then_die(&mut herd, &mut score);
    assert_eq!(deaths.len(), 2);
    assert!(herd.is_empty());
    assert_eq!(score, Score(u32::MAX));
}

#[test]
fn chance_grows_with_the_round() {
    assert_eq!(chance_to_spawn(TimeSinceGameStart(0)), 2_000);
    assert_eq!(chance_to_spawn(TimeSinceGameStart(1_000_000)), 3_000);
    assert_eq!(chance_to_spawn(TimeSinceGameStart(998_000_000)), 1_000_000);
    assert_eq!(chance_to_spawn(TimeSinceGameStart(999)), 2_000);
    assert_eq!(chance_to_spawn(TimeSinceGameStart(u64::MAX)), 18_446_744_073_711_551);
}

#[test]
fn ring_test_includes_the_rim() {
    assert!(is_outside_ring(Point::new(7_000_000, 0, 0)));
    assert!(!is_outside_ring(Point::new(6_999_999, 5_000_000, 0)));
    assert!(is_outside_ring(Point::new(-4_949_748, 0, 4_949_748)));
    assert!(!is_outside_ring(Point::new(-4_949_747, 0, 4_949_747)));
}

#[test]
fn walk_leaves_the_ring_along_one_axis() {
    let west = Stride { x: -10_000, z: 0 };
    assert_eq!(
        leave_ring(Point::new(-1_000_000, 200_000, 1_000_000), west),
        Point::new(-6_930_000, 200_000, 1_000_000)
    );
    assert_eq!(
        leave_ring(Point::new(1_000_000, 200_000, 1_000_000), west),
        Point::new(-6_930_000, 200_000, 1_000_000)
    );
    let north = Stride { x: 0, z: 10_000 };
    assert_eq!(
        leave_ring(Point::new(400_000, 200_000, -600_000), north),
        Point::new(400_000, 200_000, 6_990_000)
    );
    assert_eq!(
        leave_ring(Point::new(0, 0, 0), Stride { x: 10_000, z: 0 }),
        Point::new(7_000_000, 0, 0)
    );
}

#[test]
fn walk_from_outside_the_ring_stays() {
    let start = Point::new(7_000_000, 200_000, 1);
    assert_eq!(leave_ring(start, Stride { x: -10_000, z: 0 }), start);
}

#[test]
fn roll_above_the_chance_spawns_nothing() {
    let mut herd: Vec<Enemy> = Vec::new();
    let mut next_id = 7;
    let roll =
        SpawnRoll { luck: 2_001, x: 0, z: 1_000_000, x_sign: 0, z_sign: 0, axis: 0 };
    assert!(!spawn_rolled(&mut herd, &mut next_id, TimeSinceGameStart(0), roll));
    assert!(herd.is_empty());
    assert_eq!(next_id, 7);
}

#[test]
fn roll_at_the_chance_spawns_outside_the_ring() {
    let mut herd: Vec<Enemy> = Vec::new();
    let mut next_id = 7;
    let roll =
        SpawnRoll { luck: 2_000, x: 0, z: 1_000_000, x_sign: 499_999, z_sign: 0, axis: 499_999 };
    assert!(spawn_rolled(&mut herd, &mut next_id, TimeSinceGameStart(0), roll));
    assert_eq!(herd, vec![Enemy::new(7, Point::new(-6_930_000, 200_000, 1_000_000))]);
    assert_eq!(next_id, 8);
}

#[test]
fn roll_picks_axis_and_direction() {
    let mut herd: Vec<Enemy> = Vec::new();
    let mut next_id = 0;
    let time = TimeSinceGameStart(998_000_000);
    let north =
        SpawnRoll { luck: 1_000_000, x: 700_000, z: 200_000, x_sign: 0, z_sign: 500_000, axis: 500_000 };
    assert!(spawn_rolled(&mut herd, &mut next_id, time, north));
    let east =
        SpawnRoll { luck: 0, x: 500_000, z: 500_000, x_sign: 500_000, z_sign: 0, axis: 0 };
    assert!(spawn_rolled(&mut herd, &mut next_id, time, east));
    let south =
        SpawnRoll { luck: 0, x: 500_000, z: 500_000, x_sign: 500_000, z_sign: 0, axis: 1_000_000 };
    assert!(spawn_rolled(&mut herd, &mut next_id, time, south));
    assert_eq!(
        herd,
        vec![
            Enemy::new(0, Point::new(400_000, 200_000, 6_990_000)),
            Enemy::new(1, Point::new(7_000_000, 200_000, 0)),
            Enemy::new(2, Point::new(0, 200_000, -7_000_000)),
        ]
    );
    assert_eq!(next_id, 3);
}

#[test]
fn last_id_is_never_given_out() {
    let mut herd: Vec<Enemy> = Vec::new();
    let mut next_id = u64::MAX;
    let roll = SpawnRoll { luck: 0, x: 0, z: 0, x_sign: 0, z_sign: 0, axis: 0 };
    assert!(!spawn_rolled(&mut herd, &mut next_id, TimeSinceGameStart(0), roll));
    assert!(herd.is_empty());
    assert_eq!(next_id, u64::MAX);
    next_id = u64::MAX - 1;
    assert!(spawn_rolled(&mut herd, &mut next_id, TimeSinceGameStart(0), roll));
    assert_eq!(herd[0].id, u64::MAX - 1);
    assert_eq!(next_id, u64::MAX);
}

#[test]
fn samples_lie_between_zero_and_one() {
    let mut low = false;
    let mut high = false;
    let mut n = 0;
    while n < 2_000 {
        let s = draw_sample();
        assert!(s <= 1_000_000);
        if s < 500_000 {
            low = true;
        } else {
            high = true;
        }
        n += 1;
    }
    assert!(low && high);
}

#[test]
fn drawn_spawns_land_outside_the_ring() {
    let mut herd: Vec<Enemy> = Vec::new();
    let mut next_id = 0;
    let mut n = 0;
    while n < 300 {
        let before = herd.len();
        let id = next_id;
        // An hour into the round every attempt succeeds.
        let spawned = spawn_enemies(&mut herd, &mut next_id, TimeSinceGameStart(3_600_000_000));
        assert!(spawned);
        assert_eq!(herd.len(), before + 1);
        let e = herd[before];
        assert_eq!(e.id, id);
        assert_eq!(next_id, id + 1);
        assert_eq!(e.health, Health(1_000_000));
        assert_eq!(e.position.y, 200_000);
        assert!(is_outside_ring(e.position));
        assert!(e.position.x.abs() <= 7_010_000 && e.position.z.abs() <= 7_010_000);
        n += 1;
    }
}

#[test]
fn drawn_spawns_are_rare_at_the_start() {
    let mut herd: Vec<Enemy> = Vec::new();
    let mut next_id = 0;
    let mut n = 0;
    while n < 1_000 {
        spawn_enemies(&mut herd, &mut next_id, TimeSinceGameStart(0));
        n += 1;
    }
    // The chance is two in a thousand.
    assert!(herd.len() < 100);
    assert_eq!(next_id, herd.len() as u64);
}

#[test]
fn enemy_at_the_pointer_ends_the_round() {
    let mouse = MousePos(Point::new(1_000_000, 5_000_000, 1_000_000));
    let far = vec![enemy(0, 1_030_000, 1_000_000, 1), enemy(1, 0, 0, 1)];
    assert!(!kill_player(&far, mouse));
    let near = vec![enemy(0, 0, 0, 1), enemy(1, 1_029_999, 1_000_000, 1)];
    assert!(kill_player(&near, mouse));
    assert!(!kill_player(&Vec::new(), mouse));
}

#[test]
fn drawn_spawn_needs_an_id() {
    let mut herd: Vec<Enemy> = Vec::new();
    let mut next_id = u64::MAX;
    let mut n = 0;
    while n < 50 {
        assert!(!spawn_enemies(&mut herd, &mut next_id, TimeSinceGameStart(3_600_000_000)));
        n += 1;
    }
    assert!(herd.is_empty());
    assert_eq!(next_id, u64::MAX);
}

#[test]
fn drawn_spawn_is_owed_once_the_chance_is_one() {
    let mut herd: Vec<Enemy> = Vec::new();
    let mut next_id = 0;
    let mut n = 0;
    while n < 50 {
        assert!(spawn_enemies(&mut herd, &mut next_id, TimeSinceGameStart(998_000_000)));
        n += 1;
    }
    assert_eq!(herd.len(), 50);
    assert_eq!(next_id, 50);
}
