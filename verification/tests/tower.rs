use tower_defense::economy::{PlacedTowers, Score};
use tower_defense::geometry::Point;
use tower_defense::mouse::MousePos;
use tower_defense::timer::Timer;
use tower_defense::tower::{
    find_free_spot, is_crowded, pick_heading, set_levelled_durations, set_tower_duration,
    set_tower_size, spawn_tower,
    tower_progress_increase, Channel, Heading, TimeSinceGameStart, Tower, TowerLevel,
    TowerProgress,
};

fn at(x: i32, z: i32) -> Tower {
    Tower::new(Point::new(x, 300_000, z))
}

#[test]
fn fresh_tower() {
    let t = at(5, 6);
    assert_eq!(t.position, Point::new(5, 300_000, 6));
    assert_eq!(t.level, TowerLevel(1));
    assert_eq!(t.progress, TowerProgress(0));
    assert_eq!(t.timer, Timer { elapsed: 0, duration: 1_000_000, finished: false });
}

#[test]
fn size_grows_with_the_level() {
    assert_eq!(set_tower_size(TowerLevel(1)), 108_000);
    assert_eq!(set_tower_size(TowerLevel(2)), 116_000);
    assert_eq!(set_tower_size(TowerLevel(125)), 1_100_000);
    assert_eq!(set_tower_size(TowerLevel(u32::MAX)), 34_359_738_460_000);
}

fn cooldown(level_log: u64) -> u64 {
    let mut t = at(0, 0);
    set_tower_duration(&mut t, level_log);
    t.timer.duration
}

fn log_of(level: u32) -> u64 {
    ((level as f64).ln() / 1.5f64.ln() * 1e6) as u64
}

#[test]
fn cooldown_shrinks_as_the_level_rises() {
    // Logarithms to base 1.5 of the levels 1, 2 and 10.
    let durations = vec![cooldown(0), cooldown(1_709_511), cooldown(5_678_873)];
    assert_eq!(durations, vec![1_000_000, 369_070, 149_725]);
    assert!(durations[0] > durations[1] && durations[1] > durations[2]);
    let millis: Vec<u64> = durations.iter().map(|micros| micros / 1000).collect();
    assert_eq!(millis, vec![1000, 369, 149]);
}

#[test]
fn cooldown_matches_the_logarithm_of_each_level() {
    let mut last = u64::MAX;
    for level in [1u32, 2, 10] {
        let duration = cooldown(log_of(level));
        let expected = (1000.0 / ((level as f64).ln() / 1.5f64.ln() + 1.0)) as u64;
        assert_eq!(duration / 1000, expected);
        assert!(duration < last);
        last = duration;
    }
}

#[test]
fn cooldown_tells_neighbouring_levels_apart() {
    assert_eq!(cooldown(9_648_236), 93_912);
    assert_eq!(cooldown(9_697_076), 93_483);
    assert_eq!(cooldown(log_of(33)), 103_912);
    assert_eq!(cooldown(log_of(34)), 103_123);
    let mut level = 1;
    while level <= 5_000 {
        assert!(cooldown(log_of(level + 1)) < cooldown(log_of(level)));
        level += 1;
    }
}

#[test]
fn cooldown_of_far_levels_meets() {
    assert_eq!(cooldown(log_of(5_141)), cooldown(log_of(5_142)));
    assert!(cooldown(log_of(5_142)) <= cooldown(log_of(5_140)));
    assert_eq!(cooldown(u64::MAX), 0);
}

#[test]
fn new_cooldown_keeps_the_rest_of_the_tower() {
    let mut t = at(1, 2);
    t.timer.tick(400_000);
    t.level = TowerLevel(2);
    t.progress = TowerProgress(17);
    set_tower_duration(&mut t, 1_709_511);
    assert_eq!(t.position, Point::new(1, 300_000, 2));
    assert_eq!(t.level, TowerLevel(2));
    assert_eq!(t.progress, TowerProgress(17));
    assert_eq!(t.timer, Timer { elapsed: 400_000, duration: 369_070, finished: false });
    set_tower_duration(&mut t, u64::MAX);
    assert_eq!(t.timer.duration, 0);
}

#[test]
fn levelled_towers_get_their_new_cooldown() {
    let mut towers = vec![at(0, 0), at(1_000_000, 0), at(2_000_000, 0), at(3_000_000, 0)];
    towers[1].level = TowerLevel(2);
    towers[1].timer.tick(250_000);
    towers[2].level = TowerLevel(10);
    let before = towers.clone();
    let report = vec![
        Channel { in_reach: true, levelled: false },
        Channel { in_reach: true, levelled: true },
        Channel { in_reach: false, levelled: false },
    ];
    let logs = vec![0, 1_709_511, 5_678_873, 0];
    set_levelled_durations(&mut towers, &report, &logs);
    assert_eq!(towers[0], before[0]);
    assert_eq!(towers[2], before[2]);
    assert_eq!(towers[3], before[3]);
    assert_eq!(towers[1].timer, Timer { elapsed: 250_000, duration: 369_070, finished: false });
    assert_eq!(towers[1].level, TowerLevel(2));
    assert_eq!(towers[1].position, before[1].position);
}

#[test]
fn levelled_tower_without_a_logarithm_keeps_its_cooldown() {
    let mut towers = vec![at(0, 0), at(1_000_000, 0)];
    let before = towers.clone();
    let report = vec![
        Channel { in_reach: true, levelled: true },
        Channel { in_reach: true, levelled: true },
        Channel { in_reach: true, levelled: true },
    ];
    set_levelled_durations(&mut towers, &report, &vec![1_709_511]);
    assert_eq!(towers[0].timer.duration, 369_070);
    assert_eq!(towers[1], before[1]);
    set_levelled_durations(&mut towers, &Vec::new(), &vec![5_678_873, 5_678_873]);
    assert_eq!(towers[0].timer.duration, 369_070);
    assert_eq!(towers[1], before[1]);
}

#[test]
fn pointer_in_reach_adds_a_frame_of_progress() {
    let mut towers = vec![at(0, 0), at(500_000, 0), at(500_001, 0)];
    let report = tower_progress_increase(&mut towers, MousePos(Point::new(0, 9, 0)), 500_000);
    assert_eq!(
        report,
        vec![
            Channel { in_reach: true, levelled: false },
            Channel { in_reach: true, levelled: false },
            Channel { in_reach: false, levelled: false },
        ]
    );
    assert_eq!(towers[0].progress, TowerProgress(1));
    assert_eq!(towers[1].progress, TowerProgress(1));
    assert_eq!(towers[2], at(500_001, 0));
}

#[test]
fn tower_reaches_the_next_level_after_its_span() {
    let mut towers = vec![at(0, 0)];
    let mouse = MousePos(Point::new(100_000, 0, 100_000));
    let mut frame = 1;
    while frame < 120 {
        let report = tower_progress_increase(&mut towers, mouse, 500_000);
        assert_eq!(report, vec![Channel { in_reach: true, levelled: false }]);
        assert_eq!(towers[0].level, TowerLevel(1));
        assert_eq!(towers[0].progress, TowerProgress(frame));
        frame += 1;
    }
    let report = tower_progress_increase(&mut towers, mouse, 500_000);
    assert_eq!(report, vec![Channel { in_reach: true, levelled: true }]);
    assert_eq!(towers[0].level, TowerLevel(2));
    assert_eq!(towers[0].progress, TowerProgress(0));
    // The second level takes 140 frames.
    frame = 1;
    while frame < 140 {
        tower_progress_increase(&mut towers, mouse, 500_000);
        assert_eq!(towers[0].level, TowerLevel(2));
        frame += 1;
    }
    tower_progress_increase(&mut towers, mouse, 500_000);
    assert_eq!(towers[0].level, TowerLevel(3));
}

#[test]
fn progress_waits_while_the_pointer_is_away() {
    let mut towers = vec![at(0, 0)];
    let near = MousePos(Point::new(0, 0, 0));
    let far = MousePos(Point::new(2_000_000, 0, 0));
    tower_progress_increase(&mut towers, near, 500_000);
    tower_progress_increase(&mut towers, far, 500_000);
    tower_progress_increase(&mut towers, far, 500_000);
    assert_eq!(towers[0].progress, TowerProgress(1));
    tower_progress_increase(&mut towers, near, 500_000);
    assert_eq!(towers[0].progress, TowerProgress(2));
}

#[test]
fn highest_level_stays() {
    let mut towers = vec![Tower {
        position: Point::new(0, 300_000, 0),
        level: TowerLevel(u32::MAX),
        progress: TowerProgress(85_899_345_999),
        timer: Timer::new(1),
    }];
    let report = tower_progress_increase(&mut towers, MousePos(Point::new(0, 0, 0)), 1);
    assert_eq!(report, vec![Channel { in_reach: true, levelled: false }]);
    assert_eq!(towers[0].level, TowerLevel(u32::MAX));
    assert_eq!(towers[0].progress, TowerProgress(0));
}

#[test]
fn crowded_within_the_separation() {
    let towers = vec![at(0, 0), at(5_000_000, 0)];
    assert!(is_crowded(&towers, Point::new(700_000, 300_000, 0)));
    assert!(!is_crowded(&towers, Point::new(700_001, 300_000, 0)));
    assert!(is_crowded(&towers, Point::new(5_000_000, 300_000, -700_000)));
    assert!(!is_crowded(&Vec::new(), Point::new(0, 300_000, 0)));
}

#[test]
fn headings_by_quarter() {
    assert_eq!(pick_heading(0), Heading { x: 1, z: 1 });
    assert_eq!(pick_heading(250_000), Heading { x: 1, z: 1 });
    assert_eq!(pick_heading(250_001), Heading { x: 1, z: -1 });
    assert_eq!(pick_heading(500_000), Heading { x: 1, z: -1 });
    assert_eq!(pick_heading(500_001), Heading { x: -1, z: 1 });
    assert_eq!(pick_heading(749_999), Heading { x: -1, z: 1 });
    assert_eq!(pick_heading(750_000), Heading { x: -1, z: -1 });
    assert_eq!(pick_heading(1_000_000), Heading { x: -1, z: -1 });
}

#[test]
fn free_spot_is_the_start_where_nothing_crowds() {
    let towers = vec![at(0, 0)];
    let start = Point::new(700_001, 300_000, 0);
    assert_eq!(find_free_spot(&towers, start, Heading { x: -1, z: -1 }), start);
}

#[test]
fn free_spot_walks_along_the_diagonal() {
    let towers = vec![at(0, 0)];
    let start = Point::new(0, 300_000, 0);
    // 50 steps reach 0.5 along each axis: 0.7071 from the tower.
    assert_eq!(
        find_free_spot(&towers, start, Heading { x: 1, z: -1 }),
        Point::new(500_000, 300_000, -500_000)
    );
    assert_eq!(
        find_free_spot(&towers, start, Heading { x: -1, z: 1 }),
        Point::new(-500_000, 300_000, 500_000)
    );
}

#[test]
fn free_spot_walks_past_a_second_tower() {
    let towers = vec![at(0, 0), at(900_000, 900_000)];
    let spot = find_free_spot(&towers, Point::new(0, 300_000, 0), Heading { x: 1, z: 1 });
    assert_eq!(spot, Point::new(1_400_000, 300_000, 1_400_000));
    assert!(!is_crowded(&towers, spot));
}

fn click(
    towers: &mut Vec<Tower>,
    placed: &mut PlacedTowers,
    time: &mut TimeSinceGameStart,
    last: &mut u64,
    clicked: bool,
    pending: bool,
    score: Score,
    now: u64,
) -> Option<Tower> {
    let mouse = MousePos(Point::new(1_000_000, 77, 2_000_000));
    spawn_tower(towers, placed, time, last, mouse, clicked, pending, score, 10_000, now, 0)
}

#[test]
fn click_places_a_tower_at_the_pointer() {
    let mut towers = Vec::new();
    let mut placed = PlacedTowers(0);
    let mut time = TimeSinceGameStart(990_000);
    let mut last = 0;
    let built =
        click(&mut towers, &mut placed, &mut time, &mut last, true, false, Score(0), 5_000_000);
    assert_eq!(built, Some(at(1_000_000, 2_000_000)));
    assert_eq!(towers, vec![at(1_000_000, 2_000_000)]);
    assert_eq!(placed, PlacedTowers(1));
    assert_eq!(time, TimeSinceGameStart(1_000_000));
    assert_eq!(last, 5_000_000);
}

#[test]
fn no_click_places_nothing() {
    let mut towers = Vec::new();
    let mut placed = PlacedTowers(0);
    let mut time = TimeSinceGameStart(5_000_000);
    let mut last = 0;
    let built =
        click(&mut towers, &mut placed, &mut time, &mut last, false, false, Score(0), 5_000_000);
    assert_eq!(built, None);
    assert!(towers.is_empty());
    assert_eq!(placed, PlacedTowers(0));
    assert_eq!(time, TimeSinceGameStart(5_010_000));
    assert_eq!(last, 0);
}

#[test]
fn click_in_the_grace_period_places_nothing() {
    let mut towers = Vec::new();
    let mut placed = PlacedTowers(0);
    let mut time = TimeSinceGameStart(989_999);
    let mut last = 0;
    let built =
        click(&mut towers, &mut placed, &mut time, &mut last, true, false, Score(0), 5_000_000);
    assert_eq!(built, None);
    assert!(towers.is_empty());
    assert_eq!(placed, PlacedTowers(0));
    assert_eq!(time, TimeSinceGameStart(999_999));
    assert_eq!(last, 0);
}

#[test]
fn click_too_soon_after_a_placement_places_nothing() {
    let mut towers = Vec::new();
    let mut placed = PlacedTowers(0);
    let mut time = TimeSinceGameStart(5_000_000);
    let mut last = 4_600_001;
    let built =
        click(&mut towers, &mut placed, &mut time, &mut last, true, false, Score(50), 5_000_000);
    assert_eq!(built, None);
    assert_eq!(last, 4_600_001);
    last = 4_600_000;
    let built =
        click(&mut towers, &mut placed, &mut time, &mut last, true, false, Score(50), 5_000_000);
    assert!(built.is_some());
    assert_eq!(last, 5_000_000);
    last = u64::MAX;
    let built =
        click(&mut towers, &mut placed, &mut time, &mut last, true, false, Score(50), u64::MAX);
    assert_eq!(built, None);
}

#[test]
fn click_without_budget_places_nothing() {
    let mut towers = vec![at(0, 0)];
    let mut placed = PlacedTowers(1);
    let mut time = TimeSinceGameStart(5_000_000);
    let mut last = 0;
    let built =
        click(&mut towers, &mut placed, &mut time, &mut last, true, false, Score(49), 5_000_000);
    assert_eq!(built, None);
    assert_eq!(towers, vec![at(0, 0)]);
    assert_eq!(placed, PlacedTowers(1));
    let built =
        click(&mut towers, &mut placed, &mut time, &mut last, true, false, Score(50), 5_000_000);
    assert!(built.is_some());
    assert_eq!(placed, PlacedTowers(2));
}

#[test]
fn click_while_a_change_is_pending_places_nothing() {
    let mut towers = Vec::new();
    let mut placed = PlacedTowers(0);
    let mut time = TimeSinceGameStart(5_000_000);
    let mut last = 0;
    let built =
        click(&mut towers, &mut placed, &mut time, &mut last, true, true, Score(0), 5_000_000);
    assert_eq!(built, None);
    assert!(towers.is_empty());
    assert_eq!(time, TimeSinceGameStart(5_010_000));
}

#[test]
fn click_on_a_tower_places_the_next_beside_it() {
    let mut towers = vec![at(1_000_000, 2_000_000)];
    let mut placed = PlacedTowers(1);
    let mut time = TimeSinceGameStart(5_000_000);
    let mut last = 0;
    let built =
        click(&mut towers, &mut placed, &mut time, &mut last, true, false, Score(50), 5_000_000);
    assert_eq!(built, Some(at(1_500_000, 2_500_000)));
    assert_eq!(towers.len(), 2);
}

#[test]
fn click_whose_free_spot_leaves_the_world_places_nothing() {
    let mut towers = vec![at(2_000_000_000, 2_000_000_000)];
    let mut placed = PlacedTowers(0);
    let mut time = TimeSinceGameStart(5_000_000);
    let mut last = 0;
    let mouse = MousePos(Point::new(2_000_000_000, 0, 2_000_000_000));
    let built = spawn_tower(
        &mut towers, &mut placed, &mut time, &mut last, mouse, true, false, Score(0), 0,
        9_000_000, 0,
    );
    assert_eq!(built, None);
    assert_eq!(towers.len(), 1);
    assert_eq!(placed, PlacedTowers(0));
    assert_eq!(last, 0);
    let inward = spawn_tower(
        &mut towers, &mut placed, &mut time, &mut last, mouse, true, false, Score(0), 0,
        9_000_000, 1_000_000,
    );
    assert_eq!(inward, Some(at(1_999_500_000, 1_999_500_000)));
}

#[test]
fn clock_of_the_round_stops_at_the_top() {
    let mut towers = Vec::new();
    let mut placed = PlacedTowers(0);
    let mut time = TimeSinceGameStart(u64::MAX - 5);
    let mut last = 0;
    click(&mut towers, &mut placed, &mut time, &mut last, false, false, Score(0), 0);
    assert_eq!(time, TimeSinceGameStart(u64::MAX));
}
