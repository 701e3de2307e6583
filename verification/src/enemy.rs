//! Hostiles: how they are found, steered and removed.

use vstd::prelude::*;
use crate::economy::Score;
use crate::geometry::{
    lemma_walk_step, planar_dist2, planar_distance_squared, planar_nudge, planar_nudge_spec, Point,
};
use crate::mouse::MousePos;
use crate::tower::TimeSinceGameStart;

verus! {

/// Health a hostile starts with.
pub const STARTING_HEALTH: i64 = 1_000_000;

/// Speed a hostile starts with.
pub const DEFAULT_SPEED: u32 = 50_000;

/// Size of the push that steers a hostile toward the pointer each frame.
pub const PURSUIT_IMPULSE: u32 = 300;

/// Elevation at which hostiles appear.
pub const ENEMY_HEIGHT: i32 = 200_000;

/// Hostiles appear at least this far from the origin.
pub const SPAWN_RADIUS: u64 = 7_000_000;

/// Length of one step of the walk that carries a new hostile out of the ring.
pub const SPAWN_STEP: i32 = 10_000;

/// One in fixed point: the largest sample.
pub const FULL_SAMPLE: u32 = 1_000_000;

/// Half in fixed point: the sample at which a coin flips.
pub const HALF_SAMPLE: u32 = 500_000;

/// Health in fixed point. A hostile at or below zero is dead.
#[derive(Clone, Copy, PartialEq, Eq, Structural, Debug)]
pub struct Health(pub i64);

/// Speed in fixed point.
#[derive(Clone, Copy, PartialEq, Eq, Structural, Debug)]
pub struct Speed(pub u32);

/// A hostile. Bullets refer to it by `id`.
#[derive(Clone, Copy, PartialEq, Eq, Structural, Debug)]
pub struct Enemy {
    pub id: u64,
    pub position: Point,
    pub health: Health,
    pub speed: Speed,
}

impl Health {
    /// Whether a hostile with this health is still alive.
    pub open spec fn alive(self) -> bool {
        self.0 > 0
    }

    /// The health left after a hit of `damage`; it stops at `i64::MIN`.
    pub open spec fn wounded(self, damage: u64) -> Health {
        if self.0 - damage < i64::MIN {
            Health(i64::MIN)
        } else {
            Health((self.0 - damage) as i64)
        }
    }

    /// Takes `damage` off.
    pub fn wound(&mut self, damage: u64)
        ensures
            *final(self) == old(self).wounded(damage),
    {
        let left: i128 = self.0 as i128 - damage as i128;
        if left < i64::MIN as i128 {
            self.0 = i64::MIN;
        } else {
            self.0 = left as i64;
        }
    }

    /// Tests `alive`.
    pub fn is_alive(&self) -> (b: bool)
        ensures
            b == self.alive(),
    {
        self.0 > 0
    }
}

impl Enemy {
    /// A fresh hostile at `position`.
    pub fn new(id: u64, position: Point) -> (e: Enemy)
        ensures
            e == (Enemy {
                id,
                position,
                health: Health(STARTING_HEALTH),
                speed: Speed(DEFAULT_SPEED),
            }),
    {
        Enemy { id, position, health: Health(STARTING_HEALTH), speed: Speed(DEFAULT_SPEED) }
    }
}

/// Index of the first hostile with the given `id`, if there is one.
pub open spec fn find_enemy(enemies: Seq<Enemy>, id: u64) -> Option<int>
    decreases enemies.len(),
{
    if enemies.len() == 0 {
        None
    } else {
        match find_enemy(enemies.drop_last(), id) {
            Some(i) => Some(i),
            None => if enemies.last().id == id {
                Some(enemies.len() - 1)
            } else {
                None
            },
        }
    }
}

/// What `find_enemy` returns is the first index that holds `id`, and it
/// returns none only where no index does.
pub proof fn lemma_find_enemy(enemies: Seq<Enemy>, id: u64)
    ensures
        match find_enemy(enemies, id) {
            Some(i) => 0 <= i < enemies.len() && enemies[i].id == id && forall|j: int|
                0 <= j < i ==> enemies[j].id != id,
            None => forall|j: int| 0 <= j < enemies.len() ==> enemies[j].id != id,
        },
    decreases enemies.len(),
{
    if enemies.len() > 0 {
        let front = enemies.drop_last();
        lemma_find_enemy(front, id);
        assert(forall|j: int| 0 <= j < front.len() ==> front[j] == enemies[j]);
    }
}

/// Two herds with the same ids in the same places give the same answer.
pub proof fn lemma_find_enemy_by_ids(a: Seq<Enemy>, b: Seq<Enemy>, id: u64)
    requires
        a.len() == b.len(),
        forall|j: int| 0 <= j < a.len() ==> a[j].id == b[j].id,
    ensures
        find_enemy(a, id) == find_enemy(b, id),
    decreases a.len(),
{
    if a.len() > 0 {
        lemma_find_enemy_by_ids(a.drop_last(), b.drop_last(), id);
    }
}

/// Looks a hostile up by its `id`.
pub fn locate_enemy(enemies: &Vec<Enemy>, id: u64) -> (found: Option<usize>)
    ensures
        match found {
            Some(i) => i < enemies.len() && enemies@[i as int].id == id && find_enemy(
                enemies@,
                id,
            ) == Some(i as int),
            None => find_enemy(enemies@, id).is_none(),
        },
{
    let mut i: usize = 0;
    while i < enemies.len()
        invariant
            i <= enemies.len(),
            forall|j: int| 0 <= j < i ==> enemies@[j].id != id,
        decreases enemies.len() - i,
    {
        if enemies[i].id == id {
            proof {
                lemma_find_enemy(enemies@, id);
            }
            return Some(i);
        }
        i += 1;
    }
    proof {
        lemma_find_enemy(enemies@, id);
    }
    None
}

/// The pushes that steer each hostile toward `mouse`, in the herd's order.
pub open spec fn pursuit(enemies: Seq<Enemy>, mouse: MousePos) -> Seq<Point> {
    Seq::new(
        enemies.len(),
        |i: int| planar_nudge_spec(enemies[i].position, mouse.0, PURSUIT_IMPULSE as int),
    )
}

/// Computes one push per hostile toward `mouse`.
pub fn move_enemy_to_mouse(enemies: &Vec<Enemy>, mouse: MousePos) -> (pushes: Vec<Point>)
    ensures
        pushes@ == pursuit(enemies@, mouse),
{
    let mut pushes: Vec<Point> = Vec::new();
    let mut i: usize = 0;
    while i < enemies.len()
        invariant
            i <= enemies.len(),
            pushes@.len() == i,
            forall|j: int|
                0 <= j < i ==> pushes@[j] == planar_nudge_spec(
                    enemies@[j].position,
                    mouse.0,
                    PURSUIT_IMPULSE as int,
                ),
        decreases enemies.len() - i,
    {
        pushes.push(planar_nudge(enemies[i].position, mouse.0, PURSUIT_IMPULSE));
        i += 1;
    }
    assert(pushes@ =~= pursuit(enemies@, mouse));
    pushes
}

/// The score after `deaths` more kills; it stops at `u32::MAX`.
pub open spec fn score_after(score: Score, deaths: nat) -> Score {
    if score.0 + deaths > u32::MAX {
        Score(u32::MAX)
    } else {
        Score((score.0 + deaths) as u32)
    }
}

/// The hostiles that are still alive, in order.
pub open spec fn survivors(enemies: Seq<Enemy>) -> Seq<Enemy>
    decreases enemies.len(),
{
    if enemies.len() == 0 {
        Seq::empty()
    } else if enemies.last().health.alive() {
        survivors(enemies.drop_last()).push(enemies.last())
    } else {
        survivors(enemies.drop_last())
    }
}

/// The places of the hostiles that are dead, in order.
pub open spec fn death_places(enemies: Seq<Enemy>) -> Seq<Point>
    decreases enemies.len(),
{
    if enemies.len() == 0 {
        Seq::empty()
    } else if enemies.last().health.alive() {
        death_places(enemies.drop_last())
    } else {
        death_places(enemies.drop_last()).push(enemies.last().position)
    }
}

/// Reaping keeps, in their order, the hostiles that are alive, and reports,
/// in their order, the places of those that are not.
pub proof fn lemma_survivors_are_the_living(enemies: Seq<Enemy>)
    ensures
        survivors(enemies) == enemies.filter(|e: Enemy| e.health.alive()),
        death_places(enemies) == enemies.filter(|e: Enemy| !e.health.alive()).map_values(
            |e: Enemy| e.position,
        ),
    decreases enemies.len(),
{
    reveal(Seq::filter);
    if enemies.len() > 0 {
        lemma_survivors_are_the_living(enemies.drop_last());
    }
    assert(death_places(enemies) =~= enemies.filter(|e: Enemy| !e.health.alive()).map_values(
        |e: Enemy| e.position,
    ));
}

/// Every survivor is a living hostile of the herd, the survivors keep their
/// order, and each living hostile survives.
pub proof fn lemma_survivors(enemies: Seq<Enemy>)
    ensures
        survivors(enemies).len() + death_places(enemies).len() == enemies.len(),
        forall|j: int|
            0 <= j < survivors(enemies).len() ==> (#[trigger] survivors(enemies)[j]).health.alive()
                && enemies.contains(survivors(enemies)[j]),
        forall|i: int|
            0 <= i < enemies.len() && (#[trigger] enemies[i]).health.alive() ==> survivors(
                enemies,
            ).contains(enemies[i]),
    decreases enemies.len(),
{
    if enemies.len() > 0 {
        let front = enemies.drop_last();
        let last = enemies.last();
        lemma_survivors(front);
        assert(forall|j: int| 0 <= j < front.len() ==> front[j] == enemies[j]);
        assert forall|j: int| 0 <= j < survivors(enemies).len() implies (#[trigger] survivors(
            enemies,
        )[j]).health.alive() && enemies.contains(survivors(enemies)[j]) by {
            if j < survivors(front).len() {
                let e = survivors(front)[j];
                assert(front.contains(e));
                let k = choose|k: int| 0 <= k < front.len() && front[k] == e;
                assert(enemies[k] == e);
            } else {
                assert(enemies[enemies.len() - 1] == last);
            }
        }
        assert forall|i: int|
            0 <= i < enemies.len() && (#[trigger] enemies[i]).health.alive() implies survivors(
            enemies,
        ).contains(enemies[i]) by {
            if i < front.len() {
                assert(front[i].health.alive());
                assert(survivors(front).contains(front[i]));
                let k = choose|k: int|
                    0 <= k < survivors(front).len() && survivors(front)[k] == front[i];
                assert(survivors(enemies)[k] == enemies[i]);
            } else {
                assert(survivors(enemies)[survivors(enemies).len() - 1] == enemies[i]);
            }
        }
    }
}

/// Removes every dead hostile, counts each as one point of score and returns
/// the places where they died, in the herd's order.
pub fn if_health_below_zero_then_die(enemies: &mut Vec<Enemy>, score: &mut Score) -> (deaths: Vec<
    Point,
>)
    ensures
        final(enemies)@ == survivors(old(enemies)@),
        deaths@ == death_places(old(enemies)@),
        *final(score) == score_after(*old(score), death_places(old(enemies)@).len()),
{
    let ghost before = enemies@;
    let mut kept: Vec<Enemy> = Vec::new();
    let mut deaths: Vec<Point> = Vec::new();
    let mut i: usize = 0;
    while i < enemies.len()
        invariant
            i <= enemies.len(),
            enemies@ == before,
            kept@ == survivors(before.take(i as int)),
            deaths@ == death_places(before.take(i as int)),
            *score == score_after(*old(score), deaths@.len()),
        decreases enemies.len() - i,
    {
        let e = enemies[i];
        proof {
            assert(before.take(i + 1).drop_last() =~= before.take(i as int));
            assert(before.take(i + 1).last() == e);
        }
        if e.health.is_alive() {
            kept.push(e);
        } else {
            deaths.push(e.position);
            if score.0 < u32::MAX {
                score.0 = score.0 + 1;
            }
        }
        i += 1;
    }
    assert(before.take(i as int) =~= before);
    *enemies = kept;
    deaths
}

/// The six samples that one attempt to spawn a hostile consumes, each between
/// zero and one in fixed point.
#[derive(Clone, Copy, PartialEq, Eq, Structural, Debug)]
pub struct SpawnRoll {
    /// Decides whether a hostile appears at all.
    pub luck: u32,
    /// Where the walk starts along the first ground axis.
    pub x: u32,
    /// Where the walk starts along the second ground axis.
    pub z: u32,
    /// Whether a walk along the first axis goes up or down.
    pub x_sign: u32,
    /// Whether a walk along the second axis goes up or down.
    pub z_sign: u32,
    /// Along which axis the walk goes.
    pub axis: u32,
}

/// One step of the walk out of the ring: [`SPAWN_STEP`] up or down along one
/// ground axis, nothing along the other.
#[derive(Clone, Copy, PartialEq, Eq, Structural, Debug)]
pub struct Stride {
    pub x: i32,
    pub z: i32,
}

impl Stride {
    /// Whether the stride goes one step along exactly one ground axis.
    pub open spec fn wf(self) -> bool {
        ||| (self.x == SPAWN_STEP || self.x == -SPAWN_STEP) && self.z == 0
        ||| (self.z == SPAWN_STEP || self.z == -SPAWN_STEP) && self.x == 0
    }
}

impl SpawnRoll {
    /// Whether each sample lies between zero and one.
    pub open spec fn wf(self) -> bool {
        &&& self.luck <= FULL_SAMPLE
        &&& self.x <= FULL_SAMPLE
        &&& self.z <= FULL_SAMPLE
        &&& self.x_sign <= FULL_SAMPLE
        &&& self.z_sign <= FULL_SAMPLE
        &&& self.axis <= FULL_SAMPLE
    }

    /// Where the walk starts: the two samples stretched over the square from
    /// minus one to one, at the height of a hostile.
    pub open spec fn start(self) -> Point {
        Point {
            x: ((self.x - HALF_SAMPLE) * 2) as i32,
            y: ENEMY_HEIGHT,
            z: ((self.z - HALF_SAMPLE) * 2) as i32,
        }
    }

    /// The step of the walk: along the first axis where the axis sample is
    /// below a half, down where the sign sample of that axis is below a half.
    pub open spec fn stride(self) -> Stride {
        if self.axis < HALF_SAMPLE {
            Stride {
                x: if self.x_sign < HALF_SAMPLE {
                    (-SPAWN_STEP) as i32
                } else {
                    SPAWN_STEP
                },
                z: 0,
            }
        } else {
            Stride {
                x: 0,
                z: if self.z_sign < HALF_SAMPLE {
                    (-SPAWN_STEP) as i32
                } else {
                    SPAWN_STEP
                },
            }
        }
    }
}

/// Chance, in fixed point, that a hostile appears in a frame of a round that
/// has run for `time`: a thousandth of the seconds run plus two.
pub open spec fn spawn_chance(time: TimeSinceGameStart) -> int {
    (time.0 + 2_000_000) / 1000
}

/// Computes the chance that a hostile appears.
pub fn chance_to_spawn(time: TimeSinceGameStart) -> (chance: u64)
    ensures
        chance == spawn_chance(time),
{
    ((time.0 as u128 + 2_000_000u128) / 1000u128) as u64
}

/// The middle of the world on the ground.
pub open spec fn origin() -> Point {
    Point { x: 0, y: 0, z: 0 }
}

/// Whether `spot` lies at least [`SPAWN_RADIUS`] from the origin on the
/// ground.
pub open spec fn outside_ring(spot: Point) -> bool {
    planar_dist2(spot, origin()) >= SPAWN_RADIUS * SPAWN_RADIUS
}

/// The spot reached from `start` after `steps` strides.
pub open spec fn strode(start: Point, stride: Stride, steps: int) -> Point {
    Point {
        x: (start.x + steps * stride.x) as i32,
        y: start.y,
        z: (start.z + steps * stride.z) as i32,
    }
}

/// Whether `steps` is the number of strides after which the walk from `start`
/// first stands outside the ring.
pub open spec fn first_outside(start: Point, stride: Stride, steps: int) -> bool {
    &&& 0 <= steps
    &&& outside_ring(strode(start, stride, steps))
    &&& forall|k: int| 0 <= k < steps ==> !outside_ring(#[trigger] strode(start, stride, k))
}

/// Number of strides after which the walk from `start` first stands outside
/// the ring.
pub open spec fn strides_to_leave(start: Point, stride: Stride) -> int {
    choose|steps: int| first_outside(start, stride, steps)
}

/// The first spot outside the ring on the walk from `start`.
pub open spec fn ring_exit(start: Point, stride: Stride) -> Point {
    strode(start, stride, strides_to_leave(start, stride))
}

/// The walk first stands outside the ring after one number of strides only.
pub proof fn lemma_first_outside_unique(start: Point, stride: Stride, a: int, b: int)
    requires
        first_outside(start, stride, a),
        first_outside(start, stride, b),
    ensures
        a == b,
{
    if a < b {
        assert(!outside_ring(strode(start, stride, a)));
    } else if b < a {
        assert(!outside_ring(strode(start, stride, b)));
    }
}

/// Distance along the axis of the walk from `spot` to one stride past the
/// ring, in the direction of `stride`.
pub open spec fn room_in_ring(spot: Point, stride: Stride) -> int {
    if stride.x > 0 {
        SPAWN_RADIUS + SPAWN_STEP - spot.x
    } else if stride.x < 0 {
        spot.x + SPAWN_RADIUS + SPAWN_STEP
    } else if stride.z > 0 {
        SPAWN_RADIUS + SPAWN_STEP - spot.z
    } else {
        spot.z + SPAWN_RADIUS + SPAWN_STEP
    }
}

proof fn lemma_inside_ring_is_near(spot: Point)
    requires
        !outside_ring(spot),
    ensures
        -SPAWN_RADIUS < spot.x < SPAWN_RADIUS,
        -SPAWN_RADIUS < spot.z < SPAWN_RADIUS,
{
    let x = spot.x as int;
    let z = spot.z as int;
    assert(-7_000_000 < x < 7_000_000 && -7_000_000 < z < 7_000_000) by (nonlinear_arith)
        requires
            (x - 0) * (x - 0) + (z - 0) * (z - 0) < 7_000_000 * 7_000_000,
    ;
}

/// Tests whether `spot` lies outside the ring.
pub fn is_outside_ring(spot: Point) -> (b: bool)
    ensures
        b == outside_ring(spot),
{
    planar_distance_squared(spot, Point { x: 0, y: 0, z: 0 }) >= (SPAWN_RADIUS as u128) * (
    SPAWN_RADIUS as u128)
}

/// Walks from `start`, one stride at a time, to the first spot outside the
/// ring.
pub fn leave_ring(start: Point, stride: Stride) -> (spot: Point)
    requires
        stride.wf(),
        -SPAWN_RADIUS <= start.x <= SPAWN_RADIUS,
        -SPAWN_RADIUS <= start.z <= SPAWN_RADIUS,
    ensures
        first_outside(start, stride, strides_to_leave(start, stride)),
        spot == ring_exit(start, stride),
        outside_ring(spot),
        spot.y == start.y,
        -(SPAWN_RADIUS + SPAWN_STEP) <= spot.x <= SPAWN_RADIUS + SPAWN_STEP,
        -(SPAWN_RADIUS + SPAWN_STEP) <= spot.z <= SPAWN_RADIUS + SPAWN_STEP,
{
    let mut spot = start;
    let ghost mut steps: int = 0;
    proof {
        lemma_walk_step(0, stride.x as int);
        lemma_walk_step(0, stride.z as int);
    }
    let mut inside = !is_outside_ring(spot);
    while inside
        invariant
            stride.wf(),
            0 <= steps,
            inside == !outside_ring(spot),
            -(SPAWN_RADIUS + SPAWN_STEP) <= spot.x <= SPAWN_RADIUS + SPAWN_STEP,
            -(SPAWN_RADIUS + SPAWN_STEP) <= spot.z <= SPAWN_RADIUS + SPAWN_STEP,
            spot.x == start.x + steps * stride.x,
            spot.z == start.z + steps * stride.z,
            spot.y == start.y,
            spot == strode(start, stride, steps),
            forall|k: int| 0 <= k < steps ==> !outside_ring(#[trigger] strode(start, stride, k)),
        decreases room_in_ring(spot, stride),
    {
        proof {
            lemma_inside_ring_is_near(spot);
            lemma_walk_step(steps, stride.x as int);
            lemma_walk_step(steps, stride.z as int);
        }
        spot = Point { x: spot.x + stride.x, y: spot.y, z: spot.z + stride.z };
        proof {
            steps = steps + 1;
        }
        inside = !is_outside_ring(spot);
    }
    assert(first_outside(start, stride, steps));
    proof {
        lemma_first_outside_unique(start, stride, steps, strides_to_leave(start, stride));
    }
    spot
}

/// Whether the roll lets a hostile appear in a round that has run for
/// `time`: the first sample does not exceed the chance.
pub open spec fn roll_spawns(roll: SpawnRoll, time: TimeSinceGameStart) -> bool {
    roll.luck <= spawn_chance(time)
}

/// The hostile that a roll brings forth under the id `id`: fresh, at the spot
/// where the roll's walk leaves the ring.
pub open spec fn rolled_enemy(id: u64, roll: SpawnRoll) -> Enemy {
    Enemy {
        id,
        position: ring_exit(roll.start(), roll.stride()),
        health: Health(STARTING_HEALTH),
        speed: Speed(DEFAULT_SPEED),
    }
}

/// Whether an attempt with this roll spawns a hostile: the roll allows one
/// and an id is left to give. The last id is never given out.
pub open spec fn spawns(roll: SpawnRoll, time: TimeSinceGameStart, next_id: u64) -> bool {
    roll_spawns(roll, time) && next_id < u64::MAX
}

/// The herd after an attempt to spawn.
pub open spec fn herd_after_spawn(
    enemies: Seq<Enemy>,
    next_id: u64,
    time: TimeSinceGameStart,
    roll: SpawnRoll,
) -> Seq<Enemy> {
    if spawns(roll, time, next_id) {
        enemies.push(rolled_enemy(next_id, roll))
    } else {
        enemies
    }
}

/// The next id after an attempt to spawn.
pub open spec fn id_after_spawn(next_id: u64, time: TimeSinceGameStart, roll: SpawnRoll) -> u64 {
    if spawns(roll, time, next_id) {
        (next_id + 1) as u64
    } else {
        next_id
    }
}

/// Spawns a hostile if the roll allows one, at the spot where the roll's walk
/// leaves the ring, under the id `next_id`, which then moves on.
pub fn spawn_rolled(
    enemies: &mut Vec<Enemy>,
    next_id: &mut u64,
    time: TimeSinceGameStart,
    roll: SpawnRoll,
) -> (spawned: bool)
    requires
        roll.wf(),
    ensures
        spawned == spawns(roll, time, *old(next_id)),
        final(enemies)@ == herd_after_spawn(old(enemies)@, *old(next_id), time, roll),
        *final(next_id) == id_after_spawn(*old(next_id), time, roll),
        spawned ==> {
            &&& outside_ring(rolled_enemy(*old(next_id), roll).position)
            &&& rolled_enemy(*old(next_id), roll).position.in_world()
            &&& rolled_enemy(*old(next_id), roll).position.y == ENEMY_HEIGHT
        },
{
    if roll.luck as u64 > chance_to_spawn(time) || *next_id == u64::MAX {
        return false;
    }
    let start = Point {
        x: (roll.x as i32 - HALF_SAMPLE as i32) * 2,
        y: ENEMY_HEIGHT,
        z: (roll.z as i32 - HALF_SAMPLE as i32) * 2,
    };
    let stride = if roll.axis < HALF_SAMPLE {
        Stride {
            x: if roll.x_sign < HALF_SAMPLE {
                -SPAWN_STEP
            } else {
                SPAWN_STEP
            },
            z: 0,
        }
    } else {
        Stride {
            x: 0,
            z: if roll.z_sign < HALF_SAMPLE {
                -SPAWN_STEP
            } else {
                SPAWN_STEP
            },
        }
    };
    let spot = leave_ring(start, stride);
    enemies.push(Enemy::new(*next_id, spot));
    *next_id = *next_id + 1;
    true
}

/// `random_number::random_inclusively` draws a value between `min` and `max`,
/// both included, from the thread's generator. It panics where `min` exceeds
/// `max`, which the precondition leaves out.
#[verifier::external_body]
fn random_between(min: u32, max: u32) -> (sample: u32)
    requires
        min <= max,
    ensures
        min <= sample <= max,
{
    random_number::random_inclusively(min, max)
}

/// Draws a sample between zero and one in fixed point.
pub fn draw_sample() -> (sample: u32)
    ensures
        sample <= FULL_SAMPLE,
{
    random_between(0, FULL_SAMPLE)
}

/// Draws the six samples of one attempt to spawn a hostile.
pub fn draw_roll() -> (roll: SpawnRoll)
    ensures
        roll.wf(),
{
    let luck = draw_sample();
    let x = draw_sample();
    let z = draw_sample();
    let x_sign = draw_sample();
    let z_sign = draw_sample();
    let axis = draw_sample();
    SpawnRoll { luck, x, z, x_sign, z_sign, axis }
}

/// Draws the samples of one attempt and does with them what [`spawn_rolled`]
/// does with a roll. A hostile is owed where the chance has reached one and an
/// id is left, and none comes where no id is left.
pub fn spawn_enemies(enemies: &mut Vec<Enemy>, next_id: &mut u64, time: TimeSinceGameStart) -> (spawned:
    bool)
    ensures
        spawned ==> {
            &&& *old(next_id) < u64::MAX
            &&& final(enemies)@.len() == old(enemies)@.len() + 1
            &&& final(enemies)@.drop_last() == old(enemies)@
            &&& final(enemies)@.last().id == *old(next_id)
            &&& final(enemies)@.last().health == Health(STARTING_HEALTH)
            &&& final(enemies)@.last().speed == Speed(DEFAULT_SPEED)
            &&& final(enemies)@.last().position.y == ENEMY_HEIGHT
            &&& final(enemies)@.last().position.in_world()
            &&& outside_ring(final(enemies)@.last().position)
            &&& *final(next_id) == *old(next_id) + 1
        },
        !spawned ==> final(enemies)@ == old(enemies)@ && *final(next_id) == *old(next_id),
        exists|roll: SpawnRoll|
            {
                &&& #[trigger] roll.wf()
                &&& spawned == spawns(roll, time, *old(next_id))
                &&& final(enemies)@ == herd_after_spawn(old(enemies)@, *old(next_id), time, roll)
                &&& *final(next_id) == id_after_spawn(*old(next_id), time, roll)
            },
        spawn_chance(time) >= FULL_SAMPLE && *old(next_id) < u64::MAX ==> spawned,
        *old(next_id) == u64::MAX ==> !spawned,
{
    let luck = draw_sample();
    if luck as u64 > chance_to_spawn(time) {
        proof {
            let unlucky = SpawnRoll { luck, x: 0, z: 0, x_sign: 0, z_sign: 0, axis: 0 };
            assert(unlucky.wf() && !spawns(unlucky, time, *old(next_id)));
        }
        return false;
    }
    let x = draw_sample();
    let z = draw_sample();
    let x_sign = draw_sample();
    let z_sign = draw_sample();
    let axis = draw_sample();
    let roll = SpawnRoll { luck, x, z, x_sign, z_sign, axis };
    let ghost before = enemies@;
    let spawned = spawn_rolled(enemies, next_id, time, roll);
    proof {
        if spawned {
            assert(enemies@.drop_last() =~= before);
        }
        assert(roll.wf());
    }
    spawned
}

} // verus!
