//! Towers: their cooldown, their growth and where they may stand.

use vstd::prelude::*;
use crate::economy::{available_towers, calculate_available_towers, PlacedTowers, Score};
use crate::geometry::{dist2, lemma_walk_step, planar_dist2, within, within_planar, Point};
use crate::mouse::MousePos;
use crate::timer::Timer;

verus! {

/// Microseconds between two volleys of a fresh tower.
pub const STARTING_COOLDOWN: u64 = 1_000_000;

/// Elevation at which towers stand.
pub const TOWER_HEIGHT: i32 = 300_000;

/// Two towers stand farther apart than this.
pub const TOWER_SEPARATION: u64 = 700_000;

/// Length, along each ground axis, of one step of the search for a free spot.
pub const PLACEMENT_STEP: i32 = 10_000;

/// One step past the farthest that a crowded spot can lie from the origin
/// along an axis.
pub const WORLD_EDGE: i32 = 2_000_710_000;

/// Microseconds at the start of a round in which nothing can be placed.
pub const GRACE_PERIOD: u64 = 1_000_000;

/// Microseconds that pass between two placements at least.
pub const PLACEMENT_PAUSE: u64 = 400_000;

/// Level of a tower, from one up.
#[derive(Clone, Copy, PartialEq, Eq, Structural, Debug)]
pub struct TowerLevel(pub u32);

/// Frames that the pointer has spent near a tower since its last level.
#[derive(Clone, Copy, PartialEq, Eq, Structural, Debug)]
pub struct TowerProgress(pub u64);

/// Microseconds since the running round began.
#[derive(Clone, Copy, PartialEq, Eq, Structural, Debug)]
pub struct TimeSinceGameStart(pub u64);

/// A placed tower.
#[derive(Clone, Copy, PartialEq, Eq, Structural, Debug)]
pub struct Tower {
    pub position: Point,
    pub level: TowerLevel,
    pub progress: TowerProgress,
    pub timer: Timer,
}

impl TowerLevel {
    /// Frames near the pointer that lift a tower from this level to the next.
    /// Each such frame adds one part in `span` to the tower's progress.
    pub open spec fn span(self) -> int {
        20 * (self.0 + 5)
    }

    /// The next level; the highest level is its own successor.
    pub open spec fn next(self) -> TowerLevel {
        if self.0 == u32::MAX {
            self
        } else {
            TowerLevel((self.0 + 1) as u32)
        }
    }

    /// Size at which a tower of this level is drawn, in fixed point.
    pub open spec fn scale(self) -> int {
        100_000 + self.0 * 8_000
    }
}

impl Tower {
    /// A fresh tower at `position`: level one, no progress, a full cooldown
    /// ahead.
    pub fn new(position: Point) -> (t: Tower)
        ensures
            t == fresh_tower(position),
    {
        Tower {
            position,
            level: TowerLevel(1),
            progress: TowerProgress(0),
            timer: Timer::new(STARTING_COOLDOWN),
        }
    }

    /// Whether the progress is less than a whole level.
    pub open spec fn wf(self) -> bool {
        self.progress.0 < self.level.span()
    }

    /// Whether the pointer is within `radius` of the tower on the ground.
    pub open spec fn channelled(self, mouse: MousePos, radius: u64) -> bool {
        planar_dist2(self.position, mouse.0) <= radius * radius
    }

    /// The tower after a frame: with the pointer in reach it gains one frame
    /// of progress, and where that completes the span it starts the next
    /// level with no progress; otherwise it is unchanged.
    pub open spec fn progressed(self, mouse: MousePos, radius: u64) -> Tower {
        if !self.channelled(mouse, radius) {
            self
        } else if self.progress.0 + 1 >= self.level.span() {
            Tower { level: self.level.next(), progress: TowerProgress(0), ..self }
        } else {
            Tower { progress: TowerProgress((self.progress.0 + 1) as u64), ..self }
        }
    }

    /// The tower after `frames` frames with the pointer in reach.
    pub open spec fn channelled_for(self, frames: nat, mouse: MousePos, radius: u64) -> Tower
        decreases frames,
    {
        if frames == 0 {
            self
        } else {
            self.channelled_for((frames - 1) as nat, mouse, radius).progressed(mouse, radius)
        }
    }
}

/// A tower that starts a level without progress and has the pointer in reach
/// gains one part of the span each frame and reaches the next level on the
/// frame that completes the span, not before.
pub proof fn lemma_level_up_after_span(tower: Tower, frames: nat, mouse: MousePos, radius: u64)
    requires
        tower.progress.0 == 0,
        tower.channelled(mouse, radius),
        frames <= tower.level.span(),
    ensures
        frames < tower.level.span() ==> tower.channelled_for(frames, mouse, radius) == (Tower {
            progress: TowerProgress(frames as u64),
            ..tower
        }),
        frames == tower.level.span() ==> tower.channelled_for(frames, mouse, radius) == (Tower {
            level: tower.level.next(),
            progress: TowerProgress(0),
            ..tower
        }),
    decreases frames,
{
    if frames > 0 {
        lemma_level_up_after_span(tower, (frames - 1) as nat, mouse, radius);
    }
}

/// Size at which a tower of the given level is drawn.
pub fn set_tower_size(level: TowerLevel) -> (scale: u64)
    ensures
        scale == level.scale(),
{
    100_000 + level.0 as u64 * 8_000
}

/// Microseconds between two volleys of a tower whose level has the given
/// logarithm to base 1.5, in fixed point: a second divided by one more than
/// the logarithm, rounded down to the microsecond.
pub open spec fn cooldown_micros(level_log: u64) -> int {
    1_000_000_000_000int / (level_log + 1_000_000)
}

/// The whole milliseconds of that cooldown.
pub open spec fn cooldown_millis(level_log: u64) -> int {
    cooldown_micros(level_log) / 1000
}

/// A tower with a greater logarithm of its level waits no longer between two
/// volleys, and a tower of level one, whose logarithm is zero, waits a second.
pub proof fn lemma_cooldown_shrinks(lower: u64, higher: u64)
    requires
        lower <= higher,
    ensures
        cooldown_micros(higher) <= cooldown_micros(lower),
        cooldown_millis(higher) <= cooldown_millis(lower),
        cooldown_micros(0) == 1_000_000,
        cooldown_millis(0) == 1000,
        0 <= cooldown_micros(higher) <= 1_000_000,
        0 <= cooldown_millis(higher) <= 1000,
{
    let a = lower + 1_000_000;
    let b = higher + 1_000_000;
    assert(1_000_000_000_000int / b <= 1_000_000_000_000int / a && 0 <= 1_000_000_000_000int / b
        <= 1_000_000) by (nonlinear_arith)
        requires
            1_000_000 <= a <= b,
    ;
}

/// A tower with a greater logarithm of its level waits strictly less between
/// two volleys, where the two logarithms lie far enough apart for the
/// difference to show in microseconds: a second times their difference is at
/// least the product of the two, each taken plus one.
///
/// The logarithms to base 1.5 of two neighbouring levels, rounded to fixed
/// point, lie that far apart for every level up to 5000. The first two
/// neighbouring levels with the same cooldown are 5141 and 5142.
pub proof fn lemma_cooldown_shrinks_strictly(lower: u64, higher: u64)
    requires
        lower < higher,
        (lower + 1_000_000) * (higher + 1_000_000) <= 1_000_000_000_000 * (higher - lower),
    ensures
        cooldown_micros(higher) < cooldown_micros(lower),
{
    let n = 1_000_000_000_000int;
    let a = lower + 1_000_000;
    let b = higher + 1_000_000;
    let q = n / b;
    assert(n / a >= q + 1) by (nonlinear_arith)
        requires
            q == n / b,
            0 < a < b,
            a * b <= n * (b - a),
            n > 0,
    {
        assert(q * b <= n);
        assert(n * a <= b * (n - a));
        assert(a * (q * b) <= a * n);
        assert((a * q) * b <= b * (n - a));
        assert(a * q <= n - a);
        assert(a * (q + 1) <= n);
    }
}

/// The tower with the cooldown that belongs to the logarithm of its level to
/// base 1.5. The time already gathered toward the next volley stays.
pub open spec fn retimed(tower: Tower, level_log: u64) -> Tower {
    Tower {
        timer: Timer { duration: cooldown_micros(level_log) as u64, ..tower.timer },
        ..tower
    }
}

/// Sets the cooldown of `tower` from the logarithm of its level to base 1.5,
/// given in fixed point. The time already gathered toward the next volley
/// stays.
pub fn set_tower_duration(tower: &mut Tower, level_log: u64)
    ensures
        *final(tower) == retimed(*old(tower), level_log),
{
    proof {
        lemma_cooldown_shrinks(0, level_log);
    }
    let micros: u128 = 1_000_000_000_000u128 / (level_log as u128 + 1_000_000u128);
    tower.timer.set_duration(micros as u64);
}

/// What the pointer did to one tower in a frame.
#[derive(Clone, Copy, PartialEq, Eq, Structural, Debug)]
pub struct Channel {
    /// Whether the pointer was in reach of the tower.
    pub in_reach: bool,
    /// Whether the tower reached a new level.
    pub levelled: bool,
}

/// What the frame did to `tower`.
pub open spec fn channel_of(tower: Tower, mouse: MousePos, radius: u64) -> Channel {
    Channel {
        in_reach: tower.channelled(mouse, radius),
        levelled: tower.progressed(mouse, radius).level != tower.level,
    }
}

/// Whether every tower's progress is less than a whole level.
pub open spec fn towers_wf(towers: Seq<Tower>) -> bool {
    forall|i: int| 0 <= i < towers.len() ==> (#[trigger] towers[i]).wf()
}

/// Lets every tower within `radius` of the pointer gain a frame of progress,
/// and tells for each tower what happened. A tower that reached a new level
/// gets the cooldown of that level from [`set_levelled_durations`].
pub fn tower_progress_increase(towers: &mut Vec<Tower>, mouse: MousePos, radius: u64) -> (report:
    Vec<Channel>)
    requires
        towers_wf(old(towers)@),
    ensures
        final(towers)@ == Seq::new(
            old(towers)@.len(),
            |i: int| old(towers)@[i].progressed(mouse, radius),
        ),
        report@ == Seq::new(
            old(towers)@.len(),
            |i: int| channel_of(old(towers)@[i], mouse, radius),
        ),
        towers_wf(final(towers)@),
{
    let ghost start = towers@;
    let mut report: Vec<Channel> = Vec::new();
    let mut i: usize = 0;
    while i < towers.len()
        invariant
            i <= towers.len(),
            towers@.len() == start.len(),
            report@.len() == i,
            towers_wf(start),
            forall|k: int| 0 <= k < i ==> towers@[k] == start[k].progressed(mouse, radius),
            forall|k: int| 0 <= k < i ==> report@[k] == channel_of(start[k], mouse, radius),
            forall|k: int| 0 <= k < i ==> (#[trigger] towers@[k]).wf(),
            forall|k: int| i <= k < start.len() ==> towers@[k] == start[k],
        decreases towers.len() - i,
    {
        let mut tower = towers[i];
        assert(start[i as int].wf());
        let in_reach = within_planar(tower.position, mouse.0, radius);
        let mut levelled = false;
        if in_reach {
            let span: u64 = 20 * (tower.level.0 as u64 + 5);
            if tower.progress.0 + 1 >= span {
                tower.progress = TowerProgress(0);
                if tower.level.0 < u32::MAX {
                    tower.level = TowerLevel(tower.level.0 + 1);
                    levelled = true;
                }
            } else {
                tower.progress = TowerProgress(tower.progress.0 + 1);
            }
        }
        towers.set(i, tower);
        report.push(Channel { in_reach, levelled });
        i += 1;
    }
    assert(towers@ =~= Seq::new(start.len(), |i: int| start[i].progressed(mouse, radius)));
    assert(report@ =~= Seq::new(start.len(), |i: int| channel_of(start[i], mouse, radius)));
    report
}

/// Whether the report says that the tower at `index` reached a new level, and
/// a logarithm for it is at hand.
pub open spec fn is_retimed(report: Seq<Channel>, level_logs: Seq<u64>, index: int) -> bool {
    0 <= index < report.len() && index < level_logs.len() && report[index].levelled
}

/// The towers after each tower that reached a new level has got the cooldown
/// of that level. `level_logs` holds, for the tower at each index, the
/// logarithm of its level to base 1.5 in fixed point.
pub open spec fn retimed_towers(
    towers: Seq<Tower>,
    report: Seq<Channel>,
    level_logs: Seq<u64>,
) -> Seq<Tower> {
    Seq::new(
        towers.len(),
        |i: int|
            if is_retimed(report, level_logs, i) {
                retimed(towers[i], level_logs[i])
            } else {
                towers[i]
            },
    )
}

/// Gives each tower that the report names as levelled the cooldown of its new
/// level, and leaves every other tower as it is.
pub fn set_levelled_durations(
    towers: &mut Vec<Tower>,
    report: &Vec<Channel>,
    level_logs: &Vec<u64>,
)
    ensures
        final(towers)@ == retimed_towers(old(towers)@, report@, level_logs@),
        towers_wf(old(towers)@) ==> towers_wf(final(towers)@),
        towers_in_world(old(towers)@) ==> towers_in_world(final(towers)@),
{
    let ghost start = towers@;
    let mut i: usize = 0;
    while i < towers.len()
        invariant
            i <= towers.len(),
            towers@.len() == start.len(),
            forall|k: int|
                0 <= k < i ==> towers@[k] == retimed_towers(start, report@, level_logs@)[k],
            forall|k: int| i <= k < start.len() ==> towers@[k] == start[k],
        decreases towers.len() - i,
    {
        if i < report.len() && i < level_logs.len() && report[i].levelled {
            let mut tower = towers[i];
            set_tower_duration(&mut tower, level_logs[i]);
            towers.set(i, tower);
        }
        i += 1;
    }
    assert(towers@ =~= retimed_towers(start, report@, level_logs@));
    proof {
        let after = towers@;
        if towers_wf(start) {
            assert forall|k: int| 0 <= k < after.len() implies (#[trigger] after[k]).wf() by {
                assert(start[k].wf());
            }
        }
        if towers_in_world(start) {
            assert forall|k: int| 0 <= k < after.len() implies (#[trigger] after[k]).position.in_world() by {
                assert(start[k].position.in_world());
            }
        }
    }
}

/// Whether a tower stands within [`TOWER_SEPARATION`] of `spot`.
pub open spec fn crowded(towers: Seq<Tower>, spot: Point) -> bool {
    exists|i: int|
        0 <= i < towers.len() && dist2((#[trigger] towers[i]).position, spot) <= TOWER_SEPARATION
            * TOWER_SEPARATION
}

/// Tests whether a tower stands too near to `spot`.
pub fn is_crowded(towers: &Vec<Tower>, spot: Point) -> (b: bool)
    ensures
        b == crowded(towers@, spot),
{
    let mut i: usize = 0;
    while i < towers.len()
        invariant
            i <= towers.len(),
            forall|j: int|
                0 <= j < i ==> dist2((#[trigger] towers@[j]).position, spot) > TOWER_SEPARATION
                    * TOWER_SEPARATION,
        decreases towers.len() - i,
    {
        if within(towers[i].position, spot, TOWER_SEPARATION) {
            return true;
        }
        i += 1;
    }
    false
}

/// Direction along the two ground axes in which the search for a free spot
/// walks: each part is `1` or `-1`.
#[derive(Clone, Copy, PartialEq, Eq, Structural, Debug)]
pub struct Heading {
    pub x: i32,
    pub z: i32,
}

impl Heading {
    /// Whether each part is `1` or `-1`.
    pub open spec fn wf(self) -> bool {
        (self.x == 1 || self.x == -1) && (self.z == 1 || self.z == -1)
    }
}

/// The heading that a sample between zero and one in fixed point selects: one
/// diagonal for each quarter of the range.
pub open spec fn heading_of(sample: u32) -> Heading {
    if sample <= 250_000 {
        Heading { x: 1, z: 1 }
    } else if sample <= 500_000 {
        Heading { x: 1, z: -1i32 }
    } else if sample < 750_000 {
        Heading { x: -1i32, z: 1 }
    } else {
        Heading { x: -1i32, z: -1i32 }
    }
}

/// Picks the heading for a sample.
pub fn pick_heading(sample: u32) -> (h: Heading)
    ensures
        h == heading_of(sample),
        h.wf(),
{
    if sample <= 250_000 {
        Heading { x: 1, z: 1 }
    } else if sample <= 500_000 {
        Heading { x: 1, z: -1 }
    } else if sample < 750_000 {
        Heading { x: -1, z: 1 }
    } else {
        Heading { x: -1, z: -1 }
    }
}

/// The spot reached from `start` after `steps` steps along `heading`.
pub open spec fn walked(start: Point, heading: Heading, steps: int) -> Point {
    Point {
        x: (start.x + steps * (heading.x * PLACEMENT_STEP)) as i32,
        y: start.y,
        z: (start.z + steps * (heading.z * PLACEMENT_STEP)) as i32,
    }
}

/// Whether `steps` is the number of steps after which the walk from `start`
/// first reaches a spot that no tower crowds.
pub open spec fn first_free(towers: Seq<Tower>, start: Point, heading: Heading, steps: int) -> bool {
    &&& 0 <= steps
    &&& !crowded(towers, walked(start, heading, steps))
    &&& forall|k: int| 0 <= k < steps ==> crowded(towers, #[trigger] walked(start, heading, k))
}

/// Number of steps after which the walk from `start` first reaches a spot
/// that no tower crowds.
pub open spec fn free_steps(towers: Seq<Tower>, start: Point, heading: Heading) -> int {
    choose|steps: int| first_free(towers, start, heading, steps)
}

/// The first spot on the walk from `start` that no tower crowds.
pub open spec fn free_spot(towers: Seq<Tower>, start: Point, heading: Heading) -> Point {
    walked(start, heading, free_steps(towers, start, heading))
}

/// The walk reaches its first free spot after one number of steps only.
pub proof fn lemma_first_free_unique(
    towers: Seq<Tower>,
    start: Point,
    heading: Heading,
    a: int,
    b: int,
)
    requires
        first_free(towers, start, heading, a),
        first_free(towers, start, heading, b),
    ensures
        a == b,
{
    if a < b {
        assert(crowded(towers, walked(start, heading, a)));
    } else if b < a {
        assert(crowded(towers, walked(start, heading, b)));
    }
}

/// Whether every tower stands in the world.
pub open spec fn towers_in_world(towers: Seq<Tower>) -> bool {
    forall|i: int| 0 <= i < towers.len() ==> (#[trigger] towers[i]).position.in_world()
}

proof fn lemma_crowded_is_near(towers: Seq<Tower>, spot: Point)
    requires
        towers_in_world(towers),
        crowded(towers, spot),
    ensures
        spot.within_world(TOWER_SEPARATION as int),
{
    let i = choose|i: int|
        0 <= i < towers.len() && dist2((#[trigger] towers[i]).position, spot) <= TOWER_SEPARATION
            * TOWER_SEPARATION;
    let t = towers[i].position;
    assert(t.in_world());
    let dx = t.x - spot.x;
    let dy = t.y - spot.y;
    let dz = t.z - spot.z;
    assert(-700_000 <= dx <= 700_000 && -700_000 <= dy <= 700_000 && -700_000 <= dz <= 700_000)
        by (nonlinear_arith)
        requires
            dx * dx + dy * dy + dz * dz <= 700_000 * 700_000,
    ;
}

/// Distance along the first axis from `spot` to the edge that lies in the
/// direction of `heading`.
pub open spec fn room_to_walk(spot: Point, heading: Heading) -> int {
    if heading.x == 1 {
        WORLD_EDGE - spot.x
    } else {
        spot.x + WORLD_EDGE
    }
}

/// Walks from `start` along `heading`, one step at a time, to the first spot
/// that no tower crowds.
pub fn find_free_spot(towers: &Vec<Tower>, start: Point, heading: Heading) -> (spot: Point)
    requires
        towers_in_world(towers@),
        heading.wf(),
    ensures
        first_free(towers@, start, heading, free_steps(towers@, start, heading)),
        spot == free_spot(towers@, start, heading),
        !crowded(towers@, spot),
{
    let mut spot = start;
    let ghost mut steps: int = 0;
    proof {
        lemma_walk_step(0, heading.x * PLACEMENT_STEP);
        lemma_walk_step(0, heading.z * PLACEMENT_STEP);
    }
    let mut busy = is_crowded(towers, spot);
    while busy
        invariant
            towers_in_world(towers@),
            heading.wf(),
            0 <= steps,
            busy == crowded(towers@, spot),
            spot.x == start.x + steps * (heading.x * PLACEMENT_STEP),
            spot.z == start.z + steps * (heading.z * PLACEMENT_STEP),
            spot.y == start.y,
            spot == walked(start, heading, steps),
            forall|k: int| 0 <= k < steps ==> crowded(towers@, #[trigger] walked(start, heading, k)),
        decreases room_to_walk(spot, heading),
    {
        proof {
            lemma_crowded_is_near(towers@, spot);
            lemma_walk_step(steps, heading.x * PLACEMENT_STEP);
            lemma_walk_step(steps, heading.z * PLACEMENT_STEP);
            assert(heading.x * PLACEMENT_STEP == if heading.x == 1 {
                10_000int
            } else {
                -10_000int
            });
            assert(heading.z * PLACEMENT_STEP == if heading.z == 1 {
                10_000int
            } else {
                -10_000int
            });
        }
        spot = Point {
            x: spot.x + heading.x * PLACEMENT_STEP,
            y: spot.y,
            z: spot.z + heading.z * PLACEMENT_STEP,
        };
        proof {
            steps = steps + 1;
        }
        busy = is_crowded(towers, spot);
    }
    assert(first_free(towers@, start, heading, steps));
    proof {
        lemma_first_free_unique(
            towers@,
            start,
            heading,
            steps,
            free_steps(towers@, start, heading),
        );
    }
    spot
}

/// The run time after a frame of `delta` microseconds; it stops at
/// `u64::MAX`.
pub open spec fn clock_after(time: TimeSinceGameStart, delta: u64) -> TimeSinceGameStart {
    if time.0 + delta > u64::MAX {
        TimeSinceGameStart(u64::MAX)
    } else {
        TimeSinceGameStart((time.0 + delta) as u64)
    }
}

/// Whether a click may place a tower: no change of round is pending, the
/// round, whose run time is `time`, is past its grace period, the pause since
/// the last placement is over, and the budget is not used up.
pub open spec fn placement_allowed(
    change_pending: bool,
    time: TimeSinceGameStart,
    last_placement: u64,
    now: u64,
    score: Score,
    placed: PlacedTowers,
) -> bool {
    &&& !change_pending
    &&& time.0 >= GRACE_PERIOD
    &&& last_placement + PLACEMENT_PAUSE <= now
    &&& available_towers(score.0 as nat, placed.0 as nat) > 0
}

/// Where the search for a free spot starts: the pointer's place on the
/// ground, at tower height.
pub open spec fn placement_start(mouse: MousePos) -> Point {
    Point { x: mouse.0.x, y: TOWER_HEIGHT, z: mouse.0.z }
}

/// A fresh tower at `position`.
pub open spec fn fresh_tower(position: Point) -> Tower {
    Tower {
        position,
        level: TowerLevel(1),
        progress: TowerProgress(0),
        timer: Timer { elapsed: 0, duration: STARTING_COOLDOWN, finished: false },
    }
}

/// The tower that a frame places, if it places one. `time` is the run time
/// after the frame. A tower is placed where the left button was clicked,
/// placement is allowed and the free spot found lies in the world.
pub open spec fn placement(
    towers: Seq<Tower>,
    placed: PlacedTowers,
    time: TimeSinceGameStart,
    last_placement: u64,
    mouse: MousePos,
    left_clicked: bool,
    change_pending: bool,
    score: Score,
    now: u64,
    sample: u32,
) -> Option<Tower> {
    let spot = free_spot(towers, placement_start(mouse), heading_of(sample));
    if left_clicked && placement_allowed(change_pending, time, last_placement, now, score, placed)
        && spot.in_world() {
        Some(fresh_tower(spot))
    } else {
        None
    }
}

/// Advances the round's clock by `delta` and, on a left click, places a
/// tower where the rules allow one.
///
/// `now` is the time on a clock that runs across rounds, `last_placement`
/// the time of the last placement on that clock. The new tower stands on the
/// first free spot of the walk that starts at the pointer and goes along the
/// diagonal that `sample` selects. Where no tower is placed, nothing but the
/// clock changes.
pub fn spawn_tower(
    towers: &mut Vec<Tower>,
    placed: &mut PlacedTowers,
    time_since_game_start: &mut TimeSinceGameStart,
    last_placement: &mut u64,
    mouse: MousePos,
    left_clicked: bool,
    change_pending: bool,
    score: Score,
    delta: u64,
    now: u64,
    sample: u32,
) -> (built: Option<Tower>)
    requires
        towers_in_world(old(towers)@),
    ensures
        *final(time_since_game_start) == clock_after(*old(time_since_game_start), delta),
        built == placement(
            old(towers)@,
            *old(placed),
            *final(time_since_game_start),
            *old(last_placement),
            mouse,
            left_clicked,
            change_pending,
            score,
            now,
            sample,
        ),
        match built {
            Some(tower) => {
                &&& !crowded(old(towers)@, tower.position)
                &&& final(towers)@ == old(towers)@.push(tower)
                &&& final(placed).0 == old(placed).0 + 1
                &&& *final(last_placement) == now
            },
            None => {
                &&& final(towers)@ == old(towers)@
                &&& *final(placed) == *old(placed)
                &&& *final(last_placement) == *old(last_placement)
            },
        },
        towers_in_world(final(towers)@),
{
    let run_time: u64 = if time_since_game_start.0 > u64::MAX - delta {
        u64::MAX
    } else {
        time_since_game_start.0 + delta
    };
    *time_since_game_start = TimeSinceGameStart(run_time);
    let start = Point { x: mouse.0.x, y: TOWER_HEIGHT, z: mouse.0.z };
    let heading = pick_heading(sample);
    let pause_over = *last_placement <= u64::MAX - PLACEMENT_PAUSE && *last_placement
        + PLACEMENT_PAUSE <= now;
    if !left_clicked || change_pending || run_time < GRACE_PERIOD || !pause_over
        || calculate_available_towers(score, *placed) == 0 {
        return None;
    }
    let spot = find_free_spot(towers, start, heading);
    if !spot.is_in_world() {
        return None;
    }
    let tower = Tower::new(spot);
    towers.push(tower);
    placed.0 = placed.0 + 1;
    *last_placement = now;
    Some(tower)
}

} // verus!
