//! The whole game: its state, and one frame of it.

use vstd::prelude::*;
use crate::bullet::{
    attack_radius_spec, barrage, bullet_damage_spec, bullets_in_range, cooled, destroy_enemy,
    flown, fly_to_enemy, herd_in_world, lemma_struck_keeps_herd, lemma_volley, spawn_bullet,
    struck, unspent, volley, Bullet,
};
use crate::economy::{
    gold_after_round, upgrade_radius, upgrade_radius_spec, Gold, PlacedTowers, PlayerUpgrades,
    Score,
};
use crate::enemy::{
    death_places, herd_after_spawn, id_after_spawn, if_health_below_zero_then_die,
    draw_roll, draw_sample, move_enemy_to_mouse, pursuit, rolled_enemy, score_after,
    spawn_rolled, spawns, survivors, Enemy, SpawnRoll,
};
use crate::geometry::Point;
use crate::mouse::{kill_player, player_caught, MousePos};
use crate::round::{
    change_game_state, despawn_if_game_changed, on_die, on_game_end, GameState, GameStateChange,
};
use crate::tower::{
    channel_of, clock_after, placement, retimed_towers, set_levelled_durations, spawn_tower,
    tower_progress_increase, towers_in_world, towers_wf, Channel, TimeSinceGameStart, Tower,
};

verus! {

/// Everything that the game holds between two frames.
#[derive(Clone, Debug)]
pub struct Game {
    pub state: GameState,
    pub gold: Gold,
    pub upgrades: PlayerUpgrades,
    pub score: Score,
    pub placed: PlacedTowers,
    pub time: TimeSinceGameStart,
    /// Time of the last placement, on the clock that runs across rounds.
    pub last_placement: u64,
    pub mouse: MousePos,
    pub enemies: Vec<Enemy>,
    pub towers: Vec<Tower>,
    pub bullets: Vec<Bullet>,
    /// The id that the next hostile gets.
    pub next_id: u64,
    /// The changes of state that were asked for and are not yet carried out,
    /// oldest first.
    pub changes: Vec<GameStateChange>,
}

/// The game as a value of sequences.
pub struct GameView {
    pub state: GameState,
    pub gold: Gold,
    pub upgrades: PlayerUpgrades,
    pub score: Score,
    pub placed: PlacedTowers,
    pub time: TimeSinceGameStart,
    pub last_placement: u64,
    pub mouse: MousePos,
    pub enemies: Seq<Enemy>,
    pub towers: Seq<Tower>,
    pub bullets: Seq<Bullet>,
    pub next_id: u64,
    pub changes: Seq<GameStateChange>,
}

impl View for Game {
    type V = GameView;

    open spec fn view(&self) -> GameView {
        GameView {
            state: self.state,
            gold: self.gold,
            upgrades: self.upgrades,
            score: self.score,
            placed: self.placed,
            time: self.time,
            last_placement: self.last_placement,
            mouse: self.mouse,
            enemies: self.enemies@,
            towers: self.towers@,
            bullets: self.bullets@,
            next_id: self.next_id,
            changes: self.changes@,
        }
    }
}

/// Whether the ids of the herd rise along it and stay below `next_id`, so
/// that no two hostiles share an id and none has an id that is yet to come.
pub open spec fn ids_ordered(enemies: Seq<Enemy>, next_id: u64) -> bool {
    &&& forall|i: int, j: int|
        0 <= i < j < enemies.len() ==> (#[trigger] enemies[i]).id < (#[trigger] enemies[j]).id
    &&& forall|i: int| 0 <= i < enemies.len() ==> (#[trigger] enemies[i]).id < next_id
}

/// What one frame is given from outside.
#[derive(Clone, Copy, PartialEq, Eq, Structural, Debug)]
pub struct FrameInput {
    /// Microseconds since the last frame.
    pub delta: u64,
    /// Microseconds on the clock that runs across rounds.
    pub now: u64,
    /// Whether the left button was clicked since the last frame.
    pub left_clicked: bool,
    /// The samples for the attempt to spawn a hostile.
    pub roll: SpawnRoll,
    /// The sample that selects the diagonal of the search for a free spot.
    pub placement_sample: u32,
    /// Logarithm to base 1.1 of the level of the upgrade-radius upgrade, in
    /// fixed point.
    pub upgrade_radius_log: u64,
    /// Logarithm to base 1.5 of the level of the conversion upgrade, in fixed
    /// point.
    pub conversion_log: u64,
}

impl GameView {
    /// Whether the game is in a state that a frame can start from.
    pub open spec fn wf(self) -> bool {
        &&& self.upgrades.wf()
        &&& herd_in_world(self.enemies)
        &&& ids_ordered(self.enemies, self.next_id)
        &&& towers_in_world(self.towers)
        &&& towers_wf(self.towers)
        &&& bullets_in_range(self.bullets)
    }

    /// The game with every hostile, tower and bullet removed.
    pub open spec fn cleared(self) -> GameView {
        GameView { enemies: Seq::empty(), towers: Seq::empty(), bullets: Seq::empty(), ..self }
    }

    /// The game after one change of state was carried out.
    ///
    /// A request for the state that the game is in already does nothing. The
    /// end of a round removes every hostile, tower and bullet, pays the score
    /// out in gold and sets score and placed towers to zero. The start of a
    /// round removes them too and sets the clock of the round to zero. The
    /// levels of the upgrades stay as they are.
    pub open spec fn settled(self, change: GameStateChange, conversion_log: u64) -> GameView {
        if !self.state.changes_on(change) {
            self
        } else {
            match change {
                GameStateChange::Staging => GameView {
                    state: GameState::Staging,
                    gold: gold_after_round(self.gold, self.score, conversion_log),
                    score: Score(0),
                    placed: PlacedTowers(0),
                    ..self.cleared()
                },
                GameStateChange::MainGame => GameView {
                    state: GameState::InGame,
                    time: TimeSinceGameStart(0),
                    ..self.cleared()
                },
            }
        }
    }

    /// The game after the first `count` changes of `changes` were carried out
    /// in their order.
    pub open spec fn settled_all(
        self,
        changes: Seq<GameStateChange>,
        count: int,
        conversion_log: u64,
    ) -> GameView
        decreases count,
    {
        if count <= 0 {
            self
        } else {
            self.settled_all(changes, count - 1, conversion_log).settled(
                changes[count - 1],
                conversion_log,
            )
        }
    }

    /// The game after every change that was asked for was carried out, with
    /// none left.
    pub open spec fn drained(self, conversion_log: u64) -> GameView {
        GameView {
            changes: Seq::empty(),
            ..self.settled_all(self.changes, self.changes.len() as int, conversion_log)
        }
    }
}

/// Carrying out a change keeps the game fit for a frame.
pub proof fn lemma_settled_wf(g: GameView, change: GameStateChange, conversion_log: u64)
    requires
        g.wf(),
    ensures
        g.settled(change, conversion_log).wf(),
        g.settled(change, conversion_log).changes == g.changes,
        g.settled(change, conversion_log).upgrades == g.upgrades,
        g.settled(change, conversion_log).next_id == g.next_id,
        g.settled(change, conversion_log).mouse == g.mouse,
        g.settled(change, conversion_log).last_placement == g.last_placement,
{
}

impl Game {
    /// The game before the first round: between rounds, without gold, every
    /// upgrade at level one, nothing in the world.
    pub fn new() -> (game: Game)
        ensures
            game@.wf(),
            game@.state == GameState::Staging,
            game@.gold == Gold(0),
            game@.score == Score(0),
            game@.placed == PlacedTowers(0),
            game@.time == TimeSinceGameStart(0),
            game@.last_placement == 0,
            game@.next_id == 0,
            game@.enemies.len() == 0 && game@.towers.len() == 0 && game@.bullets.len() == 0,
            game@.changes.len() == 0,
            game@.mouse == MousePos(Point { x: 0, y: 0, z: 0 }),
            forall|which: crate::economy::Upgrade| game@.upgrades.level_of(which) == 1,
    {
        Game {
            state: GameState::Staging,
            gold: Gold(0),
            upgrades: PlayerUpgrades::new(),
            score: Score(0),
            placed: PlacedTowers(0),
            time: TimeSinceGameStart(0),
            last_placement: 0,
            mouse: MousePos(Point::new(0, 0, 0)),
            enemies: Vec::new(),
            towers: Vec::new(),
            bullets: Vec::new(),
            next_id: 0,
            changes: Vec::new(),
        }
    }

    /// Asks for a change of state. It is carried out when the changes are
    /// next drained.
    pub fn request_change(&mut self, change: GameStateChange)
        ensures
            final(self)@ == (GameView { changes: old(self)@.changes.push(change), ..old(self)@ }),
    {
        self.changes.push(change);
    }

    /// Carries out one change of state.
    pub fn settle(&mut self, change: GameStateChange, conversion_log: u64)
        requires
            old(self)@.wf(),
        ensures
            final(self)@ == old(self)@.settled(change, conversion_log),
            final(self)@.wf(),
    {
        let state = self.state;
        on_die(
            change,
            state,
            &mut self.enemies,
            &mut self.score,
            &mut self.placed,
            &mut self.gold,
            conversion_log,
        );
        on_game_end(change, state, &mut self.towers, &mut self.time);
        despawn_if_game_changed(change, state, &mut self.bullets);
        if state.is_changed_by(change) {
            change_game_state(&mut self.state, change);
        }
        proof {
            lemma_settled_wf(old(self)@, change, conversion_log);
            assert(self@.enemies =~= old(self)@.settled(change, conversion_log).enemies);
            assert(self@.towers =~= old(self)@.settled(change, conversion_log).towers);
            assert(self@.bullets =~= old(self)@.settled(change, conversion_log).bullets);
        }
    }

    /// Carries out every change that was asked for, oldest first, and leaves
    /// none.
    pub fn drain_changes(&mut self, conversion_log: u64)
        requires
            old(self)@.wf(),
        ensures
            final(self)@ == old(self)@.drained(conversion_log),
            final(self)@.wf(),
    {
        let ghost start = self@;
        let mut i: usize = 0;
        while i < self.changes.len()
            invariant
                i <= self.changes.len(),
                start.wf(),
                self@.wf(),
                self@.changes == start.changes,
                self@ == start.settled_all(start.changes, i as int, conversion_log),
            decreases self.changes.len() - i,
        {
            let change = self.changes[i];
            proof {
                lemma_settled_wf(self@, change, conversion_log);
            }
            self.settle(change, conversion_log);
            i += 1;
        }
        self.changes.clear();
    }
}

/// What one frame tells the outside.
#[derive(Clone, Debug)]
pub struct FrameReport {
    /// Whether a hostile appeared.
    pub spawned: bool,
    /// The push on each hostile toward the pointer, in the herd's order after
    /// the attempt to spawn.
    pub pushes: Vec<Point>,
    /// Bullets fired, one shot sound for each.
    pub shots: usize,
    /// Where hostiles died, one death sound for each.
    pub deaths: Vec<Point>,
    /// What the pointer did to each tower that stood before the frame's
    /// placement.
    pub channels: Vec<Channel>,
    /// The tower that was placed, if one was.
    pub built: Option<Tower>,
    /// Whether a hostile reached the pointer.
    pub caught: bool,
}

impl GameView {
    /// The reach of the towers at the level of the attack-radius upgrade.
    pub open spec fn reach(self) -> u64 {
        attack_radius_spec(self.upgrades.attack_radius) as u64
    }

    /// The damage of a bullet at the level of the damage upgrade.
    pub open spec fn damage(self) -> u64 {
        bullet_damage_spec(self.upgrades.damage) as u64
    }

    /// The game after the attempt to spawn a hostile.
    pub open spec fn after_spawn(self, roll: SpawnRoll) -> GameView {
        GameView {
            enemies: herd_after_spawn(self.enemies, self.next_id, self.time, roll),
            next_id: id_after_spawn(self.next_id, self.time, roll),
            ..self
        }
    }

    /// The bullets that the towers fire in a frame of `delta` microseconds.
    pub open spec fn volleys(self, delta: u64) -> Seq<Bullet> {
        barrage(self.towers, self.enemies, delta, self.reach(), self.damage())
    }

    /// The bullets after the towers have fired and every bullet has flown.
    pub open spec fn bullets_flown(self, delta: u64) -> Seq<Bullet> {
        flown(self.bullets + self.volleys(delta), self.enemies)
    }

    /// The herd after the bullets that arrived have done their damage.
    pub open spec fn herd_struck(self, delta: u64) -> Seq<Enemy> {
        struck(self.enemies, self.bullets_flown(delta))
    }

    /// The game after the towers have fired, the bullets have flown and
    /// struck, and the dead hostiles have been removed and counted.
    pub open spec fn after_combat(self, delta: u64) -> GameView {
        GameView {
            towers: cooled(self.towers, delta),
            bullets: unspent(self.bullets_flown(delta), self.enemies),
            enemies: survivors(self.herd_struck(delta)),
            score: score_after(self.score, death_places(self.herd_struck(delta)).len()),
            ..self
        }
    }

    /// The game after the pointer has made the towers in its reach grow.
    pub open spec fn after_progress(self, upgrade_radius_log: u64) -> GameView {
        GameView {
            towers: Seq::new(
                self.towers.len(),
                |i: int|
                    self.towers[i].progressed(
                        self.mouse,
                        upgrade_radius_spec(upgrade_radius_log) as u64,
                    ),
            ),
            ..self
        }
    }

    /// The tower that the frame places, if it places one.
    pub open spec fn tower_built(self, input: FrameInput) -> Option<Tower> {
        placement(
            self.towers,
            self.placed,
            clock_after(self.time, input.delta),
            self.last_placement,
            self.mouse,
            input.left_clicked,
            self.changes.len() > 0,
            self.score,
            input.now,
            input.placement_sample,
        )
    }

    /// The game after the clock of the round has advanced and a click has
    /// placed a tower where the rules allow one.
    pub open spec fn after_placement(self, input: FrameInput) -> GameView {
        match self.tower_built(input) {
            Some(tower) => GameView {
                time: clock_after(self.time, input.delta),
                towers: self.towers.push(tower),
                placed: PlacedTowers((self.placed.0 + 1) as u32),
                last_placement: input.now,
                ..self
            },
            None => GameView { time: clock_after(self.time, input.delta), ..self },
        }
    }

    /// The game after the test for a hostile at the pointer: where one has
    /// reached it, the end of the round is asked for.
    pub open spec fn after_loss_check(self) -> GameView {
        if player_caught(self.enemies, self.mouse) {
            GameView { changes: self.changes.push(GameStateChange::Staging), ..self }
        } else {
            self
        }
    }

    /// The game after the frame's work inside a round, in its order:
    /// spawning, combat, growth, placement, and the test for the loss.
    pub open spec fn played(self, input: FrameInput) -> GameView {
        self.after_spawn(input.roll).after_combat(input.delta).after_progress(
            input.upgrade_radius_log,
        ).after_placement(input).after_loss_check()
    }

    /// Whether `report` is what a frame on `input` tells of this game. Inside
    /// a round it tells what each stage did to the game as the stage found
    /// it; between rounds it is empty.
    pub open spec fn reports(self, input: FrameInput, report: FrameReport) -> bool {
        if self.state == GameState::InGame {
            let spawned = self.after_spawn(input.roll);
            let fought = spawned.after_combat(input.delta);
            let grown = fought.after_progress(input.upgrade_radius_log);
            let placed = grown.after_placement(input);
            &&& report.spawned == spawns(input.roll, self.time, self.next_id)
            &&& report.pushes@ == pursuit(spawned.enemies, spawned.mouse)
            &&& report.shots == spawned.volleys(input.delta).len()
            &&& report.deaths@ == death_places(spawned.herd_struck(input.delta))
            &&& report.channels@ == Seq::new(
                fought.towers.len(),
                |i: int|
                    channel_of(
                        fought.towers[i],
                        fought.mouse,
                        upgrade_radius_spec(input.upgrade_radius_log) as u64,
                    ),
            )
            &&& report.built == grown.tower_built(input)
            &&& report.caught == player_caught(placed.enemies, placed.mouse)
        } else {
            &&& !report.spawned
            &&& report.pushes@.len() == 0
            &&& report.shots == 0
            &&& report.deaths@.len() == 0
            &&& report.channels@.len() == 0
            &&& report.built.is_none()
            &&& !report.caught
        }
    }

    /// The game after one frame: inside a round the frame's work is done,
    /// and in either state the changes asked for are then carried out.
    pub open spec fn framed(self, input: FrameInput) -> GameView {
        if self.state == GameState::InGame {
            self.played(input).drained(input.conversion_log)
        } else {
            self.drained(input.conversion_log)
        }
    }
}

proof fn lemma_barrage_in_range(
    towers: Seq<Tower>,
    enemies: Seq<Enemy>,
    delta: u64,
    radius: u64,
    damage: u64,
)
    requires
        towers_in_world(towers),
    ensures
        bullets_in_range(barrage(towers, enemies, delta, radius, damage)),
    decreases towers.len(),
{
    if towers.len() > 0 {
        let front = towers.drop_last();
        assert(forall|i: int| 0 <= i < front.len() ==> front[i] == towers[i]);
        lemma_barrage_in_range(front, enemies, delta, radius, damage);
        lemma_volley(towers.last().position, enemies, radius, damage);
        assert(towers[towers.len() - 1].position.in_world());
    }
}

proof fn lemma_unspent_in_range(bullets: Seq<Bullet>, enemies: Seq<Enemy>)
    requires
        bullets_in_range(bullets),
    ensures
        bullets_in_range(unspent(bullets, enemies)),
    decreases bullets.len(),
{
    if bullets.len() > 0 {
        let front = bullets.drop_last();
        assert(forall|i: int| 0 <= i < front.len() ==> front[i] == bullets[i]);
        lemma_unspent_in_range(front, enemies);
        assert(bullets[bullets.len() - 1].position.within_world(
            crate::bullet::BULLET_STEP as int,
        ));
    }
}

proof fn lemma_survivors_ordered(enemies: Seq<Enemy>, next_id: u64)
    requires
        herd_in_world(enemies),
        ids_ordered(enemies, next_id),
    ensures
        herd_in_world(survivors(enemies)),
        ids_ordered(survivors(enemies), next_id),
        forall|k: int|
            0 <= k < survivors(enemies).len() ==> exists|i: int|
                0 <= i < enemies.len() && enemies[i] == #[trigger] survivors(enemies)[k],
    decreases enemies.len(),
{
    if enemies.len() > 0 {
        let front = enemies.drop_last();
        let last = enemies.last();
        assert(forall|i: int| 0 <= i < front.len() ==> front[i] == enemies[i]);
        lemma_survivors_ordered(front, next_id);
        let kept = survivors(enemies);
        let before = survivors(front);
        assert forall|k: int| 0 <= k < kept.len() implies exists|i: int|
            0 <= i < enemies.len() && enemies[i] == #[trigger] kept[k] by {
            if k < before.len() {
                let i = choose|i: int| 0 <= i < front.len() && front[i] == before[k];
                assert(enemies[i] == kept[k]);
            } else {
                assert(enemies[enemies.len() - 1] == kept[k]);
            }
        }
        assert forall|a: int, b: int| 0 <= a < b < kept.len() implies (#[trigger] kept[a]).id < (
        #[trigger] kept[b]).id by {
            if b < before.len() {
                assert(before[a].id < before[b].id);
            } else {
                let i = choose|i: int| 0 <= i < front.len() && front[i] == before[a];
                assert(enemies[i].id < enemies[enemies.len() - 1].id);
            }
        }
        assert forall|k: int| 0 <= k < kept.len() implies (#[trigger] kept[k]).id < next_id
            && kept[k].position.in_world() by {
            let i = choose|i: int| 0 <= i < enemies.len() && enemies[i] == kept[k];
            assert(enemies[i].id < next_id);
            assert(enemies[i].position.in_world());
        }
    }
}

/// A frame of combat keeps the game fit for the next frame.
pub proof fn lemma_combat_wf(g: GameView, delta: u64)
    requires
        g.wf(),
    ensures
        g.after_combat(delta).wf(),
        bullets_in_range(g.bullets + g.volleys(delta)),
{
    lemma_barrage_in_range(g.towers, g.enemies, delta, g.reach(), g.damage());
    let fired = g.bullets + g.volleys(delta);
    assert(bullets_in_range(fired)) by {
        assert forall|i: int| 0 <= i < fired.len() implies (#[trigger] fired[i]).position.within_world(
            crate::bullet::BULLET_STEP as int,
        ) by {
            if i < g.bullets.len() {
                assert(fired[i] == g.bullets[i]);
            } else {
                assert(fired[i] == g.volleys(delta)[i - g.bullets.len()]);
            }
        }
    }
    lemma_flown_in_range(fired, g.enemies);
    lemma_unspent_in_range(g.bullets_flown(delta), g.enemies);
    lemma_struck_keeps_herd(g.enemies, g.bullets_flown(delta));
    let hit = g.herd_struck(delta);
    assert(herd_in_world(hit)) by {
        assert forall|i: int| 0 <= i < hit.len() implies (#[trigger] hit[i]).position.in_world() by {
            assert(g.enemies[i].position.in_world());
        }
    }
    assert(ids_ordered(hit, g.next_id)) by {
        assert forall|i: int, j: int| 0 <= i < j < hit.len() implies (#[trigger] hit[i]).id < (
        #[trigger] hit[j]).id by {
            assert(g.enemies[i].id < g.enemies[j].id);
        }
        assert forall|i: int| 0 <= i < hit.len() implies (#[trigger] hit[i]).id < g.next_id by {
            assert(g.enemies[i].id < g.next_id);
        }
    }
    lemma_survivors_ordered(hit, g.next_id);
    let after = cooled(g.towers, delta);
    assert(towers_in_world(after) && towers_wf(after)) by {
        assert forall|i: int| 0 <= i < after.len() implies (#[trigger] after[i]).position.in_world()
            && after[i].wf() by {
            assert(g.towers[i].position.in_world());
            assert(g.towers[i].wf());
        }
    }
}

proof fn lemma_flown_in_range(bullets: Seq<Bullet>, enemies: Seq<Enemy>)
    requires
        bullets_in_range(bullets),
        herd_in_world(enemies),
    ensures
        bullets_in_range(flown(bullets, enemies)),
    decreases bullets.len(),
{
    if bullets.len() > 0 {
        let front = bullets.drop_last();
        let b = bullets.last();
        assert(forall|i: int| 0 <= i < front.len() ==> front[i] == bullets[i]);
        lemma_flown_in_range(front, enemies);
        crate::enemy::lemma_find_enemy(enemies, b.target);
        match crate::enemy::find_enemy(enemies, b.target) {
            Some(i) => {
                assert(bullets[bullets.len() - 1].position.within_world(
                    crate::bullet::BULLET_STEP as int,
                ));
                assert(enemies[i].position.in_world());
                crate::geometry::lemma_step_stays_near(
                    b.position,
                    enemies[i].position,
                    crate::bullet::BULLET_STEP as int,
                );
            },
            None => {},
        }
    }
}

impl Game {
    /// Tries to spawn a hostile with the given roll.
    pub fn spawn_stage(&mut self, roll: SpawnRoll) -> (spawned: bool)
        requires
            old(self)@.wf(),
            roll.wf(),
        ensures
            final(self)@ == old(self)@.after_spawn(roll),
            final(self)@.wf(),
            spawned == spawns(roll, old(self)@.time, old(self)@.next_id),
    {
        let time = self.time;
        spawn_rolled(&mut self.enemies, &mut self.next_id, time, roll)
    }

    /// Lets the towers fire, the bullets fly and strike, and removes the
    /// dead. Returns the number of bullets fired and the places of the dead.
    pub fn combat_stage(&mut self, delta: u64) -> (outcome: (usize, Vec<Point>))
        requires
            old(self)@.wf(),
        ensures
            final(self)@ == old(self)@.after_combat(delta),
            final(self)@.wf(),
            outcome.0 == old(self)@.volleys(delta).len(),
            outcome.1@ == death_places(old(self)@.herd_struck(delta)),
    {
        proof {
            lemma_combat_wf(self@, delta);
        }
        let shots = spawn_bullet(
            &mut self.towers,
            &self.enemies,
            &mut self.bullets,
            delta,
            self.upgrades.attack_radius,
            self.upgrades.damage,
        );
        fly_to_enemy(&mut self.bullets, &self.enemies);
        destroy_enemy(&mut self.bullets, &mut self.enemies);
        let deaths = if_health_below_zero_then_die(&mut self.enemies, &mut self.score);
        (shots, deaths)
    }

    /// Lets the pointer make the towers in its reach grow.
    pub fn progress_stage(&mut self, upgrade_radius_log: u64) -> (channels: Vec<Channel>)
        requires
            old(self)@.wf(),
        ensures
            final(self)@ == old(self)@.after_progress(upgrade_radius_log),
            final(self)@.wf(),
            channels@ == Seq::new(
                old(self)@.towers.len(),
                |i: int|
                    channel_of(
                        old(self)@.towers[i],
                        old(self)@.mouse,
                        upgrade_radius_spec(upgrade_radius_log) as u64,
                    ),
            ),
    {
        let radius = upgrade_radius(upgrade_radius_log);
        let mouse = self.mouse;
        let channels = tower_progress_increase(&mut self.towers, mouse, radius);
        proof {
            let before = old(self)@.towers;
            let after = self@.towers;
            assert forall|i: int| 0 <= i < after.len() implies (#[trigger] after[i]).position.in_world() by {
                assert(before[i].position.in_world());
            }
        }
        channels
    }

    /// Advances the clock of the round and places a tower on a click where
    /// the rules allow one.
    pub fn placement_stage(&mut self, input: FrameInput) -> (built: Option<Tower>)
        requires
            old(self)@.wf(),
        ensures
            final(self)@ == old(self)@.after_placement(input),
            final(self)@.wf(),
            built == old(self)@.tower_built(input),
    {
        let pending = self.changes.len() > 0;
        let built = spawn_tower(
            &mut self.towers,
            &mut self.placed,
            &mut self.time,
            &mut self.last_placement,
            self.mouse,
            input.left_clicked,
            pending,
            self.score,
            input.delta,
            input.now,
            input.placement_sample,
        );
        proof {
            let before = old(self)@.towers;
            let after = self@.towers;
            assert forall|i: int| 0 <= i < after.len() implies (#[trigger] after[i]).wf() by {
                if i < before.len() {
                    assert(before[i].wf());
                }
            }
        }
        built
    }

    /// Asks for the end of the round where a hostile has reached the pointer.
    pub fn loss_stage(&mut self) -> (caught: bool)
        requires
            old(self)@.wf(),
        ensures
            final(self)@ == old(self)@.after_loss_check(),
            final(self)@.wf(),
            caught == player_caught(old(self)@.enemies, old(self)@.mouse),
    {
        let caught = kill_player(&self.enemies, self.mouse);
        if caught {
            self.changes.push(GameStateChange::Staging);
        }
        caught
    }

    /// Runs one frame. Inside a round the hostiles spawn and are steered,
    /// the towers fire, grow and are placed, and a hostile at the pointer
    /// ends the round; in either state the changes of state that were asked
    /// for are then carried out. Between rounds the report is empty.
    pub fn frame(&mut self, input: FrameInput) -> (report: FrameReport)
        requires
            old(self)@.wf(),
            input.roll.wf(),
        ensures
            final(self)@ == old(self)@.framed(input),
            final(self)@.wf(),
            old(self)@.reports(input, report),
    {
        let mut report = FrameReport {
            spawned: false,
            pushes: Vec::new(),
            shots: 0,
            deaths: Vec::new(),
            channels: Vec::new(),
            built: None,
            caught: false,
        };
        match self.state {
            GameState::InGame => {
                report.spawned = self.spawn_stage(input.roll);
                report.pushes = move_enemy_to_mouse(&self.enemies, self.mouse);
                let (shots, deaths) = self.combat_stage(input.delta);
                report.shots = shots;
                report.deaths = deaths;
                report.channels = self.progress_stage(input.upgrade_radius_log);
                report.built = self.placement_stage(input);
                report.caught = self.loss_stage();
            },
            GameState::Staging => {},
        }
        self.drain_changes(input.conversion_log);
        report
    }
}

impl Game {
    /// Draws the samples of a frame and runs it. The input that the frame ran
    /// on is returned with the report: it holds the arguments as they were
    /// given, and the samples that were drawn.
    pub fn play(
        &mut self,
        delta: u64,
        now: u64,
        left_clicked: bool,
        upgrade_radius_log: u64,
        conversion_log: u64,
    ) -> (outcome: (FrameInput, FrameReport))
        requires
            old(self)@.wf(),
        ensures
            outcome.0.roll.wf(),
            outcome.0.placement_sample <= crate::enemy::FULL_SAMPLE,
            outcome.0 == (FrameInput {
                delta,
                now,
                left_clicked,
                upgrade_radius_log,
                conversion_log,
                ..outcome.0
            }),
            final(self)@ == old(self)@.framed(outcome.0),
            final(self)@.wf(),
            old(self)@.reports(outcome.0, outcome.1),
    {
        let input = FrameInput {
            delta,
            now,
            left_clicked,
            roll: draw_roll(),
            placement_sample: draw_sample(),
            upgrade_radius_log,
            conversion_log,
        };
        let report = self.frame(input);
        (input, report)
    }

    /// Gives each tower that a frame's report names as levelled the cooldown
    /// of its new level. `level_logs` holds, for the tower at each index, the
    /// logarithm of its level to base 1.5 in fixed point.
    pub fn retime_towers(&mut self, channels: &Vec<Channel>, level_logs: &Vec<u64>)
        requires
            old(self)@.wf(),
        ensures
            final(self)@ == (GameView {
                towers: retimed_towers(old(self)@.towers, channels@, level_logs@),
                ..old(self)@
            }),
            final(self)@.wf(),
    {
        set_levelled_durations(&mut self.towers, channels, level_logs);
    }

    /// Tests whether the game is in a state that a frame can start from.
    pub fn is_fit(&self) -> (fit: bool)
        ensures
            fit == self@.wf(),
    {
        let levels = self.upgrades;
        if levels.upgrade_radius.0 < 1 || levels.attack_radius.0 < 1 || levels.damage.0 < 1
            || levels.gold_conversion_rate.0 < 1 {
            return false;
        }
        let mut i: usize = 0;
        while i < self.enemies.len()
            invariant
                i <= self.enemies.len(),
                herd_in_world(self.enemies@.take(i as int)),
                ids_ordered(self.enemies@.take(i as int), self.next_id),
            decreases self.enemies.len() - i,
        {
            let e = self.enemies[i];
            let rising = i == 0 || self.enemies[i - 1].id < e.id;
            if !e.position.is_in_world() || e.id >= self.next_id || !rising {
                return false;
            }
            proof {
                let before = self.enemies@.take(i as int);
                let now = self.enemies@.take(i + 1);
                assert(forall|k: int| 0 <= k < i ==> now[k] == before[k]);
                assert forall|a: int, b: int| 0 <= a < b < now.len() implies (#[trigger] now[a]).id
                    < (#[trigger] now[b]).id by {
                    if b < i {
                        assert(before[a].id < before[b].id);
                    } else if a < i - 1 {
                        assert(before[a].id < before[i - 1].id);
                    }
                }
            }
            i += 1;
        }
        assert(self.enemies@.take(i as int) =~= self.enemies@);
        let mut j: usize = 0;
        while j < self.towers.len()
            invariant
                j <= self.towers.len(),
                towers_in_world(self.towers@.take(j as int)),
                towers_wf(self.towers@.take(j as int)),
            decreases self.towers.len() - j,
        {
            let t = self.towers[j];
            if !t.position.is_in_world() || t.progress.0 >= 20 * (t.level.0 as u64 + 5) {
                return false;
            }
            proof {
                let before = self.towers@.take(j as int);
                let now = self.towers@.take(j + 1);
                assert(forall|k: int| 0 <= k < j ==> now[k] == before[k]);
            }
            j += 1;
        }
        assert(self.towers@.take(j as int) =~= self.towers@);
        let mut k: usize = 0;
        while k < self.bullets.len()
            invariant
                k <= self.bullets.len(),
                bullets_in_range(self.bullets@.take(k as int)),
            decreases self.bullets.len() - k,
        {
            let p = self.bullets[k].position;
            let edge: i32 = 2_000_100_000;
            if p.x < -edge || p.x > edge || p.y < -edge || p.y > edge || p.z < -edge || p.z
                > edge {
                return false;
            }
            proof {
                let before = self.bullets@.take(k as int);
                let now = self.bullets@.take(k + 1);
                assert(forall|n: int| 0 <= n < k ==> now[n] == before[n]);
            }
            k += 1;
        }
        assert(self.bullets@.take(k as int) =~= self.bullets@);
        true
    }
}

/// The start of a round leaves a game between rounds with a clock at zero
/// and a world without hostiles, towers or bullets; gold, score and the
/// levels of the upgrades stay.
pub proof fn lemma_round_starts_clean(g: GameView, conversion_log: u64)
    requires
        g.state == GameState::Staging,
    ensures
        g.settled(GameStateChange::MainGame, conversion_log) == (GameView {
            state: GameState::InGame,
            time: TimeSinceGameStart(0),
            enemies: Seq::empty(),
            towers: Seq::empty(),
            bullets: Seq::empty(),
            ..g
        }),
{
}

/// The end of a round leaves a world without hostiles, towers or bullets,
/// adds the worth of the score to the gold and sets score and placed towers
/// to zero; the levels of the upgrades stay.
pub proof fn lemma_round_ends_paid(g: GameView, conversion_log: u64)
    requires
        g.state == GameState::InGame,
    ensures
        g.settled(GameStateChange::Staging, conversion_log) == (GameView {
            state: GameState::Staging,
            gold: gold_after_round(g.gold, g.score, conversion_log),
            score: Score(0),
            placed: PlacedTowers(0),
            enemies: Seq::empty(),
            towers: Seq::empty(),
            bullets: Seq::empty(),
            ..g
        }),
{
}

/// A change that is asked for twice is carried out once: the second request
/// finds the game in the state it asks for and does nothing.
pub proof fn lemma_second_request_is_idle(g: GameView, change: GameStateChange, conversion_log: u64)
    ensures
        g.settled(change, conversion_log).settled(change, conversion_log) == g.settled(
            change,
            conversion_log,
        ),
{
}

proof fn lemma_settled_all_keeps_upgrades(
    g: GameView,
    changes: Seq<GameStateChange>,
    count: int,
    conversion_log: u64,
)
    ensures
        g.settled_all(changes, count, conversion_log).upgrades == g.upgrades,
    decreases count,
{
    if count > 0 {
        lemma_settled_all_keeps_upgrades(g, changes, count - 1, conversion_log);
    }
}

/// No frame changes the level of an upgrade.
pub proof fn lemma_frame_keeps_upgrades(g: GameView, input: FrameInput)
    ensures
        g.framed(input).upgrades == g.upgrades,
{
    let played = g.played(input);
    lemma_settled_all_keeps_upgrades(
        played,
        played.changes,
        played.changes.len() as int,
        input.conversion_log,
    );
    lemma_settled_all_keeps_upgrades(g, g.changes, g.changes.len() as int, input.conversion_log);
}

/// In a herd whose ids are in order, an id names one hostile: looking up
/// the id of the hostile at an index gives that index.
pub proof fn lemma_id_names_one_hostile(enemies: Seq<Enemy>, next_id: u64, i: int)
    requires
        ids_ordered(enemies, next_id),
        0 <= i < enemies.len(),
    ensures
        crate::enemy::find_enemy(enemies, enemies[i].id) == Some(i),
{
    crate::enemy::lemma_find_enemy(enemies, enemies[i].id);
    let found = crate::enemy::find_enemy(enemies, enemies[i].id);
    if found.is_some() {
        let k = found.unwrap();
        if k < i {
            assert(enemies[k].id < enemies[i].id);
        }
    }
}

proof fn lemma_settled_all_herd(
    g: GameView,
    changes: Seq<GameStateChange>,
    count: int,
    conversion_log: u64,
)
    ensures
        g.settled_all(changes, count, conversion_log).enemies == g.enemies || g.settled_all(
            changes,
            count,
            conversion_log,
        ).enemies == Seq::<Enemy>::empty(),
    decreases count,
{
    if count > 0 {
        lemma_settled_all_herd(g, changes, count - 1, conversion_log);
    }
}

/// After a frame of a round no dead hostile is left in the herd.
pub proof fn lemma_frame_leaves_the_living(g: GameView, input: FrameInput)
    requires
        g.state == GameState::InGame,
    ensures
        forall|i: int|
            0 <= i < g.framed(input).enemies.len() ==> (#[trigger] g.framed(
                input,
            ).enemies[i]).health.alive(),
{
    let spawned = g.after_spawn(input.roll);
    crate::enemy::lemma_survivors(spawned.herd_struck(input.delta));
    let played = g.played(input);
    assert(played.enemies == survivors(spawned.herd_struck(input.delta)));
    lemma_settled_all_herd(
        played,
        played.changes,
        played.changes.len() as int,
        input.conversion_log,
    );
}

/// A frame places a tower only while the budget is not used up: fewer
/// towers are placed than the score allows.
pub proof fn lemma_placement_within_budget(g: GameView, input: FrameInput)
    requires
        g.tower_built(input).is_some(),
    ensures
        g.placed.0 < crate::economy::tower_allowance(g.score.0 as nat),
        g.after_placement(input).placed.0 <= crate::economy::tower_allowance(g.score.0 as nat),
        input.left_clicked,
        g.changes.len() == 0,
{
}

proof fn lemma_settled_all_state(
    g: GameView,
    changes: Seq<GameStateChange>,
    count: int,
    conversion_log: u64,
)
    requires
        1 <= count <= changes.len(),
    ensures
        g.settled_all(changes, count, conversion_log).state == g.state.after(changes[count - 1]),
    decreases count,
{
    if count > 1 {
        lemma_settled_all_state(g, changes, count - 1, conversion_log);
    }
}

/// Where changes were asked for, the game ends in the state that the last of
/// them asks for.
pub proof fn lemma_last_request_wins(g: GameView, conversion_log: u64)
    requires
        g.changes.len() > 0,
    ensures
        g.drained(conversion_log).state == g.state.after(g.changes.last()),
{
    lemma_settled_all_state(g, g.changes, g.changes.len() as int, conversion_log);
}

} // verus!
