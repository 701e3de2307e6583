//! The two states of the game and what a change between them does.

use vstd::prelude::*;
use crate::bullet::Bullet;
use crate::economy::{
    affordable, can_afford, calculate_cost_to_upgrade, convert_score, gold_after_round,
    lemma_floor_log2_u32, lemma_price_of_high_levels, upgrade_cost, Gold, PlacedTowers,
    PlayerUpgrades, Score, Upgrade, GOLD_UNIT,
};
use crate::enemy::Enemy;
use crate::tower::{TimeSinceGameStart, Tower};

verus! {

/// The state of the game: between rounds, or in a round.
#[derive(Clone, Copy, PartialEq, Eq, Structural, Debug)]
pub enum GameState {
    Staging,
    InGame,
}

/// A request to change the state: to end the round, or to start one.
#[derive(Clone, Copy, PartialEq, Eq, Structural, Debug)]
pub enum GameStateChange {
    Staging,
    MainGame,
}

impl GameState {
    /// Whether `change` leads out of this state. A request for the state that
    /// the game is in already does nothing.
    pub open spec fn changes_on(self, change: GameStateChange) -> bool {
        match (self, change) {
            (GameState::InGame, GameStateChange::Staging) => true,
            (GameState::Staging, GameStateChange::MainGame) => true,
            _ => false,
        }
    }

    /// The state after `change`.
    pub open spec fn after(self, change: GameStateChange) -> GameState {
        match change {
            GameStateChange::Staging => GameState::Staging,
            GameStateChange::MainGame => GameState::InGame,
        }
    }

    /// Tests `changes_on`.
    pub fn is_changed_by(&self, change: GameStateChange) -> (b: bool)
        ensures
            b == self.changes_on(change),
    {
        match (*self, change) {
            (GameState::InGame, GameStateChange::Staging) => true,
            (GameState::Staging, GameStateChange::MainGame) => true,
            _ => false,
        }
    }
}

/// Moves the state where `change` asks it to go.
pub fn change_game_state(state: &mut GameState, change: GameStateChange)
    ensures
        *final(state) == old(state).after(change),
{
    match change {
        GameStateChange::Staging => {
            *state = GameState::Staging;
        },
        GameStateChange::MainGame => {
            *state = GameState::InGame;
        },
    }
}

/// What a change of state does to the hostiles and the economy. Any change
/// removes every hostile. The end of a round also pays the score out in gold
/// and sets score and placed towers back to zero.
pub fn on_die(
    change: GameStateChange,
    state: GameState,
    enemies: &mut Vec<Enemy>,
    score: &mut Score,
    placed_towers: &mut PlacedTowers,
    gold: &mut Gold,
    conversion_log: u64,
)
    ensures
        !state.changes_on(change) ==> {
            &&& final(enemies)@ == old(enemies)@
            &&& *final(score) == *old(score)
            &&& *final(placed_towers) == *old(placed_towers)
            &&& *final(gold) == *old(gold)
        },
        state.changes_on(change) ==> final(enemies)@ == Seq::<Enemy>::empty(),
        state.changes_on(change) && change == GameStateChange::Staging ==> {
            &&& *final(gold) == gold_after_round(*old(gold), *old(score), conversion_log)
            &&& *final(score) == Score(0)
            &&& *final(placed_towers) == PlacedTowers(0)
        },
        state.changes_on(change) && change == GameStateChange::MainGame ==> {
            &&& *final(gold) == *old(gold)
            &&& *final(score) == *old(score)
            &&& *final(placed_towers) == *old(placed_towers)
        },
{
    if !state.is_changed_by(change) {
        return ;
    }
    enemies.clear();
    match change {
        GameStateChange::Staging => {
            convert_score(gold, *score, conversion_log);
            *score = Score(0);
            *placed_towers = PlacedTowers(0);
        },
        GameStateChange::MainGame => {},
    }
}

/// What a change of state does to the towers and the clock of the round. Any
/// change removes every tower. The start of a round also sets the clock to
/// zero.
pub fn on_game_end(
    change: GameStateChange,
    state: GameState,
    towers: &mut Vec<Tower>,
    time_since_game_start: &mut TimeSinceGameStart,
)
    ensures
        !state.changes_on(change) ==> {
            &&& final(towers)@ == old(towers)@
            &&& *final(time_since_game_start) == *old(time_since_game_start)
        },
        state.changes_on(change) ==> final(towers)@ == Seq::<Tower>::empty(),
        state.changes_on(change) && change == GameStateChange::MainGame ==> {
            *final(time_since_game_start) == TimeSinceGameStart(0)
        },
        state.changes_on(change) && change == GameStateChange::Staging ==> {
            *final(time_since_game_start) == *old(time_since_game_start)
        },
{
    if !state.is_changed_by(change) {
        return ;
    }
    towers.clear();
    match change {
        GameStateChange::Staging => {},
        GameStateChange::MainGame => {
            *time_since_game_start = TimeSinceGameStart(0);
        },
    }
}

/// What a change of state does to the bullets: any change removes them all.
pub fn despawn_if_game_changed(change: GameStateChange, state: GameState, bullets: &mut Vec<Bullet>)
    ensures
        !state.changes_on(change) ==> final(bullets)@ == old(bullets)@,
        state.changes_on(change) ==> final(bullets)@ == Seq::<Bullet>::empty(),
{
    if state.is_changed_by(change) {
        bullets.clear();
    }
}

/// Buys one level of an upgrade. This succeeds where the game is between
/// rounds and the gold pays for the level. Then the price leaves the gold
/// and the level rises by one; otherwise nothing changes.
pub fn purchase_upgrade(
    state: GameState,
    gold: &mut Gold,
    upgrades: &mut PlayerUpgrades,
    which: Upgrade,
) -> (bought: bool)
    requires
        old(upgrades).wf(),
    ensures
        bought == (state == GameState::Staging && affordable(
            *old(gold),
            old(upgrades).level_of(which),
        )),
        bought ==> {
            &&& final(gold).0 == old(gold).0 - upgrade_cost(old(upgrades).level_of(which) as nat)
                * GOLD_UNIT
            &&& *final(upgrades) == old(upgrades).with_level(
                which,
                (old(upgrades).level_of(which) + 1) as u32,
            )
        },
        !bought ==> *final(gold) == *old(gold) && *final(upgrades) == *old(upgrades),
        final(upgrades).wf(),
{
    let level = upgrades.level(which);
    match state {
        GameState::InGame => {
            return false;
        },
        GameState::Staging => {},
    }
    if !can_afford(*gold, level) {
        return false;
    }
    proof {
        lemma_floor_log2_u32(level as nat);
        if level >= 0x8000_0000 {
            lemma_price_of_high_levels(level);
        }
    }
    let cost = calculate_cost_to_upgrade(level);
    gold.0 = gold.0 - cost as u64 * GOLD_UNIT;
    upgrades.set_level(which, level + 1);
    true
}

} // verus!
