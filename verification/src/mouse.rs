//! The pointer, and what happens when a hostile reaches it.

use vstd::prelude::*;
use crate::enemy::Enemy;
use crate::geometry::{closer_than_planar, planar_dist2, Point};

verus! {

/// Distance from the pointer at which a hostile ends the round.
pub const KILL_DISTANCE: u64 = 30_000;

/// Where the pointer is in the world. Only its place on the ground counts.
#[derive(Clone, Copy, PartialEq, Eq, Structural, Debug)]
pub struct MousePos(pub Point);

/// Whether a hostile stands closer to the pointer than [`KILL_DISTANCE`],
/// measured on the ground.
pub open spec fn player_caught(enemies: Seq<Enemy>, mouse: MousePos) -> bool {
    exists|i: int|
        0 <= i < enemies.len() && planar_dist2(mouse.0, (#[trigger] enemies[i]).position)
            < KILL_DISTANCE * KILL_DISTANCE
}

/// Tells whether a hostile has reached the pointer, which ends the round.
pub fn kill_player(enemies: &Vec<Enemy>, mouse: MousePos) -> (caught: bool)
    ensures
        caught == player_caught(enemies@, mouse),
{
    let mut i: usize = 0;
    while i < enemies.len()
        invariant
            i <= enemies.len(),
            forall|j: int|
                0 <= j < i ==> planar_dist2(mouse.0, (#[trigger] enemies@[j]).position)
                    >= KILL_DISTANCE * KILL_DISTANCE,
        decreases enemies.len() - i,
    {
        if closer_than_planar(mouse.0, enemies[i].position, KILL_DISTANCE) {
            return true;
        }
        i += 1;
    }
    false
}

} // verus!
