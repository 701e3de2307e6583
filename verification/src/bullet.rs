//! Bullets: how towers fire them, how they home in and what they hit.

use vstd::prelude::*;
use crate::economy::{AttackRadiusLvl, DamageLvl};
use crate::enemy::{find_enemy, lemma_find_enemy, lemma_find_enemy_by_ids, locate_enemy, Enemy};
use crate::geometry::{dist2, step_toward, step_toward_spec, within, Point};
use crate::tower::Tower;

verus! {

/// Distance a bullet flies each frame.
pub const BULLET_STEP: u32 = 100_000;

/// Distance at which a bullet strikes its target.
pub const DESTROY_DISTANCE: u64 = 50_000;

/// Most bullets a tower fires in one volley.
pub const VOLLEY_CAP: usize = 6;

/// A bullet in flight. `target` is the id of the hostile it homes in on; the
/// hostile may be gone by the time the bullet arrives.
#[derive(Clone, Copy, PartialEq, Eq, Structural, Debug)]
pub struct Bullet {
    pub target: u64,
    pub damage: u64,
    pub position: Point,
}

/// Reach of every tower at the given level of the attack-radius upgrade.
pub open spec fn attack_radius_spec(level: AttackRadiusLvl) -> int {
    1_000_000 + (level.0 * 1_000_000) / 15
}

/// Damage of every bullet at the given level of the damage upgrade.
pub open spec fn bullet_damage_spec(level: DamageLvl) -> int {
    200_000 + (level.0 * 1_000_000) / 30
}

/// Reach of every tower at the given level of the attack-radius upgrade.
pub fn attack_radius(level: AttackRadiusLvl) -> (r: u64)
    ensures
        r == attack_radius_spec(level),
{
    1_000_000 + (level.0 as u64 * 1_000_000) / 15
}

/// Damage of every bullet at the given level of the damage upgrade.
pub fn bullet_damage(level: DamageLvl) -> (d: u64)
    ensures
        d == bullet_damage_spec(level),
{
    200_000 + (level.0 as u64 * 1_000_000) / 30
}

/// The bullets of one volley from `origin`: one for each hostile within
/// `radius`, in the herd's order, until the volley is full.
pub open spec fn volley(origin: Point, enemies: Seq<Enemy>, radius: u64, damage: u64) -> Seq<
    Bullet,
>
    decreases enemies.len(),
{
    if enemies.len() == 0 {
        Seq::empty()
    } else {
        let earlier = volley(origin, enemies.drop_last(), radius, damage);
        if earlier.len() < VOLLEY_CAP && dist2(origin, enemies.last().position) <= radius
            * radius {
            earlier.push(Bullet { target: enemies.last().id, damage, position: origin })
        } else {
            earlier
        }
    }
}

/// The bullets that the towers fire in a frame of `delta` microseconds: the
/// volleys of the towers whose cooldown completes, in the towers' order.
pub open spec fn barrage(
    towers: Seq<Tower>,
    enemies: Seq<Enemy>,
    delta: u64,
    radius: u64,
    damage: u64,
) -> Seq<Bullet>
    decreases towers.len(),
{
    if towers.len() == 0 {
        Seq::empty()
    } else {
        let earlier = barrage(towers.drop_last(), enemies, delta, radius, damage);
        if towers.last().timer.ticked(delta).finished {
            earlier + volley(towers.last().position, enemies, radius, damage)
        } else {
            earlier
        }
    }
}

/// The towers with their cooldowns advanced by `delta` microseconds.
pub open spec fn cooled(towers: Seq<Tower>, delta: u64) -> Seq<Tower> {
    Seq::new(
        towers.len(),
        |i: int| Tower { timer: towers[i].timer.ticked(delta), ..towers[i] },
    )
}

/// Towers whose cooldown does not complete in the frame fire nothing.
pub proof fn lemma_idle_towers_fire_nothing(
    towers: Seq<Tower>,
    enemies: Seq<Enemy>,
    delta: u64,
    radius: u64,
    damage: u64,
)
    requires
        forall|i: int| 0 <= i < towers.len() ==> !(#[trigger] towers[i]).timer.ticked(delta).finished,
    ensures
        barrage(towers, enemies, delta, radius, damage) == Seq::<Bullet>::empty(),
    decreases towers.len(),
{
    if towers.len() > 0 {
        let front = towers.drop_last();
        assert(forall|i: int| 0 <= i < front.len() ==> front[i] == towers[i]);
        lemma_idle_towers_fire_nothing(front, enemies, delta, radius, damage);
        assert(!towers[towers.len() - 1].timer.ticked(delta).finished);
    }
}

/// One more tower adds its volley after those of the towers before it, where
/// its cooldown completes, and nothing where it does not.
pub proof fn lemma_barrage_of_one_more(
    towers: Seq<Tower>,
    tower: Tower,
    enemies: Seq<Enemy>,
    delta: u64,
    radius: u64,
    damage: u64,
)
    ensures
        barrage(towers.push(tower), enemies, delta, radius, damage) == barrage(
            towers,
            enemies,
            delta,
            radius,
            damage,
        ) + if tower.timer.ticked(delta).finished {
            volley(tower.position, enemies, radius, damage)
        } else {
            Seq::<Bullet>::empty()
        },
{
    assert(towers.push(tower).drop_last() =~= towers);
    assert(barrage(towers, enemies, delta, radius, damage) + Seq::<Bullet>::empty() =~= barrage(
        towers,
        enemies,
        delta,
        radius,
        damage,
    ));
}

/// A volley holds at most [`VOLLEY_CAP`] bullets, each aimed at a hostile of
/// the herd within `radius`, carrying `damage` and starting at `origin`.
pub proof fn lemma_volley(origin: Point, enemies: Seq<Enemy>, radius: u64, damage: u64)
    ensures
        volley(origin, enemies, radius, damage).len() <= VOLLEY_CAP,
        volley(origin, enemies, radius, damage).len() <= enemies.len(),
        forall|k: int|
            0 <= k < volley(origin, enemies, radius, damage).len() ==> {
                let b = #[trigger] volley(origin, enemies, radius, damage)[k];
                &&& b.damage == damage
                &&& b.position == origin
                &&& exists|i: int|
                    0 <= i < enemies.len() && enemies[i].id == b.target && dist2(
                        origin,
                        enemies[i].position,
                    ) <= radius * radius
            },
    decreases enemies.len(),
{
    if enemies.len() > 0 {
        let front = enemies.drop_last();
        lemma_volley(origin, front, radius, damage);
        let all = volley(origin, enemies, radius, damage);
        let earlier = volley(origin, front, radius, damage);
        assert forall|k: int| 0 <= k < all.len() implies {
            let b = #[trigger] all[k];
            &&& b.damage == damage
            &&& b.position == origin
            &&& exists|i: int|
                0 <= i < enemies.len() && enemies[i].id == b.target && dist2(
                    origin,
                    enemies[i].position,
                ) <= radius * radius
        } by {
            let b = all[k];
            if k < earlier.len() {
                assert(b == earlier[k]);
                let i = choose|i: int|
                    0 <= i < front.len() && front[i].id == b.target && dist2(
                        origin,
                        front[i].position,
                    ) <= radius * radius;
                assert(enemies[i] == front[i]);
            } else {
                assert(enemies[enemies.len() - 1].id == b.target);
            }
        }
    }
}

/// The volley at the first `count` hostiles is the start of the volley at the
/// whole herd: a hostile further on changes no bullet fired before its turn.
pub proof fn lemma_volley_prefix(
    origin: Point,
    enemies: Seq<Enemy>,
    radius: u64,
    damage: u64,
    count: int,
)
    requires
        0 <= count <= enemies.len(),
    ensures
        volley(origin, enemies.take(count), radius, damage).len() <= volley(
            origin,
            enemies,
            radius,
            damage,
        ).len(),
        forall|k: int|
            0 <= k < volley(origin, enemies.take(count), radius, damage).len() ==> volley(
                origin,
                enemies,
                radius,
                damage,
            )[k] == #[trigger] volley(origin, enemies.take(count), radius, damage)[k],
    decreases enemies.len(),
{
    if count == enemies.len() {
        assert(enemies.take(count) =~= enemies);
    } else {
        let front = enemies.drop_last();
        assert(front.take(count) =~= enemies.take(count));
        lemma_volley_prefix(origin, front, radius, damage, count);
    }
}

/// A hostile within `radius` is fired at where the volley is not yet full
/// when its turn comes: its bullet follows those of the hostiles before it.
pub proof fn lemma_volley_serves(
    origin: Point,
    enemies: Seq<Enemy>,
    radius: u64,
    damage: u64,
    i: int,
)
    requires
        0 <= i < enemies.len(),
        dist2(origin, enemies[i].position) <= radius * radius,
        volley(origin, enemies.take(i), radius, damage).len() < VOLLEY_CAP,
    ensures
        volley(origin, enemies.take(i), radius, damage).len() < volley(
            origin,
            enemies,
            radius,
            damage,
        ).len(),
        volley(origin, enemies, radius, damage)[volley(
            origin,
            enemies.take(i),
            radius,
            damage,
        ).len() as int] == (Bullet { target: enemies[i].id, damage, position: origin }),
{
    let upto = enemies.take(i + 1);
    assert(upto.drop_last() =~= enemies.take(i));
    assert(upto.last() == enemies[i]);
    let k = volley(origin, enemies.take(i), radius, damage).len() as int;
    assert(volley(origin, upto, radius, damage)[k] == (Bullet {
        target: enemies[i].id,
        damage,
        position: origin,
    }));
    lemma_volley_prefix(origin, enemies, radius, damage, i + 1);
}

/// A volley that is not full has a bullet for every hostile within `radius`.
pub proof fn lemma_unfilled_volley_serves_all(
    origin: Point,
    enemies: Seq<Enemy>,
    radius: u64,
    damage: u64,
)
    requires
        volley(origin, enemies, radius, damage).len() < VOLLEY_CAP,
    ensures
        forall|i: int|
            0 <= i < enemies.len() && dist2(origin, (#[trigger] enemies[i]).position) <= radius
                * radius ==> volley(origin, enemies, radius, damage).contains(
                Bullet { target: enemies[i].id, damage, position: origin },
            ),
{
    let all = volley(origin, enemies, radius, damage);
    assert forall|i: int|
        0 <= i < enemies.len() && dist2(origin, (#[trigger] enemies[i]).position) <= radius
            * radius implies all.contains(
        Bullet { target: enemies[i].id, damage, position: origin },
    ) by {
        lemma_volley_prefix(origin, enemies, radius, damage, i);
        lemma_volley_serves(origin, enemies, radius, damage, i);
        let k = volley(origin, enemies.take(i), radius, damage).len() as int;
        assert(all[k] == (Bullet { target: enemies[i].id, damage, position: origin }));
    }
}

/// Where no two hostiles share an id, no two bullets of a volley share a
/// target: no hostile is fired at twice.
pub proof fn lemma_volley_serves_once(origin: Point, enemies: Seq<Enemy>, radius: u64, damage: u64)
    requires
        forall|i: int, j: int|
            0 <= i < j < enemies.len() ==> (#[trigger] enemies[i]).id != (#[trigger] enemies[j]).id,
    ensures
        forall|a: int, b: int|
            0 <= a < b < volley(origin, enemies, radius, damage).len() ==> (#[trigger] volley(
                origin,
                enemies,
                radius,
                damage,
            )[a]).target != (#[trigger] volley(origin, enemies, radius, damage)[b]).target,
    decreases enemies.len(),
{
    if enemies.len() > 0 {
        let front = enemies.drop_last();
        assert(forall|i: int| 0 <= i < front.len() ==> front[i] == enemies[i]);
        lemma_volley_serves_once(origin, front, radius, damage);
        lemma_volley(origin, front, radius, damage);
        let all = volley(origin, enemies, radius, damage);
        let earlier = volley(origin, front, radius, damage);
        assert forall|a: int, b: int| 0 <= a < b < all.len() implies (#[trigger] all[a]).target != (
        #[trigger] all[b]).target by {
            if b < earlier.len() {
                assert(earlier[a].target != earlier[b].target);
            } else {
                let shot = earlier[a];
                let i = choose|i: int|
                    0 <= i < front.len() && front[i].id == shot.target && dist2(
                        origin,
                        front[i].position,
                    ) <= radius * radius;
                assert(enemies[i].id != enemies[enemies.len() - 1].id);
            }
        }
    }
}

/// Fires one volley from `origin` and adds its bullets to `bullets`.
fn fire_volley(
    origin: Point,
    enemies: &Vec<Enemy>,
    radius: u64,
    damage: u64,
    bullets: &mut Vec<Bullet>,
)
    ensures
        final(bullets)@ == old(bullets)@ + volley(origin, enemies@, radius, damage),
{
    let ghost before = bullets@;
    let mut shots: usize = 0;
    let mut j: usize = 0;
    assert(bullets@ =~= before + volley(origin, enemies@.take(0), radius, damage));
    while j < enemies.len()
        invariant
            j <= enemies.len(),
            shots == volley(origin, enemies@.take(j as int), radius, damage).len(),
            shots <= VOLLEY_CAP,
            bullets@ == before + volley(origin, enemies@.take(j as int), radius, damage),
        decreases enemies.len() - j,
    {
        let e = enemies[j];
        proof {
            assert(enemies@.take(j + 1).drop_last() =~= enemies@.take(j as int));
            assert(enemies@.take(j + 1).last() == e);
        }
        if shots < VOLLEY_CAP && within(origin, e.position, radius) {
            bullets.push(Bullet { target: e.id, damage, position: origin });
            shots += 1;
            assert(bullets@ =~= before + volley(origin, enemies@.take(j + 1), radius, damage));
        }
        j += 1;
    }
    assert(enemies@.take(j as int) =~= enemies@);
}

/// Advances every tower's cooldown by `delta` microseconds and fires a volley
/// from each tower whose cooldown completes. The new bullets are added to
/// `bullets`; their number is returned, one shot sound for each.
pub fn spawn_bullet(
    towers: &mut Vec<Tower>,
    enemies: &Vec<Enemy>,
    bullets: &mut Vec<Bullet>,
    delta: u64,
    attack_radius_lvl: AttackRadiusLvl,
    damage_lvl: DamageLvl,
) -> (shots: usize)
    ensures
        final(towers)@ == cooled(old(towers)@, delta),
        final(bullets)@ == old(bullets)@ + barrage(
            old(towers)@,
            enemies@,
            delta,
            attack_radius_spec(attack_radius_lvl) as u64,
            bullet_damage_spec(damage_lvl) as u64,
        ),
        shots == final(bullets)@.len() - old(bullets)@.len(),
{
    let radius = attack_radius(attack_radius_lvl);
    let damage = bullet_damage(damage_lvl);
    let ghost before = bullets@;
    let ghost start = towers@;
    let first: usize = bullets.len();
    let mut i: usize = 0;
    assert(bullets@ =~= before + barrage(start.take(0), enemies@, delta, radius, damage));
    while i < towers.len()
        invariant
            i <= towers.len(),
            towers@.len() == start.len(),
            first == before.len(),
            forall|k: int| 0 <= k < i ==> towers@[k] == cooled(start, delta)[k],
            forall|k: int| i <= k < start.len() ==> towers@[k] == start[k],
            bullets@ == before + barrage(start.take(i as int), enemies@, delta, radius, damage),
        decreases towers.len() - i,
    {
        let mut tower = towers[i];
        proof {
            assert(start.take(i + 1).drop_last() =~= start.take(i as int));
            assert(start.take(i + 1).last() == tower);
        }
        tower.timer.tick(delta);
        let fires = tower.timer.finished();
        let origin = tower.position;
        towers.set(i, tower);
        if fires {
            fire_volley(origin, enemies, radius, damage, bullets);
            assert(bullets@ =~= before + barrage(
                start.take(i + 1),
                enemies@,
                delta,
                radius,
                damage,
            ));
        }
        i += 1;
    }
    assert(start.take(i as int) =~= start);
    assert(towers@ =~= cooled(start, delta));
    bullets.len() - first
}

/// What becomes of bullet `b` in one frame of flight: it takes a step toward
/// its target, or is gone where the target is.
pub open spec fn flown_one(b: Bullet, enemies: Seq<Enemy>) -> Option<Bullet> {
    match find_enemy(enemies, b.target) {
        Some(i) => Some(
            Bullet {
                position: step_toward_spec(b.position, enemies[i].position, BULLET_STEP as int),
                ..b
            },
        ),
        None => None,
    }
}

/// The bullets after one frame of flight, in order.
pub open spec fn flown(bullets: Seq<Bullet>, enemies: Seq<Enemy>) -> Seq<Bullet>
    decreases bullets.len(),
{
    if bullets.len() == 0 {
        Seq::empty()
    } else {
        match flown_one(bullets.last(), enemies) {
            Some(b) => flown(bullets.drop_last(), enemies).push(b),
            None => flown(bullets.drop_last(), enemies),
        }
    }
}

/// A frame of flight keeps, in their order, the bullets whose target is in
/// the herd, each moved by its step, and no other.
pub proof fn lemma_flown_keeps_the_aimed(bullets: Seq<Bullet>, enemies: Seq<Enemy>)
    ensures
        flown(bullets, enemies) == bullets.filter_map(|b: Bullet| flown_one(b, enemies)),
    decreases bullets.len(),
{
    if bullets.len() > 0 {
        lemma_flown_keeps_the_aimed(bullets.drop_last(), enemies);
        assert(flown(bullets, enemies) =~= bullets.filter_map(|b: Bullet| flown_one(b, enemies)));
    }
}

/// Whether each hostile stands in the world.
pub open spec fn herd_in_world(enemies: Seq<Enemy>) -> bool {
    forall|i: int| 0 <= i < enemies.len() ==> (#[trigger] enemies[i]).position.in_world()
}

/// Whether each bullet is at most one step outside the world.
pub open spec fn bullets_in_range(bullets: Seq<Bullet>) -> bool {
    forall|i: int|
        0 <= i < bullets.len() ==> (#[trigger] bullets[i]).position.within_world(
            BULLET_STEP as int,
        )
}

/// After a frame of flight every bullet left has a living target, and no
/// bullet was added.
pub proof fn lemma_flown_targets_exist(bullets: Seq<Bullet>, enemies: Seq<Enemy>)
    ensures
        flown(bullets, enemies).len() <= bullets.len(),
        forall|k: int|
            0 <= k < flown(bullets, enemies).len() ==> find_enemy(
                enemies,
                (#[trigger] flown(bullets, enemies)[k]).target,
            ).is_some(),
    decreases bullets.len(),
{
    if bullets.len() > 0 {
        lemma_flown_targets_exist(bullets.drop_last(), enemies);
    }
}

/// Moves every bullet one step toward its target and removes the bullets
/// whose target is gone. The herd is only read.
pub fn fly_to_enemy(bullets: &mut Vec<Bullet>, enemies: &Vec<Enemy>)
    requires
        herd_in_world(enemies@),
        bullets_in_range(old(bullets)@),
    ensures
        final(bullets)@ == flown(old(bullets)@, enemies@),
        bullets_in_range(final(bullets)@),
{
    let ghost before = bullets@;
    let mut kept: Vec<Bullet> = Vec::new();
    let mut i: usize = 0;
    while i < bullets.len()
        invariant
            i <= bullets.len(),
            bullets@ == before,
            herd_in_world(enemies@),
            bullets_in_range(before),
            bullets_in_range(kept@),
            kept@ == flown(before.take(i as int), enemies@),
        decreases bullets.len() - i,
    {
        let b = bullets[i];
        proof {
            assert(before.take(i + 1).drop_last() =~= before.take(i as int));
            assert(before.take(i + 1).last() == b);
            assert(before[i as int].position.within_world(BULLET_STEP as int));
        }
        match locate_enemy(enemies, b.target) {
            Some(t) => {
                assert(enemies@[t as int].position.in_world());
                let position = step_toward(b.position, enemies[t].position, BULLET_STEP);
                kept.push(Bullet { target: b.target, damage: b.damage, position });
            },
            None => {},
        }
        i += 1;
    }
    assert(before.take(i as int) =~= before);
    *bullets = kept;
}

/// Index of the hostile that bullet `b` strikes, if it strikes one: its
/// target, where that is still in the herd and within [`DESTROY_DISTANCE`].
pub open spec fn strikes(b: Bullet, enemies: Seq<Enemy>) -> Option<int> {
    match find_enemy(enemies, b.target) {
        Some(i) => if dist2(enemies[i].position, b.position) <= DESTROY_DISTANCE
            * DESTROY_DISTANCE {
            Some(i)
        } else {
            None
        },
        None => None,
    }
}

/// The herd after the bullets that strike have done their damage, each in its
/// turn.
pub open spec fn struck(enemies: Seq<Enemy>, bullets: Seq<Bullet>) -> Seq<Enemy>
    decreases bullets.len(),
{
    if bullets.len() == 0 {
        enemies
    } else {
        let earlier = struck(enemies, bullets.drop_last());
        match strikes(bullets.last(), enemies) {
            Some(i) => earlier.update(
                i,
                Enemy { health: earlier[i].health.wounded(bullets.last().damage), ..earlier[i] },
            ),
            None => earlier,
        }
    }
}

/// The bullets that strike nothing, in order.
pub open spec fn unspent(bullets: Seq<Bullet>, enemies: Seq<Enemy>) -> Seq<Bullet>
    decreases bullets.len(),
{
    if bullets.len() == 0 {
        Seq::empty()
    } else if strikes(bullets.last(), enemies).is_some() {
        unspent(bullets.drop_last(), enemies)
    } else {
        unspent(bullets.drop_last(), enemies).push(bullets.last())
    }
}

/// Striking keeps, in their order, the bullets that strike nothing, and no
/// other.
pub proof fn lemma_unspent_are_the_idle(bullets: Seq<Bullet>, enemies: Seq<Enemy>)
    ensures
        unspent(bullets, enemies) == bullets.filter(|b: Bullet| strikes(b, enemies).is_none()),
    decreases bullets.len(),
{
    reveal(Seq::filter);
    if bullets.len() > 0 {
        lemma_unspent_are_the_idle(bullets.drop_last(), enemies);
    }
}

/// Damage leaves every hostile in the herd, in its place and under its id.
pub proof fn lemma_struck_keeps_herd(enemies: Seq<Enemy>, bullets: Seq<Bullet>)
    ensures
        struck(enemies, bullets).len() == enemies.len(),
        forall|j: int|
            0 <= j < enemies.len() ==> {
                &&& (#[trigger] struck(enemies, bullets)[j]).id == enemies[j].id
                &&& struck(enemies, bullets)[j].position == enemies[j].position
                &&& struck(enemies, bullets)[j].speed == enemies[j].speed
                &&& struck(enemies, bullets)[j].health.0 <= enemies[j].health.0
            },
    decreases bullets.len(),
{
    if bullets.len() > 0 {
        lemma_struck_keeps_herd(enemies, bullets.drop_last());
        lemma_find_enemy(enemies, bullets.last().target);
    }
}

/// A hostile that no bullet strikes keeps its health.
pub proof fn lemma_struck_spares(enemies: Seq<Enemy>, bullets: Seq<Bullet>, j: int)
    requires
        0 <= j < enemies.len(),
        forall|k: int| 0 <= k < bullets.len() ==> strikes(#[trigger] bullets[k], enemies) != Some(j),
    ensures
        struck(enemies, bullets)[j] == enemies[j],
    decreases bullets.len(),
{
    if bullets.len() > 0 {
        let front = bullets.drop_last();
        assert(forall|k: int| 0 <= k < front.len() ==> front[k] == bullets[k]);
        lemma_struck_spares(enemies, front, j);
        lemma_struck_keeps_herd(enemies, front);
        lemma_find_enemy(enemies, bullets.last().target);
        assert(strikes(bullets[bullets.len() - 1], enemies) != Some(j));
    }
}

/// Sum of the damage of the bullets that strike hostile `j`.
pub open spec fn damage_dealt(enemies: Seq<Enemy>, bullets: Seq<Bullet>, j: int) -> int
    decreases bullets.len(),
{
    if bullets.len() == 0 {
        0
    } else if strikes(bullets.last(), enemies) == Some(j) {
        damage_dealt(enemies, bullets.drop_last(), j) + bullets.last().damage
    } else {
        damage_dealt(enemies, bullets.drop_last(), j)
    }
}

/// Each hostile loses the sum of the damage of the bullets that strike it,
/// and its health stops at `i64::MIN`. So a hostile stays alive exactly where
/// that sum is less than its health.
pub proof fn lemma_struck_loses_damage_dealt(enemies: Seq<Enemy>, bullets: Seq<Bullet>, j: int)
    requires
        0 <= j < enemies.len(),
    ensures
        damage_dealt(enemies, bullets, j) >= 0,
        struck(enemies, bullets)[j].health.0 == if enemies[j].health.0 - damage_dealt(
            enemies,
            bullets,
            j,
        ) < i64::MIN {
            i64::MIN as int
        } else {
            enemies[j].health.0 - damage_dealt(enemies, bullets, j)
        },
        struck(enemies, bullets)[j].health.alive() <==> damage_dealt(enemies, bullets, j)
            < enemies[j].health.0,
    decreases bullets.len(),
{
    if bullets.len() > 0 {
        let front = bullets.drop_last();
        lemma_struck_loses_damage_dealt(enemies, front, j);
        lemma_struck_keeps_herd(enemies, front);
        lemma_find_enemy(enemies, bullets.last().target);
    }
}

/// Bullets whose targets are gone do nothing to the herd: none strikes, so
/// every hostile keeps its health, and the next flight removes them all.
pub proof fn lemma_orphans_are_harmless(enemies: Seq<Enemy>, bullets: Seq<Bullet>)
    requires
        forall|k: int|
            0 <= k < bullets.len() ==> find_enemy(enemies, (#[trigger] bullets[k]).target).is_none(),
    ensures
        struck(enemies, bullets) == enemies,
        unspent(bullets, enemies) == bullets,
        flown(bullets, enemies) == Seq::<Bullet>::empty(),
    decreases bullets.len(),
{
    if bullets.len() > 0 {
        let front = bullets.drop_last();
        assert(forall|k: int| 0 <= k < front.len() ==> front[k] == bullets[k]);
        lemma_orphans_are_harmless(enemies, front);
        assert(find_enemy(enemies, bullets[bullets.len() - 1].target).is_none());
        assert(unspent(bullets, enemies) =~= bullets);
    } else {
        assert(unspent(bullets, enemies) =~= bullets);
    }
}

/// Lets every bullet that has reached its target do its damage and removes
/// it. A bullet whose target is gone, or still out of reach, stays untouched.
pub fn destroy_enemy(bullets: &mut Vec<Bullet>, enemies: &mut Vec<Enemy>)
    ensures
        final(enemies)@ == struck(old(enemies)@, old(bullets)@),
        final(bullets)@ == unspent(old(bullets)@, old(enemies)@),
{
    let ghost shots = bullets@;
    let ghost herd = enemies@;
    let mut kept: Vec<Bullet> = Vec::new();
    let mut i: usize = 0;
    while i < bullets.len()
        invariant
            i <= bullets.len(),
            bullets@ == shots,
            enemies@ == struck(herd, shots.take(i as int)),
            kept@ == unspent(shots.take(i as int), herd),
        decreases bullets.len() - i,
    {
        let b = bullets[i];
        proof {
            assert(shots.take(i + 1).drop_last() =~= shots.take(i as int));
            assert(shots.take(i + 1).last() == b);
            lemma_struck_keeps_herd(herd, shots.take(i as int));
            lemma_find_enemy_by_ids(enemies@, herd, b.target);
            lemma_find_enemy(herd, b.target);
        }
        let mut spent = false;
        match locate_enemy(enemies, b.target) {
            Some(t) => {
                let mut target = enemies[t];
                if within(target.position, b.position, DESTROY_DISTANCE) {
                    target.health.wound(b.damage);
                    enemies.set(t, target);
                    spent = true;
                }
            },
            None => {},
        }
        if !spent {
            kept.push(b);
        }
        i += 1;
    }
    assert(shots.take(i as int) =~= shots);
    *bullets = kept;
}

} // verus!
