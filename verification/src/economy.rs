//! Upgrade prices and the tower budget.

use vstd::prelude::*;

verus! {

/// Base-2 logarithm of `n`, rounded down; `0` for `n <= 1`.
pub open spec fn floor_log2(n: nat) -> nat
    decreases n,
{
    if n <= 1 {
        0
    } else {
        1 + floor_log2(n / 2)
    }
}

/// `u32::ilog2` returns the base-2 logarithm rounded down, and panics on zero,
/// which the precondition leaves out.
pub assume_specification[ u32::ilog2 ](x: u32) -> (r: u32)
    requires
        x > 0,
    ensures
        r == floor_log2(x as nat),
;

/// The logarithm of a positive number is the exponent of the greatest power
/// of two that does not exceed it.
pub proof fn lemma_floor_log2_brackets(n: nat)
    requires
        n >= 1,
    ensures
        vstd::arithmetic::power2::pow2(floor_log2(n)) <= n < 2 * vstd::arithmetic::power2::pow2(
            floor_log2(n),
        ),
    decreases n,
{
    vstd::arithmetic::power2::lemma2_to64();
    if n >= 2 {
        lemma_floor_log2_brackets(n / 2);
        vstd::arithmetic::power2::lemma_pow2_unfold(floor_log2(n));
    }
}

/// Price of raising an upgrade from `level` to `level + 1`.
pub open spec fn upgrade_cost(level: nat) -> nat {
    level + 2 * floor_log2(level)
}

/// The logarithm never decreases when its argument grows by one.
pub proof fn lemma_floor_log2_monotonic(n: nat)
    ensures
        floor_log2(n) <= floor_log2(n + 1),
    decreases n,
{
    if n >= 2 {
        if (n + 1) / 2 == n / 2 {
        } else {
            assert((n + 1) / 2 == n / 2 + 1);
            lemma_floor_log2_monotonic(n / 2);
        }
    }
}

/// A value below `2^32` has a logarithm of at most 31.
pub proof fn lemma_floor_log2_u32(n: nat)
    requires
        n <= u32::MAX,
    ensures
        floor_log2(n) <= 31,
{
    reveal_with_fuel(floor_log2, 34);
}

/// The price of an upgrade rises strictly with the level.
pub proof fn lemma_upgrade_cost_strictly_increasing(level: nat)
    requires
        level >= 1,
    ensures
        upgrade_cost(level + 1) > upgrade_cost(level),
{
    lemma_floor_log2_monotonic(level);
}

/// Price of raising an upgrade that stands at `level`.
pub fn calculate_cost_to_upgrade(level: u32) -> (cost: u32)
    requires
        level >= 1,
        upgrade_cost(level as nat) <= u32::MAX,
    ensures
        cost == upgrade_cost(level as nat),
{
    proof {
        lemma_floor_log2_u32(level as nat);
    }
    level + 2 * level.ilog2()
}

/// Hostiles defeated in the running round.
#[derive(Clone, Copy, PartialEq, Eq, Structural, Debug)]
pub struct Score(pub u32);

/// Towers placed in the running round.
#[derive(Clone, Copy, PartialEq, Eq, Structural, Debug)]
pub struct PlacedTowers(pub u32);

/// Towers that a round with `score` points allows in all.
pub open spec fn tower_allowance(score: nat) -> nat {
    1 + score / 50
}

/// Towers that may still be placed: the allowance less those placed, and zero
/// where more are placed than allowed.
pub open spec fn available_towers(score: nat, placed: nat) -> nat {
    if tower_allowance(score) >= placed {
        (tower_allowance(score) - placed) as nat
    } else {
        0
    }
}

/// Towers that may still be placed.
pub fn calculate_available_towers(score: Score, placed_towers: PlacedTowers) -> (available: u32)
    ensures
        available == available_towers(score.0 as nat, placed_towers.0 as nat),
{
    let allowance: u32 = 1 + score.0 / 50;
    if allowance >= placed_towers.0 {
        allowance - placed_towers.0
    } else {
        0
    }
}

/// Currency in fixed point.
#[derive(Clone, Copy, PartialEq, Eq, Structural, Debug)]
pub struct Gold(pub u64);

/// Level of the upgrade that widens the radius in which the pointer makes a
/// tower grow.
#[derive(Clone, Copy, PartialEq, Eq, Structural, Debug)]
pub struct UpgradeRadiusLvl(pub u32);

/// Level of the upgrade that widens the reach of the towers.
#[derive(Clone, Copy, PartialEq, Eq, Structural, Debug)]
pub struct AttackRadiusLvl(pub u32);

/// Level of the upgrade that strengthens the bullets.
#[derive(Clone, Copy, PartialEq, Eq, Structural, Debug)]
pub struct DamageLvl(pub u32);

/// Level of the upgrade that sets the rate at which score turns into gold.
#[derive(Clone, Copy, PartialEq, Eq, Structural, Debug)]
pub struct GoldConversionRateLvl(pub u32);

/// One unit of gold in fixed point.
pub const GOLD_UNIT: u64 = 1_000_000;

/// Smallest logarithm that the conversion of score into gold divides by. The
/// logarithm of the first level is zero; it is raised to this, the smallest
/// positive number in fixed point.
pub const MIN_CONVERSION_LOG: u64 = 1;

/// Radius within which the pointer makes a tower grow, from the logarithm to
/// base 1.1 of the upgrade's level, in fixed point: a half plus a
/// twenty-fifth of the logarithm.
pub open spec fn upgrade_radius_spec(level_log: u64) -> int {
    500_000 + level_log / 25
}

/// Computes the radius within which the pointer makes a tower grow.
pub fn upgrade_radius(level_log: u64) -> (radius: u64)
    ensures
        radius == upgrade_radius_spec(level_log),
{
    500_000 + level_log / 25
}

/// The logarithm that the conversion divides by.
pub open spec fn conversion_divisor(conversion_log: u64) -> int {
    if conversion_log < MIN_CONVERSION_LOG {
        MIN_CONVERSION_LOG as int
    } else {
        conversion_log as int
    }
}

/// Gold, in fixed point, that a round's score is worth: the score divided by
/// a fifth of the logarithm to base 1.5 of the conversion upgrade's level,
/// that logarithm given in fixed point.
pub open spec fn payout(score: Score, conversion_log: u64) -> int {
    (score.0 * 5_000_000_000_000) / conversion_divisor(conversion_log)
}

/// The gold after a round's score has been paid out; it stops at `u64::MAX`.
pub open spec fn gold_after_round(gold: Gold, score: Score, conversion_log: u64) -> Gold {
    if gold.0 + payout(score, conversion_log) > u64::MAX {
        Gold(u64::MAX)
    } else {
        Gold((gold.0 + payout(score, conversion_log)) as u64)
    }
}

/// Pays the score of a round out in gold.
pub fn convert_score(gold: &mut Gold, score: Score, conversion_log: u64)
    ensures
        *final(gold) == gold_after_round(*old(gold), score, conversion_log),
{
    let divisor: u128 = if conversion_log < MIN_CONVERSION_LOG {
        MIN_CONVERSION_LOG as u128
    } else {
        conversion_log as u128
    };
    let worth: u128 = (score.0 as u128 * 5_000_000_000_000u128) / divisor;
    assert(worth <= score.0 * 5_000_000_000_000) by (nonlinear_arith)
        requires
            worth == (score.0 * 5_000_000_000_000) / (divisor as int),
            divisor >= 1,
    ;
    let total: u128 = gold.0 as u128 + worth;
    if total > u64::MAX as u128 {
        gold.0 = u64::MAX;
    } else {
        gold.0 = total as u64;
    }
}

/// A round without score pays nothing, and none pays less for a greater
/// score.
pub proof fn lemma_payout_grows_with_score(low: Score, high: Score, conversion_log: u64)
    requires
        low.0 <= high.0,
    ensures
        payout(Score(0), conversion_log) == 0,
        0 <= payout(low, conversion_log) <= payout(high, conversion_log),
{
    let d = conversion_divisor(conversion_log);
    let a = low.0 * 5_000_000_000_000;
    let b = high.0 * 5_000_000_000_000;
    assert(0int / d == 0 && 0 <= a / d <= b / d) by (nonlinear_arith)
        requires
            d >= 1,
            0 <= a <= b,
    ;
}

/// The four upgrades that gold buys between rounds.
#[derive(Clone, Copy, PartialEq, Eq, Structural, Debug)]
pub enum Upgrade {
    UpgradeRadius,
    AttackRadius,
    Damage,
    GoldConversionRate,
}

/// The levels of the four upgrades. They last across rounds.
#[derive(Clone, Copy, PartialEq, Eq, Structural, Debug)]
pub struct PlayerUpgrades {
    pub upgrade_radius: UpgradeRadiusLvl,
    pub attack_radius: AttackRadiusLvl,
    pub damage: DamageLvl,
    pub gold_conversion_rate: GoldConversionRateLvl,
}

impl PlayerUpgrades {
    /// Whether each level is at least one.
    pub open spec fn wf(self) -> bool {
        &&& self.upgrade_radius.0 >= 1
        &&& self.attack_radius.0 >= 1
        &&& self.damage.0 >= 1
        &&& self.gold_conversion_rate.0 >= 1
    }

    /// The level of one upgrade.
    pub open spec fn level_of(self, which: Upgrade) -> u32 {
        match which {
            Upgrade::UpgradeRadius => self.upgrade_radius.0,
            Upgrade::AttackRadius => self.attack_radius.0,
            Upgrade::Damage => self.damage.0,
            Upgrade::GoldConversionRate => self.gold_conversion_rate.0,
        }
    }

    /// The levels with one upgrade set to `level`.
    pub open spec fn with_level(self, which: Upgrade, level: u32) -> PlayerUpgrades {
        match which {
            Upgrade::UpgradeRadius => PlayerUpgrades {
                upgrade_radius: UpgradeRadiusLvl(level),
                ..self
            },
            Upgrade::AttackRadius => PlayerUpgrades {
                attack_radius: AttackRadiusLvl(level),
                ..self
            },
            Upgrade::Damage => PlayerUpgrades { damage: DamageLvl(level), ..self },
            Upgrade::GoldConversionRate => PlayerUpgrades {
                gold_conversion_rate: GoldConversionRateLvl(level),
                ..self
            },
        }
    }

    /// The levels at the start: each is one.
    pub fn new() -> (u: PlayerUpgrades)
        ensures
            u.wf(),
            forall|which: Upgrade| u.level_of(which) == 1,
    {
        PlayerUpgrades {
            upgrade_radius: UpgradeRadiusLvl(1),
            attack_radius: AttackRadiusLvl(1),
            damage: DamageLvl(1),
            gold_conversion_rate: GoldConversionRateLvl(1),
        }
    }

    /// Reads the level of one upgrade.
    pub fn level(&self, which: Upgrade) -> (level: u32)
        ensures
            level == self.level_of(which),
    {
        match which {
            Upgrade::UpgradeRadius => self.upgrade_radius.0,
            Upgrade::AttackRadius => self.attack_radius.0,
            Upgrade::Damage => self.damage.0,
            Upgrade::GoldConversionRate => self.gold_conversion_rate.0,
        }
    }

    /// Sets the level of one upgrade.
    pub fn set_level(&mut self, which: Upgrade, level: u32)
        ensures
            *final(self) == old(self).with_level(which, level),
    {
        match which {
            Upgrade::UpgradeRadius => {
                self.upgrade_radius = UpgradeRadiusLvl(level);
            },
            Upgrade::AttackRadius => {
                self.attack_radius = AttackRadiusLvl(level);
            },
            Upgrade::Damage => {
                self.damage = DamageLvl(level);
            },
            Upgrade::GoldConversionRate => {
                self.gold_conversion_rate = GoldConversionRateLvl(level);
            },
        }
    }
}

/// Highest level whose upgrade has a price that 32 bits hold.
pub const LAST_PRICED_LEVEL: u32 = 4_294_967_233;

/// Whether `gold` pays for raising an upgrade that stands at `level`: the
/// price exists and the whole units of gold cover it.
pub open spec fn affordable(gold: Gold, level: u32) -> bool {
    &&& 1 <= level
    &&& upgrade_cost(level as nat) <= u32::MAX
    &&& upgrade_cost(level as nat) * GOLD_UNIT <= gold.0
}

/// From level `2^31` on the logarithm is 31, so the price is the level and
/// sixty-two.
pub proof fn lemma_price_of_high_levels(level: u32)
    requires
        level >= 0x8000_0000,
    ensures
        upgrade_cost(level as nat) == level + 62,
{
    reveal_with_fuel(floor_log2, 34);
}

/// The levels up to [`LAST_PRICED_LEVEL`] are those whose price 32 bits hold.
pub proof fn lemma_priced_levels(level: u32)
    ensures
        upgrade_cost(level as nat) <= u32::MAX <==> level <= LAST_PRICED_LEVEL,
{
    lemma_floor_log2_u32(level as nat);
    if level >= 0x8000_0000 {
        lemma_price_of_high_levels(level);
    }
}

/// Tells whether `gold` pays for raising an upgrade that stands at `level`.
pub fn can_afford(gold: Gold, level: u32) -> (b: bool)
    ensures
        b == affordable(gold, level),
{
    if level == 0 {
        return false;
    }
    if level > LAST_PRICED_LEVEL {
        proof {
            lemma_price_of_high_levels(level);
        }
        return false;
    }
    proof {
        lemma_floor_log2_u32(level as nat);
        if level >= 0x8000_0000 {
            lemma_price_of_high_levels(level);
        }
    }
    let cost = calculate_cost_to_upgrade(level);
    cost as u64 * GOLD_UNIT <= gold.0
}

} // verus!
