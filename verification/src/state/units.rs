//! The unit catalog: unit types, per-type combat stats, rarity tiers, and the
//! static tables that map a unit type (and optionally a rarity) to its stats.

use vstd::prelude::*;

verus! {

/// The kind of a combat unit. A `Hidden` unit has been placed with its
/// identity concealed; only its slot in the owner's hand is recorded until
/// the hand is revealed.
#[derive(Debug, Clone, Copy, PartialEq, Eq, Structural)]
pub enum UnitType {
    Wolf,
    Bull,
    Bear,
    Hidden { hand_position: u8 },
}

impl Default for UnitType {
    fn default() -> (r: UnitType)
        ensures
            r == UnitType::Wolf,
    {
        UnitType::Wolf
    }
}

/// How a unit delivers its attack.
#[derive(Debug, Clone, Copy, PartialEq, Eq, Structural)]
pub enum AttackType {
    Melee,
    Ranged { speed: u16 },
}

/// Immutable per-unit-type combat stats. `crit_chance` is a probability
/// numerator: a random byte below it doubles the attack damage.
#[derive(Debug, Clone, Copy, PartialEq, Eq, Structural)]
pub struct UnitStats {
    pub movement_speed: u16,
    pub attack_duration: u16,
    pub attack_range: u16,
    pub attack_damage: u16,
    pub starting_health: u16,
    pub crit_chance: u8,
}

/// The six rarity tiers, in increasing order of strength.
#[derive(Debug, Clone, Copy, PartialEq, Eq, Structural)]
pub enum Rarity {
    Common,
    Uncommon,
    Rare,
    Epic,
    Legendary,
    Mythic,
}

/// Special behaviour a unit card can carry.
#[derive(Debug, Clone, Copy, PartialEq, Eq, Structural)]
pub enum SpecialTrait {
    Assassin,
}

/// A unit card in a player's hand: a unit type together with the stats it
/// will fight with once placed.
#[derive(Debug, Clone, Copy, PartialEq, Eq, Structural)]
pub struct Card {
    pub unit_type: UnitType,
    pub stats: UnitStats,
    pub rarity: Rarity,
    pub special_trait: Option<SpecialTrait>,
}

/// A stats record, by field order: movement speed, attack duration, attack
/// range, attack damage, starting health, crit chance.
pub open spec fn mk_stats(ms: u16, dur: u16, range: u16, dmg: u16, hp: u16, crit: u8) -> UnitStats {
    UnitStats {
        movement_speed: ms,
        attack_duration: dur,
        attack_range: range,
        attack_damage: dmg,
        starting_health: hp,
        crit_chance: crit,
    }
}

/// Executable counterpart of `mk_stats`.
fn stats_of(ms: u16, dur: u16, range: u16, dmg: u16, hp: u16, crit: u8) -> (r: UnitStats)
    ensures
        r == mk_stats(ms, dur, range, dmg, hp, crit),
{
    UnitStats {
        movement_speed: ms,
        attack_duration: dur,
        attack_range: range,
        attack_damage: dmg,
        starting_health: hp,
        crit_chance: crit,
    }
}

/// The basic catalog entry for a unit type: the stats used when no rarity
/// tier is in play. `Hidden` units have no entry.
pub open spec fn spec_unit_stats(unit_type: UnitType) -> Option<UnitStats> {
    match unit_type {
        UnitType::Wolf => Some(mk_stats(40, 4, 125, 15, 100, 50)),
        UnitType::Bear => Some(mk_stats(15, 6, 150, 10, 250, 20)),
        UnitType::Bull => Some(mk_stats(25, 7, 150, 25, 150, 20)),
        UnitType::Hidden { .. } => None,
    }
}

/// Look up the basic catalog entry for a unit type.
pub fn lookup_unit_stats(unit_type: UnitType) -> (r: Option<UnitStats>)
    ensures
        r == spec_unit_stats(unit_type),
{
    match unit_type {
        UnitType::Wolf => Some(stats_of(40, 4, 125, 15, 100, 50)),
        UnitType::Bear => Some(stats_of(15, 6, 150, 10, 250, 20)),
        UnitType::Bull => Some(stats_of(25, 7, 150, 25, 150, 20)),
        UnitType::Hidden { .. } => None,
    }
}

/// The basic catalog as a table of (unit type, stats) pairs, ordered as the
/// unit types are declared.
pub fn get_unit_map() -> (r: Vec<(UnitType, UnitStats)>)
    ensures
        r@.len() == 3,
        r@[0] == (UnitType::Wolf, spec_unit_stats(UnitType::Wolf).unwrap()),
        r@[1] == (UnitType::Bull, spec_unit_stats(UnitType::Bull).unwrap()),
        r@[2] == (UnitType::Bear, spec_unit_stats(UnitType::Bear).unwrap()),
{
    let mut units: Vec<(UnitType, UnitStats)> = Vec::new();
    units.push((UnitType::Wolf, stats_of(40, 4, 125, 15, 100, 50)));
    units.push((UnitType::Bull, stats_of(25, 7, 150, 25, 150, 20)));
    units.push((UnitType::Bear, stats_of(15, 6, 150, 10, 250, 20)));
    units
}

/// The extended catalog entry for a unit type at a rarity tier. `Hidden`
/// units have no entry at any tier.
pub open spec fn spec_baseline_unit_stats(unit_type: UnitType, rarity: Rarity) -> Option<
    UnitStats,
> {
    match unit_type {
        UnitType::Wolf => Some(
            match rarity {
                Rarity::Common => mk_stats(50, 4, 125, 15, 100, 22),
                Rarity::Uncommon => mk_stats(52, 4, 125, 16, 105, 26),
                Rarity::Rare => mk_stats(54, 4, 125, 18, 110, 30),
                Rarity::Epic => mk_stats(56, 4, 125, 19, 115, 35),
                Rarity::Legendary => mk_stats(58, 4, 125, 20, 120, 37),
                Rarity::Mythic => mk_stats(60, 3, 125, 21, 125, 42),
            },
        ),
        UnitType::Bull => Some(
            match rarity {
                Rarity::Common => mk_stats(25, 7, 150, 20, 150, 15),
                Rarity::Uncommon => mk_stats(25, 7, 155, 22, 155, 17),
                Rarity::Rare => mk_stats(25, 7, 155, 25, 160, 17),
                Rarity::Epic => mk_stats(25, 7, 155, 27, 165, 17),
                Rarity::Legendary => mk_stats(25, 7, 155, 29, 170, 17),
                Rarity::Mythic => mk_stats(25, 7, 155, 32, 175, 17),
            },
        ),
        UnitType::Bear => Some(
            match rarity {
                Rarity::Common => mk_stats(15, 6, 150, 8, 230, 15),
                Rarity::Uncommon => mk_stats(15, 6, 150, 10, 250, 15),
                Rarity::Rare => mk_stats(15, 6, 150, 12, 270, 15),
                Rarity::Epic => mk_stats(15, 6, 150, 14, 290, 15),
                Rarity::Legendary => mk_stats(15, 6, 150, 15, 310, 15),
                Rarity::Mythic => mk_stats(15, 6, 150, 16, 330, 15),
            },
        ),
        UnitType::Hidden { .. } => None,
    }
}

/// Look up the stats of a unit type at a rarity tier.
pub fn get_baseline_unit_stats(unit_type: UnitType, rarity: Rarity) -> (r: Option<UnitStats>)
    ensures
        r == spec_baseline_unit_stats(unit_type, rarity),
{
    match unit_type {
        UnitType::Wolf => Some(
            match rarity {
                Rarity::Common => stats_of(50, 4, 125, 15, 100, 22),
                Rarity::Uncommon => stats_of(52, 4, 125, 16, 105, 26),
                Rarity::Rare => stats_of(54, 4, 125, 18, 110, 30),
                Rarity::Epic => stats_of(56, 4, 125, 19, 115, 35),
                Rarity::Legendary => stats_of(58, 4, 125, 20, 120, 37),
                Rarity::Mythic => stats_of(60, 3, 125, 21, 125, 42),
            },
        ),
        UnitType::Bull => Some(
            match rarity {
                Rarity::Common => stats_of(25, 7, 150, 20, 150, 15),
                Rarity::Uncommon => stats_of(25, 7, 155, 22, 155, 17),
                Rarity::Rare => stats_of(25, 7, 155, 25, 160, 17),
                Rarity::Epic => stats_of(25, 7, 155, 27, 165, 17),
                Rarity::Legendary => stats_of(25, 7, 155, 29, 170, 17),
                Rarity::Mythic => stats_of(25, 7, 155, 32, 175, 17),
            },
        ),
        UnitType::Bear => Some(
            match rarity {
                Rarity::Common => stats_of(15, 6, 150, 8, 230, 15),
                Rarity::Uncommon => stats_of(15, 6, 150, 10, 250, 15),
                Rarity::Rare => stats_of(15, 6, 150, 12, 270, 15),
                Rarity::Epic => stats_of(15, 6, 150, 14, 290, 15),
                Rarity::Legendary => stats_of(15, 6, 150, 15, 310, 15),
                Rarity::Mythic => stats_of(15, 6, 150, 16, 330, 15),
            },
        ),
        UnitType::Hidden { .. } => None,
    }
}

} // verus!
