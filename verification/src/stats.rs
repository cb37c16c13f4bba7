use vstd::prelude::*;

verus! {

/// Hit points of a fighter.
#[derive(Clone, Copy, PartialEq, Eq, Structural, Debug)]
pub struct Health {
    pub current: i32,
    pub max: i32,
}

impl Health {
    /// Full health with the given maximum.
    pub fn new(max: i32) -> (h: Self)
        ensures
            h.current == max,
            h.max == max,
    {
        Self { current: max, max }
    }
}

/// Attack strength of a fighter.
#[derive(Clone, Copy, PartialEq, Eq, Structural, Debug)]
pub struct Attack(pub i32);

/// Defense of a fighter.
#[derive(Clone, Copy, PartialEq, Eq, Structural, Debug)]
pub struct Defense(pub i32);

/// Score of the current run.
#[derive(Clone, Copy, PartialEq, Eq, Structural, Debug)]
pub struct GameScore {
    pub score: u32,
    pub kills: u32,
}

impl Default for GameScore {
    /// No points, no kills.
    fn default() -> (s: Self)
        ensures
            s.score == 0,
            s.kills == 0,
    {
        GameScore { score: 0, kills: 0 }
    }
}

/// The floor being played, counted from 1.
#[derive(Clone, Copy, PartialEq, Eq, Structural, Debug)]
pub struct CurrentLevel(pub u32);

impl Default for CurrentLevel {
    /// The first floor.
    fn default() -> (l: Self)
        ensures
            l.0 == 1,
    {
        CurrentLevel(1)
    }
}

/// The player's statistics, kept across floors. Stamina is counted in whole
/// points and the shield's recovery time in milliseconds.
#[derive(Clone, Copy, PartialEq, Eq, Structural, Debug)]
pub struct PlayerStats {
    pub hp: i32,
    pub max_hp: i32,
    pub attack: i32,
    pub defense: i32,
    pub stamina: u32,
    pub max_stamina: u32,
    pub is_blocking: bool,
    pub shield_broken: bool,
    pub shield_recovery: u32,
}

/// The statistics a run starts with.
pub open spec fn initial_stats() -> PlayerStats {
    PlayerStats {
        hp: 30,
        max_hp: 30,
        attack: 5,
        defense: 2,
        stamina: 100,
        max_stamina: 100,
        is_blocking: false,
        shield_broken: false,
        shield_recovery: 0,
    }
}

impl Default for PlayerStats {
    /// 30 of 30 hit points, attack 5, defense 2, full stamina, shield ready.
    fn default() -> (s: Self)
        ensures
            s == initial_stats(),
    {
        Self {
            hp: 30,
            max_hp: 30,
            attack: 5,
            defense: 2,
            stamina: 100,
            max_stamina: 100,
            is_blocking: false,
            shield_broken: false,
            shield_recovery: 0,
        }
    }
}

/// Hit points after healing `amount` from `hp`, capped at `max_hp`.
pub open spec fn healed(hp: int, max_hp: int, amount: int) -> int {
    if hp + amount <= max_hp {
        hp + amount
    } else {
        max_hp
    }
}

/// Heals the player by `amount`, never beyond its maximum; the rest of its
/// statistics are unchanged.
pub fn heal_player(stats: &mut PlayerStats, amount: i32)
    requires
        i32::MIN <= old(stats).hp + amount <= i32::MAX,
    ensures
        *final(stats) == (PlayerStats {
            hp: healed(old(stats).hp as int, old(stats).max_hp as int, amount as int) as i32,
            ..*old(stats)
        }),
{
    let sum = stats.hp + amount;
    stats.hp = if sum <= stats.max_hp {
        sum
    } else {
        stats.max_hp
    };
}

/// Healing keeps the player at or below its maximum, and a positive amount
/// never takes hit points away from a player at or below its maximum.
pub proof fn lemma_heal_bounded(hp: int, max_hp: int, amount: int)
    requires
        hp <= max_hp,
        0 <= amount,
    ensures
        healed(hp, max_hp, amount) <= max_hp,
        hp <= healed(hp, max_hp, amount),
{
}

} // verus!
