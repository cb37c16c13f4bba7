use vstd::prelude::*;
use crate::rng::random_below;
use crate::stats::{heal_player, healed, GameScore, PlayerStats};

verus! {

/// The spells a scroll can hold.
#[derive(Clone, Copy, PartialEq, Eq, Structural, Debug)]
pub enum SpellType {
    Fireball,
    IceShard,
    VenomCloud,
}

/// What the player can pick up.
#[derive(Clone, Copy, PartialEq, Eq, Structural, Debug)]
pub enum ItemType {
    Weapon,
    Armor,
    Potion,
    Coins(u32),
    SpellScroll(SpellType),
}

/// An item lying on the floor.
#[derive(Clone, Copy, PartialEq, Eq, Structural, Debug)]
pub struct Item(pub ItemType);

/// Hit points a potion restores.
pub const POTION_HEAL: i32 = 10;

/// Points for picking up equipment, a potion, or anything from a chest.
pub const PICKUP_POINTS: u32 = 5;

/// Statistics and score after picking up `item`: a weapon adds one attack, an
/// armor one defense, a potion heals ten hit points (up to the maximum), each
/// for five points; coins add their value to the score; a spell scroll
/// changes nothing here.
pub open spec fn item_effect(item: ItemType, stats: PlayerStats, score: GameScore) -> (
    PlayerStats,
    GameScore,
) {
    match item {
        ItemType::Weapon => (
            PlayerStats { attack: (stats.attack + 1) as i32, ..stats },
            GameScore { score: (score.score + 5) as u32, ..score },
        ),
        ItemType::Armor => (
            PlayerStats { defense: (stats.defense + 1) as i32, ..stats },
            GameScore { score: (score.score + 5) as u32, ..score },
        ),
        ItemType::Potion => (
            PlayerStats {
                hp: healed(stats.hp as int, stats.max_hp as int, POTION_HEAL as int) as i32,
                ..stats
            },
            GameScore { score: (score.score + 5) as u32, ..score },
        ),
        ItemType::Coins(n) => (stats, GameScore { score: (score.score + n) as u32, ..score }),
        ItemType::SpellScroll(_) => (stats, score),
    }
}

/// Picking up `item` keeps every statistic and the score within its type.
pub open spec fn item_fits(item: ItemType, stats: PlayerStats, score: GameScore) -> bool {
    match item {
        ItemType::Weapon => stats.attack < i32::MAX && score.score + 5 <= u32::MAX,
        ItemType::Armor => stats.defense < i32::MAX && score.score + 5 <= u32::MAX,
        ItemType::Potion => stats.hp + POTION_HEAL <= i32::MAX && score.score + 5 <= u32::MAX,
        ItemType::Coins(n) => score.score + n <= u32::MAX,
        ItemType::SpellScroll(_) => true,
    }
}

/// Applies a picked-up item to the player and the score. Returns whether the
/// player was healed, so that its health on the map can follow.
pub fn apply_item(item: &ItemType, stats: &mut PlayerStats, score: &mut GameScore) -> (was_healed:
    bool)
    requires
        item_fits(*item, *old(stats), *old(score)),
    ensures
        (*final(stats), *final(score)) == item_effect(*item, *old(stats), *old(score)),
        was_healed == (*item == ItemType::Potion),
{
    match item {
        ItemType::Weapon => {
            stats.attack += 1;
            score.score += 5;
            false
        },
        ItemType::Armor => {
            stats.defense += 1;
            score.score += 5;
            false
        },
        ItemType::Potion => {
            heal_player(stats, POTION_HEAL);
            score.score += 5;
            true
        },
        ItemType::Coins(n) => {
            score.score += *n;
            false
        },
        ItemType::SpellScroll(_) => false,
    }
}

/// What a chest holds.
#[derive(Clone, Copy, PartialEq, Eq, Structural, Debug)]
pub enum Loot {
    /// One more point of attack.
    Attack,
    /// One more point of defense.
    Defense,
    /// Healing of this many hit points.
    Heal(i32),
    /// This many points.
    Coins(u32),
}

/// A chest's content as the draws can produce it: a heal of 6 to 12 hit
/// points, or 5 to 25 points of coins.
pub open spec fn loot_ok(loot: Loot) -> bool {
    match loot {
        Loot::Heal(h) => 6 <= h <= 12,
        Loot::Coins(c) => 5 <= c <= 25,
        _ => true,
    }
}

/// Statistics and score after taking `loot` from a chest: attack or defense
/// goes up by one, or the player heals (up to its maximum), each for five
/// points; coins add their value to the score.
pub open spec fn loot_effect(loot: Loot, stats: PlayerStats, score: GameScore) -> (
    PlayerStats,
    GameScore,
) {
    match loot {
        Loot::Attack => (
            PlayerStats { attack: (stats.attack + 1) as i32, ..stats },
            GameScore { score: (score.score + 5) as u32, ..score },
        ),
        Loot::Defense => (
            PlayerStats { defense: (stats.defense + 1) as i32, ..stats },
            GameScore { score: (score.score + 5) as u32, ..score },
        ),
        Loot::Heal(h) => (
            PlayerStats { hp: healed(stats.hp as int, stats.max_hp as int, h as int) as i32, ..stats },
            GameScore { score: (score.score + 5) as u32, ..score },
        ),
        Loot::Coins(c) => (stats, GameScore { score: (score.score + c) as u32, ..score }),
    }
}

/// Taking `loot` keeps the statistics and the score within their types.
pub open spec fn loot_effect_fits(loot: Loot, stats: PlayerStats, score: GameScore) -> bool {
    match loot {
        Loot::Attack => stats.attack < i32::MAX && score.score + 5 <= u32::MAX,
        Loot::Defense => stats.defense < i32::MAX && score.score + 5 <= u32::MAX,
        Loot::Heal(h) => i32::MIN <= stats.hp + h <= i32::MAX && score.score + 5 <= u32::MAX,
        Loot::Coins(c) => score.score + c <= u32::MAX,
    }
}

/// Every content a chest can hold keeps the statistics and the score within
/// their types.
pub open spec fn loot_fits(stats: PlayerStats, score: GameScore) -> bool {
    &&& stats.attack < i32::MAX
    &&& stats.defense < i32::MAX
    &&& stats.hp + 12 <= i32::MAX
    &&& score.score + 25 <= u32::MAX
}

/// The content of a chest whose first draw (`0..4`) was `kind` and whose
/// second draw, taken only for a heal or coins, was `amount`.
pub open spec fn loot_spec(kind: int, amount: int) -> Loot {
    if kind == 0 {
        Loot::Attack
    } else if kind == 1 {
        Loot::Defense
    } else if kind == 2 {
        Loot::Heal(amount as i32)
    } else {
        Loot::Coins(amount as u32)
    }
}

/// The draws of a chest lie in their ranges: a kind in `0..4`; for a heal,
/// 6 to 12 hit points; for coins, 5 to 25 points. (The amount does not matter
/// for the other two kinds.)
pub open spec fn loot_draws_ok(kind: int, amount: int) -> bool {
    &&& 0 <= kind < 4
    &&& kind == 2 ==> 6 <= amount <= 12
    &&& kind == 3 ==> 5 <= amount <= 25
}

/// The content of a chest from its draws: 0 is one attack, 1 one defense,
/// 2 a heal of `amount` hit points, 3 `amount` points of coins.
pub fn loot_from_draws(kind: usize, amount: usize) -> (loot: Loot)
    requires
        loot_draws_ok(kind as int, amount as int),
    ensures
        loot == loot_spec(kind as int, amount as int),
        loot_ok(loot),
{
    if kind == 0 {
        Loot::Attack
    } else if kind == 1 {
        Loot::Defense
    } else if kind == 2 {
        Loot::Heal(amount as i32)
    } else {
        Loot::Coins(amount as u32)
    }
}

/// Draws the content of a chest: one of four kinds at even odds, then, for a
/// heal, 6 to 12 hit points and, for coins, 5 to 25 points.
pub fn roll_loot(rng: &mut rand::rngs::ThreadRng) -> (loot: Loot)
    ensures
        exists|kind: int, amount: int|
            loot_draws_ok(kind, amount) && loot == #[trigger] loot_spec(kind, amount),
        loot_ok(loot),
{
    let kind = random_below(rng, 0, 4);
    let amount = if kind == 2 {
        random_below(rng, 6, 13)
    } else if kind == 3 {
        random_below(rng, 5, 26)
    } else {
        0
    };
    loot_from_draws(kind, amount)
}

/// Takes the drawn content of a chest. Returns whether the player was healed.
pub fn apply_loot(loot: Loot, stats: &mut PlayerStats, score: &mut GameScore) -> (was_healed: bool)
    requires
        loot_effect_fits(loot, *old(stats), *old(score)),
    ensures
        (*final(stats), *final(score)) == loot_effect(loot, *old(stats), *old(score)),
        was_healed == (loot is Heal),
{
    match loot {
        Loot::Attack => {
            stats.attack += 1;
            score.score += 5;
            false
        },
        Loot::Defense => {
            stats.defense += 1;
            score.score += 5;
            false
        },
        Loot::Heal(h) => {
            heal_player(stats, h);
            score.score += 5;
            true
        },
        Loot::Coins(c) => {
            score.score += c;
            false
        },
    }
}

/// Opens a chest: draws its content and takes it. Returns what was drawn.
pub fn apply_random_loot(
    stats: &mut PlayerStats,
    score: &mut GameScore,
    rng: &mut rand::rngs::ThreadRng,
) -> (loot: Loot)
    requires
        loot_fits(*old(stats), *old(score)),
    ensures
        exists|kind: int, amount: int|
            loot_draws_ok(kind, amount) && loot == #[trigger] loot_spec(kind, amount),
        loot_ok(loot),
        (*final(stats), *final(score)) == loot_effect(loot, *old(stats), *old(score)),
{
    let loot = roll_loot(rng);
    apply_loot(loot, stats, score);
    loot
}

} // verus!
