use vstd::prelude::*;
use crate::map::GameMap;
use crate::rng::random_below;
use crate::stats::{Attack, Defense, GameScore, Health};

verus! {

/// Largest bonus the player's blow can roll.
pub const PLAYER_ROLL_MAX: i32 = 3;
/// Largest bonus a monster's blow can roll.
pub const ENEMY_ROLL_MAX: i32 = 2;
/// Points for killing the boss.
pub const BOSS_POINTS: u32 = 150;
/// Points for killing an ordinary monster.
pub const MONSTER_POINTS: u32 = 10;

/// Damage of a blow: attack minus defense plus the rolled bonus, but never
/// less than one.
pub open spec fn strike_spec(attack: int, defense: int, roll: int) -> int {
    if attack - defense + roll >= 1 {
        attack - defense + roll
    } else {
        1
    }
}

/// A blow with a bonus of up to `max_roll` can be computed in an `i32`.
pub open spec fn strike_fits(attack: int, defense: int, max_roll: int) -> bool {
    &&& i32::MIN <= attack - defense <= i32::MAX
    &&& attack - defense + max_roll <= i32::MAX
}

/// Damage of a blow with the given bonus.
pub fn strike(attack: i32, defense: i32, roll: i32) -> (d: i32)
    requires
        i32::MIN <= attack - defense <= i32::MAX,
        i32::MIN <= attack - defense + roll <= i32::MAX,
    ensures
        d == strike_spec(attack as int, defense as int, roll as int),
{
    let raw = attack - defense + roll;
    if raw >= 1 {
        raw
    } else {
        1
    }
}

/// Rolls a bonus from `0..=max_roll` and returns the damage of the blow.
pub fn roll_strike(rng: &mut rand::rngs::ThreadRng, attack: i32, defense: i32, max_roll: i32) -> (d:
    i32)
    requires
        0 <= max_roll < i32::MAX,
        strike_fits(attack as int, defense as int, max_roll as int),
    ensures
        exists|r: int| 0 <= r <= max_roll && d == #[trigger] strike_spec(attack as int, defense as int, r),
{
    let roll = random_below(rng, 0, max_roll as usize + 1) as i32;
    let d = strike(attack, defense, roll);
    assert(d == strike_spec(attack as int, defense as int, roll as int));
    d
}

/// Every blow deals at least one point of damage, and a better roll never
/// deals less.
pub proof fn lemma_strike_positive_monotone(attack: int, defense: int, r1: int, r2: int)
    requires
        r1 <= r2,
    ensures
        1 <= strike_spec(attack, defense, r1) <= strike_spec(attack, defense, r2),
{
}

/// The damage of a blow is the larger of one and `attack - defense + roll`:
/// it is at least one and at least that sum, and is one of the two; it
/// depends only on the difference between attack and defense, and each
/// point more of roll or attack adds one point of damage once the sum
/// exceeds one.
pub proof fn lemma_strike_is_max_of_one_and_sum(attack: int, defense: int, roll: int, k: int)
    ensures
        strike_spec(attack, defense, roll) >= 1,
        strike_spec(attack, defense, roll) >= attack - defense + roll,
        strike_spec(attack, defense, roll) == 1 || strike_spec(attack, defense, roll) == attack
            - defense + roll,
        strike_spec(attack + k, defense + k, roll) == strike_spec(attack, defense, roll),
        attack - defense + roll >= 1 ==> strike_spec(attack, defense, roll + 1) == strike_spec(
            attack,
            defense,
            roll,
        ) + 1,
        attack - defense + roll >= 1 ==> strike_spec(attack + 1, defense, roll) == strike_spec(
            attack,
            defense,
            roll,
        ) + 1,
{
}

/// Records a kill: ten points for a monster, one hundred and fifty for the
/// boss, whose death also opens the way to the ladder.
pub fn record_kill(score: &mut GameScore, map: &mut GameMap, is_boss: bool)
    requires
        old(score).score + (if is_boss { BOSS_POINTS } else { MONSTER_POINTS }) <= u32::MAX,
        old(score).kills < u32::MAX,
    ensures
        final(score).score == old(score).score + if is_boss {
            BOSS_POINTS
        } else {
            MONSTER_POINTS
        },
        final(score).kills == old(score).kills + 1,
        final(map).boss_dead == (old(map).boss_dead || is_boss),
        final(map).tiles@ == old(map).tiles@,
        final(map).fog@ == old(map).fog@,
        final(map).rooms@ == old(map).rooms@,
        final(map).width == old(map).width,
        final(map).height == old(map).height,
{
    if is_boss {
        map.boss_dead = true;
        score.score += BOSS_POINTS;
    } else {
        score.score += MONSTER_POINTS;
    }
    score.kills += 1;
}

/// Where a monster stands in winding up its blow.
#[derive(Clone, Copy, PartialEq, Eq, Structural, Debug)]
pub enum WindUpPhase {
    /// Not winding up.
    Idle,
    /// Winding up: the blow is announced and the player can still dodge.
    Winding,
    /// The wind-up is over: the blow falls now.
    Ready,
}

/// What happened between the player and one monster in one frame.
#[derive(Clone, Copy, PartialEq, Eq, Structural, Debug)]
pub struct CombatOutcome {
    /// The player's blow landed on the monster.
    pub enemy_hit: bool,
    /// The monster began to wind up a blow.
    pub wind_up_started: bool,
    /// The monster's wound-up blow landed on the player.
    pub player_hit: bool,
    /// The monster's wind-up is over, whether its blow landed or was dodged.
    pub wind_up_ended: bool,
    /// The monster is dead and must be removed.
    pub killed: bool,
}

/// The largest damage the player's blow can deal to this monster.
pub open spec fn player_blow_max(p_atk: Attack, e_def: Defense) -> int {
    strike_spec(p_atk.0 as int, e_def.0 as int, PLAYER_ROLL_MAX as int)
}

/// The monster may die this frame: it has no hit points left, or the player's
/// blow lands and its largest damage would finish it.
pub open spec fn kill_possible(
    p_atk: Attack,
    enemy: Health,
    e_def: Defense,
    in_range: bool,
    can_attack: bool,
) -> bool {
    enemy.current <= 0 || (in_range && can_attack && enemy.current <= player_blow_max(p_atk, e_def))
}

/// The arithmetic of one exchange fits its integer types: each blow that may
/// land, the hit points it is taken from, and the score of a kill that may
/// follow.
pub open spec fn exchange_fits(
    player: Health,
    p_atk: Attack,
    p_def: Defense,
    enemy: Health,
    e_atk: Attack,
    e_def: Defense,
    is_boss: bool,
    in_range: bool,
    can_attack: bool,
    phase: WindUpPhase,
    score: GameScore,
) -> bool {
    &&& (in_range && can_attack) ==> {
        &&& strike_fits(p_atk.0 as int, e_def.0 as int, PLAYER_ROLL_MAX as int)
        &&& i32::MIN <= enemy.current - player_blow_max(p_atk, e_def)
    }
    &&& (in_range && phase == WindUpPhase::Ready) ==> {
        &&& strike_fits(e_atk.0 as int, p_def.0 as int, ENEMY_ROLL_MAX as int)
        &&& i32::MIN <= player.current - strike_spec(
            e_atk.0 as int,
            p_def.0 as int,
            ENEMY_ROLL_MAX as int,
        )
    }
    &&& kill_possible(p_atk, enemy, e_def, in_range, can_attack) ==> {
        &&& score.score + (if is_boss { BOSS_POINTS } else { MONSTER_POINTS }) <= u32::MAX
        &&& score.kills < u32::MAX
    }
}

/// The wind-up flags of a frame's outcome: a monster within reach, ready to
/// strike and not winding up begins to wind up; a monster whose wind-up is
/// over ends it, and its blow lands when the player is within reach.
pub open spec fn wind_up_flags(
    out: CombatOutcome,
    in_range: bool,
    enemy_ready: bool,
    phase: WindUpPhase,
) -> bool {
    &&& out.wind_up_started == (in_range && enemy_ready && phase == WindUpPhase::Idle)
    &&& out.player_hit == (in_range && phase == WindUpPhase::Ready)
    &&& out.wind_up_ended == (phase == WindUpPhase::Ready)
}

/// The phase of a monster in the next frame: a wind-up that ended leaves it
/// idle; a wind-up begun, or one under way, is over once its timer has run
/// out (`timer_out`) and goes on otherwise.
pub open spec fn next_phase(phase: WindUpPhase, out: CombatOutcome, timer_out: bool) -> WindUpPhase {
    if out.wind_up_ended {
        WindUpPhase::Idle
    } else if out.wind_up_started || phase == WindUpPhase::Winding {
        if timer_out {
            WindUpPhase::Ready
        } else {
            WindUpPhase::Winding
        }
    } else {
        phase
    }
}

/// One frame of fighting between the player and one monster.
///
/// When the monster is within reach and the player attacks this frame, the
/// player's blow lands (damage `attack - defense + 0..=3`, at least one).
/// A monster does not strike at once: when it is within reach, its cooldown
/// is over and it is not winding up, it begins to wind up and deals no damage.
/// Its blow falls only in a later frame, once the wind-up is over: then the
/// wind-up ends, and the blow lands (damage `attack - defense + 0..=2`, at
/// least one) if the player is still within reach, or is dodged otherwise.
/// A monster left with no hit points, in reach or not, is killed and scored.
pub fn combat_system(
    rng: &mut rand::rngs::ThreadRng,
    player: &mut Health,
    p_atk: &Attack,
    p_def: &Defense,
    enemy: &mut Health,
    e_atk: &Attack,
    e_def: &Defense,
    is_boss: bool,
    in_range: bool,
    can_attack: bool,
    enemy_ready: bool,
    phase: WindUpPhase,
    score: &mut GameScore,
    map: &mut GameMap,
) -> (out: CombatOutcome)
    requires
        exchange_fits(
            *old(player),
            *p_atk,
            *p_def,
            *old(enemy),
            *e_atk,
            *e_def,
            is_boss,
            in_range,
            can_attack,
            phase,
            *old(score),
        ),
    ensures
        out.enemy_hit == (in_range && can_attack),
        wind_up_flags(out, in_range, enemy_ready, phase),
        out.enemy_hit ==> exists|r: int|
            0 <= r <= PLAYER_ROLL_MAX && final(enemy).current == old(enemy).current
                - #[trigger] strike_spec(p_atk.0 as int, e_def.0 as int, r),
        !out.enemy_hit ==> final(enemy).current == old(enemy).current,
        out.player_hit ==> exists|r: int|
            0 <= r <= ENEMY_ROLL_MAX && final(player).current == old(player).current
                - #[trigger] strike_spec(e_atk.0 as int, p_def.0 as int, r),
        !out.player_hit ==> final(player).current == old(player).current,
        final(enemy).max == old(enemy).max,
        final(player).max == old(player).max,
        out.killed == (final(enemy).current <= 0),
        out.killed ==> final(score).score == old(score).score + (if is_boss {
            BOSS_POINTS
        } else {
            MONSTER_POINTS
        }) && final(score).kills == old(score).kills + 1 && final(map).boss_dead == (
        old(map).boss_dead || is_boss),
        !out.killed ==> *final(score) == *old(score) && final(map).boss_dead == old(map).boss_dead,
        final(map).tiles@ == old(map).tiles@,
        final(map).fog@ == old(map).fog@,
        final(map).rooms@ == old(map).rooms@,
        final(map).width == old(map).width,
        final(map).height == old(map).height,
{
    let enemy_hit = in_range && can_attack;
    let wind_up_started = in_range && enemy_ready && phase == WindUpPhase::Idle;
    let player_hit = in_range && phase == WindUpPhase::Ready;
    let wind_up_ended = phase == WindUpPhase::Ready;
    if enemy_hit {
        let dmg = roll_strike(rng, p_atk.0, e_def.0, PLAYER_ROLL_MAX);
        proof {
            let r = choose|r: int|
                0 <= r <= PLAYER_ROLL_MAX && dmg == #[trigger] strike_spec(
                    p_atk.0 as int,
                    e_def.0 as int,
                    r,
                );
            lemma_strike_positive_monotone(p_atk.0 as int, e_def.0 as int, r, PLAYER_ROLL_MAX as int);
        }
        enemy.current = enemy.current - dmg;
    }
    if player_hit {
        let dmg = roll_strike(rng, e_atk.0, p_def.0, ENEMY_ROLL_MAX);
        proof {
            let r = choose|r: int|
                0 <= r <= ENEMY_ROLL_MAX && dmg == #[trigger] strike_spec(
                    e_atk.0 as int,
                    p_def.0 as int,
                    r,
                );
            lemma_strike_positive_monotone(e_atk.0 as int, p_def.0 as int, r, ENEMY_ROLL_MAX as int);
        }
        player.current = player.current - dmg;
    }
    let killed = enemy.current <= 0;
    if killed {
        record_kill(score, map, is_boss);
    }
    CombatOutcome { enemy_hit, wind_up_started, player_hit, wind_up_ended, killed }
}

/// A monster never hurts the player in the frame in which it begins to wind
/// up: damage needs a wind-up that is already over.
pub proof fn lemma_no_blow_without_wind_up(
    out: CombatOutcome,
    in_range: bool,
    enemy_ready: bool,
    phase: WindUpPhase,
)
    requires
        wind_up_flags(out, in_range, enemy_ready, phase),
    ensures
        out.wind_up_started ==> !out.player_hit,
{
}

/// Over the frames of a monster that starts idle, where each frame's outcome
/// is the one `combat_system` gives and each next phase follows from it, the
/// monster is winding up only after a frame in which it began to, and it is
/// ready to strike only once a wind-up begun in an earlier or the same frame
/// has seen its timer run out.
proof fn lemma_wind_up_history(
    in_range: Seq<bool>,
    enemy_ready: Seq<bool>,
    phases: Seq<WindUpPhase>,
    outs: Seq<CombatOutcome>,
    timer_out: Seq<bool>,
    k: int,
)
    requires
        0 <= k < phases.len(),
        in_range.len() == phases.len(),
        enemy_ready.len() == phases.len(),
        outs.len() == phases.len(),
        timer_out.len() == phases.len(),
        phases[0] == WindUpPhase::Idle,
        forall|i: int|
            0 <= i < phases.len() ==> #[trigger] wind_up_flags(
                outs[i],
                in_range[i],
                enemy_ready[i],
                phases[i],
            ),
        forall|i: int|
            0 <= i < phases.len() - 1 ==> #[trigger] phases[i + 1] == next_phase(
                phases[i],
                outs[i],
                timer_out[i],
            ),
    ensures
        phases[k] == WindUpPhase::Winding ==> exists|j: int| 0 <= j < k && #[trigger] outs[j].wind_up_started,
        phases[k] == WindUpPhase::Ready ==> exists|j: int, t: int|
            0 <= j <= t < k && #[trigger] outs[j].wind_up_started && #[trigger] timer_out[t],
    decreases k,
{
    if k > 0 {
        lemma_wind_up_history(in_range, enemy_ready, phases, outs, timer_out, k - 1);
        let p = k - 1;
        assert(phases[p + 1] == next_phase(phases[p], outs[p], timer_out[p]));
        assert(wind_up_flags(outs[p], in_range[p], enemy_ready[p], phases[p]));
        if !outs[p].wind_up_ended && outs[p].wind_up_started {
            if timer_out[p] {
                assert(outs[p].wind_up_started && timer_out[p]);
            } else {
                assert(outs[p].wind_up_started);
            }
        } else if !outs[p].wind_up_ended && phases[p] == WindUpPhase::Winding {
            let j = choose|j: int| 0 <= j < p && #[trigger] outs[j].wind_up_started;
            if timer_out[p] {
                assert(outs[j].wind_up_started && timer_out[p]);
            } else {
                assert(outs[j].wind_up_started);
            }
        }
    }
}

/// A monster that starts idle hurts the player only after it has wound up:
/// in any run of frames whose outcomes are those of `combat_system` and
/// whose phases follow one another as `next_phase` says, every frame in
/// which its blow lands comes after a frame in which it began to wind up and
/// after the wind-up's timer ran out; it never lands in the frame in which
/// the wind-up begins.
pub proof fn lemma_blow_follows_wind_up(
    in_range: Seq<bool>,
    enemy_ready: Seq<bool>,
    phases: Seq<WindUpPhase>,
    outs: Seq<CombatOutcome>,
    timer_out: Seq<bool>,
)
    requires
        phases.len() >= 1,
        in_range.len() == phases.len(),
        enemy_ready.len() == phases.len(),
        outs.len() == phases.len(),
        timer_out.len() == phases.len(),
        phases[0] == WindUpPhase::Idle,
        forall|i: int|
            0 <= i < phases.len() ==> #[trigger] wind_up_flags(
                outs[i],
                in_range[i],
                enemy_ready[i],
                phases[i],
            ),
        forall|i: int|
            0 <= i < phases.len() - 1 ==> #[trigger] phases[i + 1] == next_phase(
                phases[i],
                outs[i],
                timer_out[i],
            ),
    ensures
        forall|k: int|
            0 <= k < phases.len() && (#[trigger] outs[k]).player_hit ==> !outs[k].wind_up_started
                && exists|j: int, t: int|
                0 <= j <= t < k && #[trigger] outs[j].wind_up_started && #[trigger] timer_out[t],
{
    assert forall|k: int| 0 <= k < phases.len() && (#[trigger] outs[k]).player_hit implies !outs[k].wind_up_started
        && exists|j: int, t: int|
        0 <= j <= t < k && #[trigger] outs[j].wind_up_started && #[trigger] timer_out[t] by {
        assert(wind_up_flags(outs[k], in_range[k], enemy_ready[k], phases[k]));
        lemma_wind_up_history(in_range, enemy_ready, phases, outs, timer_out, k);
    }
}

} // verus!
