use vstd::prelude::*;
use crate::map::NUM_LEVELS;
use crate::stats::{healed, CurrentLevel, GameScore, Health, PlayerStats};

verus! {

/// The screens of the game.
#[derive(Clone, Copy, PartialEq, Eq, Structural, Debug)]
pub enum GameState {
    MainMenu,
    Playing,
    /// One-frame bridge state so re-entering Playing always triggers OnExit/OnEnter.
    LevelTransition,
    GameOver,
    Victory,
}

impl Default for GameState {
    /// The game opens on the main menu.
    fn default() -> (s: Self)
        ensures
            s == GameState::MainMenu,
    {
        GameState::MainMenu
    }
}

/// Hit points regained when descending to the next floor.
pub const DESCENT_HEAL: i32 = 8;

/// Points for reaching the ladder.
pub const LADDER_POINTS: u32 = 50;

/// Moves on to the next floor: the floor number goes up by one and the player
/// regains eight hit points, up to its maximum. Play resumes.
pub fn transition_level(current_level: &mut CurrentLevel, player_stats: &mut PlayerStats) -> (next:
    GameState)
    requires
        old(current_level).0 < u32::MAX,
        old(player_stats).hp + DESCENT_HEAL <= i32::MAX,
    ensures
        final(current_level).0 == old(current_level).0 + 1,
        *final(player_stats) == (PlayerStats {
            hp: healed(
                old(player_stats).hp as int,
                old(player_stats).max_hp as int,
                DESCENT_HEAL as int,
            ) as i32,
            ..*old(player_stats)
        }),
        next == GameState::Playing,
{
    current_level.0 += 1;
    let sum = player_stats.hp + DESCENT_HEAL;
    player_stats.hp = if sum <= player_stats.max_hp {
        sum
    } else {
        player_stats.max_hp
    };
    GameState::Playing
}

/// The screen that follows reaching the ladder of floor `level`: victory on
/// the last floor (or beyond), the next floor otherwise.
pub open spec fn after_ladder(level: u32) -> GameState {
    if level >= NUM_LEVELS {
        GameState::Victory
    } else {
        GameState::LevelTransition
    }
}

/// The ladder once the boss is dead: it shows, and stepping on it scores
/// fifty points and leads to victory on the last floor, to the next floor
/// before it. While the boss lives, the ladder stays hidden and does nothing.
/// Returns whether the ladder shows and the screen that follows, if any.
pub fn check_ladder(
    boss_dead: bool,
    on_ladder: bool,
    current_level: &CurrentLevel,
    score: &mut GameScore,
) -> (res: (bool, Option<GameState>))
    requires
        (boss_dead && on_ladder) ==> old(score).score + LADDER_POINTS <= u32::MAX,
    ensures
        res.0 == boss_dead,
        (boss_dead && on_ladder) ==> final(score).score == old(score).score + LADDER_POINTS
            && final(score).kills == old(score).kills && res.1 == Some(
            after_ladder(current_level.0),
        ),
        !(boss_dead && on_ladder) ==> *final(score) == *old(score) && res.1.is_none(),
{
    let show_ladder = boss_dead;
    if boss_dead && on_ladder {
        score.score += LADDER_POINTS;
        if current_level.0 >= NUM_LEVELS {
            (show_ladder, Some(GameState::Victory))
        } else {
            (show_ladder, Some(GameState::LevelTransition))
        }
    } else {
        (show_ladder, None)
    }
}

/// Copies the player's health into its statistics; a player with no hit
/// points left loses.
pub fn check_death(hp: &Health, player_stats: &mut PlayerStats) -> (next: Option<GameState>)
    ensures
        *final(player_stats) == (PlayerStats { hp: hp.current, ..*old(player_stats) }),
        next == if hp.current <= 0 {
            Some(GameState::GameOver)
        } else {
            None
        },
{
    player_stats.hp = hp.current;
    if hp.current <= 0 {
        Some(GameState::GameOver)
    } else {
        None
    }
}

/// On the main menu, pressing start begins a new run: fresh statistics, no
/// score, the first floor.
pub fn menu_input(
    start_pressed: bool,
    player_stats: &mut PlayerStats,
    score: &mut GameScore,
    current_level: &mut CurrentLevel,
) -> (next: Option<GameState>)
    ensures
        start_pressed ==> *final(player_stats) == crate::stats::initial_stats(),
        start_pressed ==> final(score).score == 0 && final(score).kills == 0,
        start_pressed ==> final(current_level).0 == 1,
        start_pressed ==> next == Some(GameState::Playing),
        !start_pressed ==> *final(player_stats) == *old(player_stats),
        !start_pressed ==> *final(score) == *old(score),
        !start_pressed ==> *final(current_level) == *old(current_level),
        !start_pressed ==> next.is_none(),
{
    if start_pressed {
        *player_stats = PlayerStats::default();
        *score = GameScore::default();
        *current_level = CurrentLevel(1);
        Some(GameState::Playing)
    } else {
        None
    }
}

/// On the game-over and victory screens, pressing start returns to the menu.
pub fn end_screen_input(start_pressed: bool) -> (next: Option<GameState>)
    ensures
        next == if start_pressed {
            Some(GameState::MainMenu)
        } else {
            None
        },
{
    if start_pressed {
        Some(GameState::MainMenu)
    } else {
        None
    }
}

/// Direction of movement from the keys held: up adds one to y, down takes one
/// away, left takes one from x, right adds one; opposite keys cancel.
pub fn player_input(up: bool, down: bool, left: bool, right: bool) -> (dir: (i32, i32))
    ensures
        dir.0 == (if right { 1int } else { 0 }) - (if left { 1int } else { 0 }),
        dir.1 == (if up { 1int } else { 0 }) - (if down { 1int } else { 0 }),
{
    let mut dx: i32 = 0;
    let mut dy: i32 = 0;
    if up {
        dy += 1;
    }
    if down {
        dy -= 1;
    }
    if left {
        dx -= 1;
    }
    if right {
        dx += 1;
    }
    (dx, dy)
}

/// Victory comes only from the ladder of the last floor: no ladder before
/// floor `NUM_LEVELS` leads to it, and the ladder of the last floor always does.
pub proof fn lemma_victory_only_on_last_floor(level: u32)
    ensures
        (after_ladder(level) == GameState::Victory) == (level >= NUM_LEVELS),
        after_ladder(level) != GameState::GameOver,
{
}

} // verus!
