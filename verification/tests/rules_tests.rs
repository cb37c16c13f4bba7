use rogue_adventure::combat::{combat_system, record_kill, roll_strike, strike, CombatOutcome, WindUpPhase};
use rogue_adventure::items::{
    apply_item, apply_loot, apply_random_loot, loot_from_draws, roll_loot, Item, ItemType, Loot, SpellType,
};
use rogue_adventure::map::GameMap;
use rogue_adventure::state::{
    check_death, check_ladder, end_screen_input, menu_input, player_input, transition_level,
    GameState,
};
use rogue_adventure::stats::{heal_player, Attack, CurrentLevel, Defense, GameScore, Health, PlayerStats};

#[test]
fn health_starts_full() {
    let h = Health::new(40);
    assert_eq!(h, Health { current: 40, max: 40 });
}

#[test]
fn default_player_stats() {
    let s = PlayerStats::default();
    assert_eq!((s.hp, s.max_hp, s.attack, s.defense), (30, 30, 5, 2));
    assert_eq!((s.stamina, s.max_stamina), (100, 100));
    assert!(!s.is_blocking && !s.shield_broken);
    assert_eq!(s.shield_recovery, 0);
    assert_eq!(GameScore::default(), GameScore { score: 0, kills: 0 });
    assert_eq!(CurrentLevel::default(), CurrentLevel(1));
    assert_eq!(GameState::default(), GameState::MainMenu);
}

#[test]
fn strike_never_below_one() {
    assert_eq!(strike(5, 2, 0), 3);
    assert_eq!(strike(5, 2, 3), 6);
    assert_eq!(strike(2, 9, 3), 1);
    assert_eq!(strike(0, 0, 0), 1);
    assert_eq!(strike(-4, 10, 2), 1);
}

#[test]
fn rolled_strike_in_range() {
    let mut rng = rand::thread_rng();
    let mut seen = [false; 4];
    for _ in 0..400 {
        let d = roll_strike(&mut rng, 5, 2, 3);
        assert!((3..=6).contains(&d));
        seen[(d - 3) as usize] = true;
    }
    assert!(seen.iter().all(|s| *s));
    for _ in 0..50 {
        assert_eq!(roll_strike(&mut rng, 1, 10, 3), 1);
    }
}

#[test]
fn heal_caps_at_max() {
    let mut s = PlayerStats::default();
    s.hp = 25;
    heal_player(&mut s, 10);
    assert_eq!(s.hp, 30);
    s.hp = 10;
    heal_player(&mut s, 8);
    assert_eq!(s.hp, 18);
    assert_eq!(s.attack, 5);
}

#[test]
fn items_apply() {
    let mut s = PlayerStats::default();
    let mut score = GameScore::default();
    assert!(!apply_item(&ItemType::Weapon, &mut s, &mut score));
    assert_eq!((s.attack, score.score), (6, 5));
    assert!(!apply_item(&ItemType::Armor, &mut s, &mut score));
    assert_eq!((s.defense, score.score), (3, 10));
    s.hp = 12;
    assert!(apply_item(&ItemType::Potion, &mut s, &mut score));
    assert_eq!((s.hp, score.score), (22, 15));
    s.hp = 28;
    assert!(apply_item(&ItemType::Potion, &mut s, &mut score));
    assert_eq!((s.hp, score.score), (30, 20));
    assert!(!apply_item(&ItemType::Coins(17), &mut s, &mut score));
    assert_eq!(score.score, 37);
    let before = s;
    assert!(!apply_item(&ItemType::SpellScroll(SpellType::Fireball), &mut s, &mut score));
    assert_eq!(s, before);
    assert_eq!(score.score, 37);
    let item = Item(ItemType::Coins(3));
    assert!(!apply_item(&item.0, &mut s, &mut score));
    assert_eq!(score.score, 40);
    assert_eq!(score.kills, 0);
}

#[test]
fn random_loot_outcomes() {
    let mut rng = rand::thread_rng();
    let mut kinds = [false; 4];
    for _ in 0..400 {
        let mut s = PlayerStats::default();
        s.hp = 10;
        let mut score = GameScore { score: 100, kills: 2 };
        let loot = apply_random_loot(&mut s, &mut score, &mut rng);
        assert_eq!(score.kills, 2);
        match loot {
            Loot::Attack => {
                kinds[0] = true;
                assert_eq!((s.attack, s.defense, s.hp, score.score), (6, 2, 10, 105));
            }
            Loot::Defense => {
                kinds[1] = true;
                assert_eq!((s.attack, s.defense, s.hp, score.score), (5, 3, 10, 105));
            }
            Loot::Heal(h) => {
                kinds[2] = true;
                assert!((6..=12).contains(&h));
                assert_eq!((s.hp, score.score), (10 + h, 105));
            }
            Loot::Coins(c) => {
                kinds[3] = true;
                assert!((5..=25).contains(&c));
                assert_eq!((s.hp, score.score), (10, 100 + c));
            }
        }
    }
    assert!(kinds.iter().all(|k| *k));
}

#[test]
fn drawn_loot_in_range() {
    let mut rng = rand::thread_rng();
    let mut heals = std::collections::HashSet::new();
    let mut coins = std::collections::HashSet::new();
    for _ in 0..3000 {
        match roll_loot(&mut rng) {
            Loot::Heal(h) => {
                assert!((6..=12).contains(&h));
                heals.insert(h);
            }
            Loot::Coins(c) => {
                assert!((5..=25).contains(&c));
                coins.insert(c);
            }
            _ => {}
        }
    }
    assert_eq!(heals.len(), 7);
    assert_eq!(coins.len(), 21);
}

#[test]
fn applying_loot() {
    let mut s = PlayerStats::default();
    let mut score = GameScore::default();
    s.hp = 25;
    assert!(apply_loot(Loot::Heal(12), &mut s, &mut score));
    assert_eq!((s.hp, score.score), (30, 5));
    assert!(!apply_loot(Loot::Coins(20), &mut s, &mut score));
    assert_eq!(score.score, 25);
    assert!(!apply_loot(Loot::Attack, &mut s, &mut score));
    assert!(!apply_loot(Loot::Defense, &mut s, &mut score));
    assert_eq!((s.attack, s.defense, score.score), (6, 3, 35));
}

#[test]
fn kills_are_scored() {
    let mut score = GameScore::default();
    let mut map = GameMap::default();
    record_kill(&mut score, &mut map, false);
    assert_eq!((score.score, score.kills, map.boss_dead), (10, 1, false));
    record_kill(&mut score, &mut map, true);
    assert_eq!((score.score, score.kills, map.boss_dead), (160, 2, true));
}

#[test]
fn combat_exchange_in_reach() {
    let mut rng = rand::thread_rng();
    for _ in 0..100 {
        let mut player = Health::new(30);
        let mut enemy = Health::new(20);
        let mut score = GameScore::default();
        let mut map = GameMap::default();
        let out = combat_system(
            &mut rng, &mut player, &Attack(5), &Defense(2), &mut enemy, &Attack(4), &Defense(1),
            false, true, true, false, WindUpPhase::Ready, &mut score, &mut map,
        );
        assert_eq!(
            out,
            CombatOutcome {
                enemy_hit: true,
                wind_up_started: false,
                player_hit: true,
                wind_up_ended: true,
                killed: false
            }
        );
        assert!((13..=16).contains(&enemy.current), "enemy at {}", enemy.current);
        assert!((26..=28).contains(&player.current), "player at {}", player.current);
        assert_eq!(score, GameScore::default());
    }
}

#[test]
fn combat_out_of_reach_does_nothing() {
    let mut rng = rand::thread_rng();
    let mut player = Health::new(30);
    let mut enemy = Health::new(20);
    let mut score = GameScore::default();
    let mut map = GameMap::default();
    let out = combat_system(
        &mut rng, &mut player, &Attack(5), &Defense(2), &mut enemy, &Attack(4), &Defense(1),
        true, false, true, true, WindUpPhase::Idle, &mut score, &mut map,
    );
    assert_eq!(
        out,
        CombatOutcome {
            enemy_hit: false,
            wind_up_started: false,
            player_hit: false,
            wind_up_ended: false,
            killed: false
        }
    );
    assert_eq!(player.current, 30);
    assert_eq!(enemy.current, 20);
}

#[test]
fn killing_the_boss() {
    let mut rng = rand::thread_rng();
    let mut player = Health::new(30);
    let mut enemy = Health { current: 2, max: 55 };
    let mut score = GameScore { score: 7, kills: 3 };
    let mut map = GameMap::default();
    let out = combat_system(
        &mut rng, &mut player, &Attack(9), &Defense(2), &mut enemy, &Attack(8), &Defense(3),
        true, true, true, false, WindUpPhase::Idle, &mut score, &mut map,
    );
    assert!(out.enemy_hit && !out.player_hit && out.killed);
    assert!(enemy.current <= 0);
    assert_eq!(player.current, 30);
    assert_eq!(score, GameScore { score: 157, kills: 4 });
    assert!(map.boss_dead);
}

#[test]
fn weak_player_still_deals_one() {
    let mut rng = rand::thread_rng();
    let mut player = Health::new(30);
    let mut enemy = Health::new(20);
    let mut score = GameScore::default();
    let mut map = GameMap::default();
    combat_system(
        &mut rng, &mut player, &Attack(1), &Defense(50), &mut enemy, &Attack(1), &Defense(50),
        false, true, true, false, WindUpPhase::Ready, &mut score, &mut map,
    );
    assert_eq!(enemy.current, 19);
    assert_eq!(player.current, 29);
}

#[test]
fn dead_enemy_out_of_reach_is_still_removed() {
    let mut rng = rand::thread_rng();
    let mut player = Health::new(30);
    let mut enemy = Health { current: 0, max: 11 };
    let mut score = GameScore::default();
    let mut map = GameMap::default();
    let out = combat_system(
        &mut rng, &mut player, &Attack(5), &Defense(2), &mut enemy, &Attack(4), &Defense(0),
        false, false, false, false, WindUpPhase::Idle, &mut score, &mut map,
    );
    assert!(out.killed);
    assert_eq!(score, GameScore { score: 10, kills: 1 });
    assert!(!map.boss_dead);
}

#[test]
fn descending_heals_and_counts() {
    let mut level = CurrentLevel(2);
    let mut s = PlayerStats::default();
    s.hp = 15;
    assert_eq!(transition_level(&mut level, &mut s), GameState::Playing);
    assert_eq!(level, CurrentLevel(3));
    assert_eq!(s.hp, 23);
    s.hp = 27;
    transition_level(&mut level, &mut s);
    assert_eq!(s.hp, 30);
    assert_eq!(level.0, 4);
}

#[test]
fn ladder_needs_the_boss_dead() {
    let mut score = GameScore { score: 40, kills: 5 };
    assert_eq!(check_ladder(false, true, &CurrentLevel(1), &mut score), (false, None));
    assert_eq!(check_ladder(false, false, &CurrentLevel(1), &mut score), (false, None));
    assert_eq!(check_ladder(true, false, &CurrentLevel(1), &mut score), (true, None));
    assert_eq!(score.score, 40);
    assert_eq!(
        check_ladder(true, true, &CurrentLevel(1), &mut score),
        (true, Some(GameState::LevelTransition))
    );
    assert_eq!(score.score, 90);
    assert_eq!(
        check_ladder(true, true, &CurrentLevel(4), &mut score),
        (true, Some(GameState::LevelTransition))
    );
    assert_eq!(check_ladder(true, true, &CurrentLevel(5), &mut score), (true, Some(GameState::Victory)));
    assert_eq!(score.score, 190);
    assert_eq!(score.kills, 5);
}

#[test]
fn death_check() {
    let mut s = PlayerStats::default();
    assert_eq!(check_death(&Health { current: 4, max: 30 }, &mut s), None);
    assert_eq!(s.hp, 4);
    assert_eq!(check_death(&Health { current: 0, max: 30 }, &mut s), Some(GameState::GameOver));
    assert_eq!(s.hp, 0);
    assert_eq!(check_death(&Health { current: -3, max: 30 }, &mut s), Some(GameState::GameOver));
}

#[test]
fn menu_starts_a_fresh_run() {
    let mut s = PlayerStats::default();
    s.hp = 3;
    s.attack = 12;
    let mut score = GameScore { score: 999, kills: 40 };
    let mut level = CurrentLevel(4);
    assert_eq!(menu_input(false, &mut s, &mut score, &mut level), None);
    assert_eq!((s.hp, score.score, level.0), (3, 999, 4));
    assert_eq!(menu_input(true, &mut s, &mut score, &mut level), Some(GameState::Playing));
    assert_eq!(s, PlayerStats::default());
    assert_eq!(score, GameScore::default());
    assert_eq!(level, CurrentLevel(1));
}

#[test]
fn end_screens_return_to_menu() {
    assert_eq!(end_screen_input(true), Some(GameState::MainMenu));
    assert_eq!(end_screen_input(false), None);
}

#[test]
fn movement_directions() {
    assert_eq!(player_input(false, false, false, false), (0, 0));
    assert_eq!(player_input(true, false, false, false), (0, 1));
    assert_eq!(player_input(false, true, false, false), (0, -1));
    assert_eq!(player_input(false, false, true, false), (-1, 0));
    assert_eq!(player_input(false, false, false, true), (1, 0));
    assert_eq!(player_input(true, false, false, true), (1, 1));
    assert_eq!(player_input(true, true, true, true), (0, 0));
}

#[test]
fn a_ready_monster_winds_up_before_it_strikes() {
    let mut rng = rand::thread_rng();
    let mut player = Health::new(30);
    let mut enemy = Health::new(20);
    let mut score = GameScore::default();
    let mut map = GameMap::default();
    // In reach, cooldown over, not winding up: the wind-up begins, no damage.
    let out = combat_system(
        &mut rng, &mut player, &Attack(5), &Defense(2), &mut enemy, &Attack(4), &Defense(1),
        false, true, false, true, WindUpPhase::Idle, &mut score, &mut map,
    );
    assert!(out.wind_up_started && !out.player_hit && !out.wind_up_ended);
    assert_eq!(player.current, 30);
    // Still winding up: nothing happens, even with the cooldown over.
    let out = combat_system(
        &mut rng, &mut player, &Attack(5), &Defense(2), &mut enemy, &Attack(4), &Defense(1),
        false, true, false, true, WindUpPhase::Winding, &mut score, &mut map,
    );
    assert!(!out.wind_up_started && !out.player_hit && !out.wind_up_ended);
    assert_eq!(player.current, 30);
    // The wind-up is over and the player is still in reach: the blow lands.
    let out = combat_system(
        &mut rng, &mut player, &Attack(5), &Defense(2), &mut enemy, &Attack(4), &Defense(1),
        false, true, false, true, WindUpPhase::Ready, &mut score, &mut map,
    );
    assert!(!out.wind_up_started && out.player_hit && out.wind_up_ended);
    assert!((26..=28).contains(&player.current));
    assert_eq!(enemy.current, 20);
}

#[test]
fn a_wound_up_blow_can_be_dodged() {
    let mut rng = rand::thread_rng();
    let mut player = Health::new(30);
    let mut enemy = Health::new(20);
    let mut score = GameScore::default();
    let mut map = GameMap::default();
    let out = combat_system(
        &mut rng, &mut player, &Attack(5), &Defense(2), &mut enemy, &Attack(9), &Defense(1),
        false, false, false, true, WindUpPhase::Ready, &mut score, &mut map,
    );
    assert!(!out.player_hit && out.wind_up_ended && !out.wind_up_started);
    assert_eq!(player.current, 30);
    // A monster on cooldown does not start winding up.
    let out = combat_system(
        &mut rng, &mut player, &Attack(5), &Defense(2), &mut enemy, &Attack(9), &Defense(1),
        false, true, false, false, WindUpPhase::Idle, &mut score, &mut map,
    );
    assert!(!out.wind_up_started && !out.player_hit);
}

#[test]
fn loot_follows_its_draws() {
    assert_eq!(loot_from_draws(0, 0), Loot::Attack);
    assert_eq!(loot_from_draws(1, 0), Loot::Defense);
    assert_eq!(loot_from_draws(2, 6), Loot::Heal(6));
    assert_eq!(loot_from_draws(2, 12), Loot::Heal(12));
    assert_eq!(loot_from_draws(3, 5), Loot::Coins(5));
    assert_eq!(loot_from_draws(3, 25), Loot::Coins(25));
    // the amount does not matter for attack and defense
    assert_eq!(loot_from_draws(1, 9), Loot::Defense);
}
