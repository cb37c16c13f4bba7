use rogue_adventure::level_gen::{
    carve_level, fill_fallback_rooms, generate_level, keep_room, make_enemy, place_thing, EnemySpawn,
};
use rogue_adventure::map::{Room, TileType, MAP_HEIGHT, MAP_WIDTH};

fn tile(tiles: &[TileType], x: usize, y: usize) -> TileType {
    tiles[y * MAP_WIDTH + x]
}

#[test]
fn ordinary_enemy_stats() {
    let e = make_enemy(3, 4, false, 1);
    assert_eq!(
        e,
        EnemySpawn { x: 3, y: 4, is_boss: false, hp: 11, attack: 4, defense: 0, xp: 15 }
    );
    let e = make_enemy(7, 8, false, 5);
    assert_eq!(e.hp, 23);
    assert_eq!(e.attack, 8);
    assert_eq!(e.defense, 2);
    assert_eq!(e.xp, 35);
}

#[test]
fn boss_stats() {
    let b = make_enemy(9, 9, true, 1);
    assert_eq!(
        b,
        EnemySpawn { x: 9, y: 9, is_boss: true, hp: 55, attack: 8, defense: 3, xp: 130 }
    );
    let b = make_enemy(0, 0, true, 5);
    assert_eq!((b.hp, b.attack, b.defense, b.xp), (115, 16, 7, 250));
}

#[test]
fn boss_is_stronger_on_every_floor() {
    for level in 0..=20u32 {
        let b = make_enemy(0, 0, true, level);
        let m = make_enemy(0, 0, false, level);
        assert!(b.hp > m.hp && b.attack > m.attack && b.defense > m.defense && b.xp > m.xp);
    }
}

fn fixed_rooms() -> Vec<Room> {
    vec![
        Room { x: 2, y: 2, w: 8, h: 7 },
        Room { x: 22, y: 2, w: 8, h: 7 },
        Room { x: 42, y: 2, w: 8, h: 7 },
        Room { x: 2, y: 19, w: 8, h: 7 },
        Room { x: 22, y: 19, w: 8, h: 7 },
    ]
}

#[test]
fn carve_level_with_fixed_rooms() {
    let rooms = fixed_rooms();
    let (tiles, ladder) = carve_level(&rooms);
    assert_eq!(tiles.len(), MAP_WIDTH * MAP_HEIGHT);
    // ladder two cells in from the last room's far corner
    assert_eq!(ladder, (28, 24));
    assert_eq!(tile(&tiles, 28, 24), TileType::Floor);
    // every room cell is floor
    for r in &rooms {
        for y in r.y..r.y + r.h {
            for x in r.x..r.x + r.w {
                assert_eq!(tile(&tiles, x, y), TileType::Floor);
            }
        }
    }
    // corridor from (6, 5) to (26, 5): row 5 from 6 to 26
    for x in 6..=26 {
        assert_eq!(tile(&tiles, x, 5), TileType::Floor);
    }
    // corridor from (46, 5) to (6, 22): row 5 from 6 to 46, then column 6 from 5 to 22
    for x in 6..=46 {
        assert_eq!(tile(&tiles, x, 5), TileType::Floor);
    }
    for y in 5..=22 {
        assert_eq!(tile(&tiles, 6, y), TileType::Floor);
    }
    // corridor from (6, 22) to (26, 22): row 22
    for x in 6..=26 {
        assert_eq!(tile(&tiles, x, 22), TileType::Floor);
    }
    // nothing else is floor: count them
    let mut expected = 0;
    for y in 0..MAP_HEIGHT {
        for x in 0..MAP_WIDTH {
            let in_room = rooms.iter().any(|r| r.x <= x && x < r.x + r.w && r.y <= y && y < r.y + r.h);
            let on_corridor = (y == 5 && (6..=46).contains(&x))
                || (x == 6 && (5..=22).contains(&y))
                || (y == 22 && (6..=26).contains(&x))
                || (x == 26 && y == 5);
            let floor = in_room || on_corridor || (x, y) == (28, 24);
            if floor {
                expected += 1;
            }
            assert_eq!(tile(&tiles, x, y) == TileType::Floor, floor, "cell ({}, {})", x, y);
        }
    }
    assert!(expected > 0);
    // the grid's border stays rock
    for x in 0..MAP_WIDTH {
        assert_eq!(tile(&tiles, x, 0), TileType::Wall);
        assert_eq!(tile(&tiles, x, MAP_HEIGHT - 1), TileType::Wall);
    }
}

#[test]
fn carve_level_ladder_is_kept_off_the_edge() {
    let rooms = vec![Room { x: 60, y: 30, w: 6, h: 8 }];
    let (tiles, ladder) = carve_level(&rooms);
    assert_eq!(ladder, (64, 36));
    assert_eq!(tile(&tiles, 64, 36), TileType::Floor);
}

fn inside(r: &Room, x: usize, y: usize) -> bool {
    r.x + 1 <= x && x < r.x + r.w - 1 && r.y + 1 <= y && y < r.y + r.h - 1
}

#[test]
fn generated_levels_are_well_formed() {
    for round in 0..40u32 {
        let level = round % 5 + 1;
        let d = generate_level(level);
        assert_eq!(d.rooms.len(), 5);
        assert_eq!(d.tiles.len(), MAP_WIDTH * MAP_HEIGHT);
        for r in &d.rooms {
            assert!(r.x >= 1 && r.y >= 1 && r.w >= 4 && r.h >= 4);
            assert!(r.x + r.w < MAP_WIDTH && r.y + r.h < MAP_HEIGHT);
            for y in r.y..r.y + r.h {
                for x in r.x..r.x + r.w {
                    assert_eq!(tile(&d.tiles, x, y), TileType::Floor);
                }
            }
        }
        assert_eq!(d.player_start, d.rooms[0].center());
        assert_eq!(tile(&d.tiles, d.player_start.0, d.player_start.1), TileType::Floor);
        let boss = d.enemies.last().unwrap();
        let (bx, by) = d.rooms[4].center();
        assert_eq!(*boss, make_enemy(bx, by, true, level));
        let last = &d.rooms[4];
        assert_eq!(
            d.ladder_pos,
            ((last.x + last.w - 2).min(MAP_WIDTH - 2), (last.y + last.h - 2).min(MAP_HEIGHT - 2))
        );
        assert_eq!(tile(&d.tiles, d.ladder_pos.0, d.ladder_pos.1), TileType::Floor);
        let others = &d.enemies[..d.enemies.len() - 1];
        for e in others {
            assert_eq!(*e, make_enemy(e.x, e.y, false, level));
            assert!(d.rooms[1..4].iter().any(|r| inside(r, e.x, e.y)));
        }
        for &(cx, cy) in &d.chests {
            assert!(d.rooms[1..4].iter().any(|r| inside(r, cx, cy)));
            assert_eq!(tile(&d.tiles, cx, cy), TileType::Floor);
        }
        let things = others.len() + d.chests.len();
        assert!((4..=12).contains(&things), "{} things", things);
        assert!(others.len() <= 12);
        assert!(d.chests.len() <= 9);
        // consecutive room centres are joined by floor
        for i in 0..4 {
            let (ax, ay) = d.rooms[i].center();
            let (bx, by) = d.rooms[i + 1].center();
            for x in ax.min(bx)..=ax.max(bx) {
                assert_eq!(tile(&d.tiles, x, ay), TileType::Floor);
            }
            for y in ay.min(by)..=ay.max(by) {
                assert_eq!(tile(&d.tiles, bx, y), TileType::Floor);
            }
        }
    }
}

#[test]
fn randomly_placed_rooms_keep_apart() {
    let fallback = |i: usize| Room { x: 2 + (i % 3) * 20, y: 2 + (i / 3) * 17, w: 8, h: 7 };
    for _ in 0..20 {
        let d = generate_level(1);
        for i in 0..5 {
            for j in i + 1..5 {
                if d.rooms[i] != fallback(i) && d.rooms[j] != fallback(j) {
                    assert!(!d.rooms[i].overlaps(&d.rooms[j]));
                    assert!(!d.rooms[j].overlaps(&d.rooms[i]));
                }
            }
        }
    }
}

#[test]
fn every_floor_cell_is_reachable_from_the_start() {
    for round in 0..20u32 {
        let d = generate_level(round % 5 + 1);
        let mut seen = vec![false; MAP_WIDTH * MAP_HEIGHT];
        let mut queue = std::collections::VecDeque::new();
        let (sx, sy) = d.player_start;
        seen[sy * MAP_WIDTH + sx] = true;
        queue.push_back((sx, sy));
        while let Some((x, y)) = queue.pop_front() {
            let mut next = Vec::new();
            if x > 0 { next.push((x - 1, y)); }
            if y > 0 { next.push((x, y - 1)); }
            if x + 1 < MAP_WIDTH { next.push((x + 1, y)); }
            if y + 1 < MAP_HEIGHT { next.push((x, y + 1)); }
            for (nx, ny) in next {
                let i = ny * MAP_WIDTH + nx;
                if !seen[i] && d.tiles[i] == TileType::Floor {
                    seen[i] = true;
                    queue.push_back((nx, ny));
                }
            }
        }
        for i in 0..MAP_WIDTH * MAP_HEIGHT {
            if d.tiles[i] == TileType::Floor {
                assert!(seen[i], "cell {} cut off", i);
            }
        }
    }
}

#[test]
fn middle_rooms_get_both_monsters_and_chests() {
    let mut saw_monster = false;
    let mut saw_chest = false;
    for _ in 0..40 {
        let d = generate_level(1);
        saw_monster |= d.enemies.len() > 1;
        saw_chest |= !d.chests.is_empty();
    }
    assert!(saw_monster && saw_chest);
}

#[test]
fn first_candidate_is_always_kept() {
    let mut kept: Vec<Room> = Vec::new();
    let a = Room { x: 3, y: 3, w: 6, h: 5 };
    keep_room(&mut kept, a);
    assert_eq!(kept, vec![a]);
}

#[test]
fn overlapping_candidates_are_rejected() {
    let a = Room { x: 3, y: 3, w: 6, h: 5 };
    let mut kept = vec![a];
    // overlaps `a` within the two-cell margin to its right
    let near = Room { x: 10, y: 4, w: 5, h: 4 };
    keep_room(&mut kept, near);
    assert_eq!(kept, vec![a]);
    // far enough to the right
    let far = Room { x: 11, y: 4, w: 5, h: 4 };
    keep_room(&mut kept, far);
    assert_eq!(kept, vec![a, far]);
    // the same room again overlaps itself
    keep_room(&mut kept, far);
    assert_eq!(kept, vec![a, far]);
}

#[test]
fn fallback_rooms_fill_the_empty_slots() {
    let a = Room { x: 30, y: 25, w: 6, h: 5 };
    let b = Room { x: 50, y: 28, w: 5, h: 4 };
    let mut rooms = vec![a, b];
    fill_fallback_rooms(&mut rooms);
    assert_eq!(
        rooms,
        vec![
            a,
            b,
            Room { x: 42, y: 2, w: 8, h: 7 },
            Room { x: 2, y: 19, w: 8, h: 7 },
            Room { x: 22, y: 19, w: 8, h: 7 },
        ]
    );
    let mut none: Vec<Room> = Vec::new();
    fill_fallback_rooms(&mut none);
    assert_eq!(none[0], Room { x: 2, y: 2, w: 8, h: 7 });
    assert_eq!(none[1], Room { x: 22, y: 2, w: 8, h: 7 });
    assert_eq!(none.len(), 5);
    let mut full = rooms.clone();
    fill_fallback_rooms(&mut full);
    assert_eq!(full, rooms);
}

#[test]
fn placing_a_monster_or_a_chest() {
    let mut enemies: Vec<EnemySpawn> = Vec::new();
    let mut chests: Vec<(usize, usize)> = Vec::new();
    place_thing(true, (12, 7), 2, &mut enemies, &mut chests);
    assert_eq!(enemies, vec![make_enemy(12, 7, false, 2)]);
    assert_eq!(enemies[0].hp, 14);
    assert!(chests.is_empty());
    place_thing(false, (13, 8), 2, &mut enemies, &mut chests);
    assert_eq!(enemies.len(), 1);
    assert_eq!(chests, vec![(13, 8)]);
    place_thing(true, (14, 9), 2, &mut enemies, &mut chests);
    assert_eq!(enemies[1], make_enemy(14, 9, false, 2));
    assert_eq!(chests, vec![(13, 8)]);
}

#[test]
fn first_room_has_a_drawn_size() {
    // The first room is always one that was drawn at random: its size lies in
    // the random ranges, and every room fits inside the grid.
    for _ in 0..30 {
        let d = generate_level(1);
        let r = d.rooms[0];
        assert!((5..=11).contains(&r.w) && (4..=9).contains(&r.h));
        assert!(r.x >= 1 && r.y >= 1 && r.x + r.w < MAP_WIDTH && r.y + r.h < MAP_HEIGHT);
    }
}
