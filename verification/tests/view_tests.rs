use rogue_adventure::fog::{line_of_sight, update_fog_of_war};
use rogue_adventure::map::{FogState, GameMap, TileType, MAP_WIDTH};
use rogue_adventure::render::{setup_level, TileGlyph};

fn open_map() -> GameMap {
    let mut m = GameMap::default();
    for y in 1..37 {
        for x in 1..65 {
            m.set_floor(x, y);
        }
    }
    m
}

fn fog(m: &GameMap, x: usize, y: usize) -> FogState {
    m.fog[y * MAP_WIDTH + x]
}

#[test]
fn sight_in_open_space() {
    let m = open_map();
    assert!(line_of_sight(&m, 10, 10, 10, 10));
    assert!(line_of_sight(&m, 10, 10, 18, 14));
    assert!(line_of_sight(&m, 10, 10, 2, 3));
    assert!(line_of_sight(&m, 20, 20, 20, 12));
}

#[test]
fn walls_block_sight_but_are_seen() {
    let mut m = open_map();
    m.tiles[10 * MAP_WIDTH + 12] = TileType::Wall;
    // the wall itself is visible
    assert!(line_of_sight(&m, 10, 10, 12, 10));
    // what lies behind it is not
    assert!(!line_of_sight(&m, 10, 10, 14, 10));
    // a neighbour is always in sight
    assert!(line_of_sight(&m, 11, 10, 12, 10));
    // the starting cell does not block
    m.tiles[10 * MAP_WIDTH + 10] = TileType::Wall;
    assert!(line_of_sight(&m, 10, 10, 10, 14));
}

#[test]
fn sight_off_the_grid_is_blocked_by_the_edge() {
    let m = open_map();
    assert!(!line_of_sight(&m, 1, 1, -3, 1));
    assert!(line_of_sight(&m, 1, 1, 0, 1));
}

#[test]
fn fog_update_in_open_room() {
    let mut m = open_map();
    update_fog_of_war(&mut m, 30, 18);
    assert_eq!(fog(&m, 30, 18), FogState::Visible);
    assert_eq!(fog(&m, 39, 18), FogState::Visible);
    assert_eq!(fog(&m, 30, 27), FogState::Visible);
    // outside the disc of radius 9
    assert_eq!(fog(&m, 37, 25), FogState::Hidden);
    assert_eq!(fog(&m, 40, 18), FogState::Hidden);
    let visible = m.fog.iter().filter(|f| **f == FogState::Visible).count();
    // lattice points in a disc of radius 9
    assert_eq!(visible, 253);
    // moving away leaves explored cells behind
    update_fog_of_war(&mut m, 50, 18);
    assert_eq!(fog(&m, 30, 18), FogState::Explored);
    assert_eq!(fog(&m, 50, 18), FogState::Visible);
    assert!(m.fog.iter().all(|f| *f != FogState::Hidden || true));
    let explored = m.fog.iter().filter(|f| **f == FogState::Explored).count();
    assert!(explored > 0);
}

#[test]
fn fog_update_never_forgets() {
    let mut m = open_map();
    update_fog_of_war(&mut m, 10, 10);
    let before: Vec<FogState> = m.fog.clone();
    update_fog_of_war(&mut m, 55, 30);
    for (a, b) in before.iter().zip(m.fog.iter()) {
        if *a != FogState::Hidden {
            assert_ne!(*b, FogState::Hidden);
        }
    }
}

#[test]
fn fog_behind_a_wall() {
    let mut m = open_map();
    for y in 0..38 {
        m.tiles[y * MAP_WIDTH + 33] = TileType::Wall;
    }
    update_fog_of_war(&mut m, 30, 18);
    assert_eq!(fog(&m, 33, 18), FogState::Visible);
    assert_eq!(fog(&m, 35, 18), FogState::Hidden);
}

#[test]
fn fog_at_the_map_corner() {
    let mut m = GameMap::default();
    update_fog_of_war(&mut m, 0, 0);
    // inside solid rock only the cell itself and its neighbours are seen
    assert_eq!(fog(&m, 0, 0), FogState::Visible);
    assert_eq!(fog(&m, 1, 0), FogState::Visible);
    assert_eq!(fog(&m, 1, 1), FogState::Visible);
    assert_eq!(fog(&m, 2, 0), FogState::Hidden);
    let visible = m.fog.iter().filter(|f| **f == FogState::Visible).count();
    assert_eq!(visible, 4);
}

#[test]
fn glyphs_follow_fog() {
    let mut m = open_map();
    assert_eq!(m.tile_glyph(5, 5), TileGlyph::Blank);
    m.fog[5 * MAP_WIDTH + 5] = FogState::Explored;
    m.fog[0] = FogState::Explored;
    assert_eq!(m.tile_glyph(5, 5), TileGlyph::FloorExplored);
    assert_eq!(m.tile_glyph(0, 0), TileGlyph::WallExplored);
    m.fog[5 * MAP_WIDTH + 5] = FogState::Visible;
    m.fog[0] = FogState::Visible;
    assert_eq!(m.tile_glyph(5, 5), TileGlyph::FloorVisible);
    assert_eq!(m.tile_glyph(0, 0), TileGlyph::WallVisible);
}

#[test]
fn entities_shown_only_in_view() {
    let mut m = open_map();
    assert!(!m.entity_visible(5, 5));
    m.fog[5 * MAP_WIDTH + 5] = FogState::Visible;
    assert!(m.entity_visible(5, 5));
    m.fog[5 * MAP_WIDTH + 6] = FogState::Explored;
    assert!(!m.entity_visible(6, 5));
    assert!(!m.entity_visible(-1, 5));
    assert!(!m.entity_visible(5, 38));
}

#[test]
fn walls_next_to_floor() {
    let mut m = GameMap::default();
    m.set_floor(10, 10);
    assert!(m.borders_floor(9, 9));
    assert!(m.borders_floor(11, 10));
    assert!(m.borders_floor(10, 11));
    assert!(!m.borders_floor(12, 10));
    assert!(!m.borders_floor(10, 10));
    assert!(!m.borders_floor(0, 0));
    assert!(!m.borders_floor(65, 37));
}

#[test]
fn setup_level_loads_the_map() {
    let mut m = open_map();
    m.boss_dead = true;
    m.fog[3] = FogState::Visible;
    let d = setup_level(&mut m, 2);
    assert_eq!(m.tiles, d.tiles);
    assert_eq!(m.rooms, d.rooms);
    assert!(m.fog.iter().all(|f| *f == FogState::Hidden));
    assert!(!m.boss_dead);
    assert_eq!(m.rooms.len(), 5);
    let boss = d.enemies.last().unwrap();
    assert!(boss.is_boss);
    assert_eq!(boss.hp, 70);
}

#[test]
fn fog_update_far_off_the_grid() {
    let mut m = open_map();
    update_fog_of_war(&mut m, 10, 10);
    let before = m.fog.clone();
    update_fog_of_war(&mut m, i32::MAX, i32::MIN);
    for (a, b) in before.iter().zip(m.fog.iter()) {
        match a {
            FogState::Visible => assert_eq!(*b, FogState::Explored),
            other => assert_eq!(b, other),
        }
    }
    update_fog_of_war(&mut m, i32::MIN, i32::MAX - 3);
    assert!(m.fog.iter().all(|f| *f != FogState::Visible));
}

#[test]
fn player_cell_is_visible_even_inside_rock() {
    let mut m = GameMap::default();
    update_fog_of_war(&mut m, 40, 20);
    assert_eq!(fog(&m, 40, 20), FogState::Visible);
}

#[test]
fn sight_on_a_map_of_another_size() {
    let mut m = GameMap {
        tiles: vec![TileType::Floor; 20],
        fog: Vec::new(),
        rooms: Vec::new(),
        width: 5,
        height: 4,
        boss_dead: false,
    };
    assert!(line_of_sight(&m, 0, 0, 4, 3));
    m.tiles[1 * 5 + 1] = TileType::Wall;
    assert!(!line_of_sight(&m, 0, 0, 3, 3));
    // off this map's own edge everything is rock
    assert!(!line_of_sight(&m, 0, 0, 6, 0));
}

#[test]
fn sight_over_long_distances() {
    let m = open_map();
    // lines that leave the grid meet its wall, however far they reach
    assert!(!line_of_sight(&m, 10, 10, 10 + (1 << 29), 10));
    assert!(!line_of_sight(&m, 10, 10, 10, 10 - (1 << 29)));
    assert!(!line_of_sight(&m, -(1 << 28), 0, 1 << 28, 0));
    // neighbours far off the grid are still in sight of each other
    assert!(line_of_sight(&m, 1 << 29, 5, (1 << 29) + 1, 6));
}
