use rogue_adventure::map::{FogState, GameMap, Room, TileType, MAP_HEIGHT, MAP_WIDTH, NUM_LEVELS, VIEW_RADIUS};

#[test]
fn constants_match_the_dungeon() {
    assert_eq!(MAP_WIDTH, 66);
    assert_eq!(MAP_HEIGHT, 38);
    assert_eq!(NUM_LEVELS, 5);
    assert_eq!(VIEW_RADIUS, 9);
}

#[test]
fn default_map_is_solid_and_hidden() {
    let m = GameMap::default();
    assert_eq!(m.width, MAP_WIDTH);
    assert_eq!(m.height, MAP_HEIGHT);
    assert_eq!(m.tiles.len(), MAP_WIDTH * MAP_HEIGHT);
    assert_eq!(m.fog.len(), MAP_WIDTH * MAP_HEIGHT);
    assert!(m.tiles.iter().all(|t| *t == TileType::Wall));
    assert!(m.fog.iter().all(|f| *f == FogState::Hidden));
    assert!(m.rooms.is_empty());
    assert!(!m.boss_dead);
}

#[test]
fn enum_defaults() {
    assert_eq!(TileType::default(), TileType::Wall);
    assert_eq!(FogState::default(), FogState::Hidden);
}

#[test]
fn idx_is_row_major() {
    let m = GameMap::default();
    assert_eq!(m.idx(0, 0), 0);
    assert_eq!(m.idx(5, 0), 5);
    assert_eq!(m.idx(0, 1), 66);
    assert_eq!(m.idx(3, 2), 135);
}

#[test]
fn tile_at_off_the_grid_is_wall() {
    let mut m = GameMap::default();
    for i in 0..m.tiles.len() {
        m.tiles[i] = TileType::Floor;
    }
    assert_eq!(m.tile_at(-1, 0), TileType::Wall);
    assert_eq!(m.tile_at(0, -1), TileType::Wall);
    assert_eq!(m.tile_at(66, 0), TileType::Wall);
    assert_eq!(m.tile_at(0, 38), TileType::Wall);
    assert_eq!(m.tile_at(65, 37), TileType::Floor);
    assert!(!m.is_walkable(-5, 3));
    assert!(m.is_walkable(10, 10));
}

#[test]
fn set_floor_then_walkable() {
    let mut m = GameMap::default();
    assert!(!m.is_walkable(4, 7));
    m.set_floor(4, 7);
    assert!(m.is_walkable(4, 7));
    assert_eq!(m.tiles[7 * 66 + 4], TileType::Floor);
    assert!(!m.is_walkable(5, 7));
    assert!(!m.is_walkable(4, 8));
    let count = m.tiles.iter().filter(|t| **t == TileType::Floor).count();
    assert_eq!(count, 1);
}

#[test]
fn set_floor_off_the_grid_does_nothing() {
    let mut m = GameMap::default();
    m.set_floor(66, 0);
    m.set_floor(0, 38);
    m.set_floor(1000, 1000);
    assert!(m.tiles.iter().all(|t| *t == TileType::Wall));
}

#[test]
fn reset_clears_everything() {
    let mut m = GameMap::default();
    m.set_floor(1, 1);
    m.fog[3] = FogState::Visible;
    m.fog[4] = FogState::Explored;
    m.rooms.push(Room { x: 1, y: 1, w: 4, h: 4 });
    m.boss_dead = true;
    m.reset();
    assert!(m.tiles.iter().all(|t| *t == TileType::Wall));
    assert!(m.fog.iter().all(|f| *f == FogState::Hidden));
    assert!(m.rooms.is_empty());
    assert!(!m.boss_dead);
    assert_eq!(m.tiles.len(), 66 * 38);
    assert_eq!(m.fog.len(), 66 * 38);
}

#[test]
fn room_center_rounds_down() {
    let r = Room { x: 10, y: 4, w: 7, h: 5 };
    assert_eq!(r.center(), (13, 6));
    let r = Room { x: 2, y: 2, w: 8, h: 7 };
    assert_eq!(r.center(), (6, 5));
}

#[test]
fn rooms_overlap_within_a_margin() {
    let a = Room { x: 10, y: 10, w: 5, h: 5 };
    // touching on the right edge, within the two-cell margin
    let b = Room { x: 16, y: 10, w: 5, h: 5 };
    assert!(a.overlaps(&b));
    assert!(b.overlaps(&a));
    // far apart
    let c = Room { x: 30, y: 10, w: 5, h: 5 };
    assert!(!a.overlaps(&c));
    assert!(!c.overlaps(&a));
    // a room overlaps itself
    assert!(a.overlaps(&a));
    // exactly two columns of wall between them: x + w + 2 == other.x
    let d = Room { x: 17, y: 10, w: 5, h: 5 };
    assert!(!a.overlaps(&d));
    assert!(!d.overlaps(&a));
    // below, at the margin
    let e = Room { x: 10, y: 16, w: 5, h: 5 };
    assert!(a.overlaps(&e));
    let f = Room { x: 10, y: 17, w: 5, h: 5 };
    assert!(!a.overlaps(&f));
}

#[test]
fn a_map_of_another_size_uses_its_own_dimensions() {
    let mut m = GameMap {
        tiles: vec![TileType::Wall; 12],
        fog: vec![FogState::Hidden; 12],
        rooms: Vec::new(),
        width: 4,
        height: 3,
        boss_dead: false,
    };
    assert_eq!(m.idx(3, 2), 11);
    m.set_floor(3, 2);
    assert_eq!(m.tiles[11], TileType::Floor);
    assert_eq!(m.tile_at(3, 2), TileType::Floor);
    assert!(m.is_walkable(3, 2));
    assert_eq!(m.tile_at(4, 2), TileType::Wall);
    m.set_floor(4, 0);
    assert_eq!(m.tiles.iter().filter(|t| **t == TileType::Floor).count(), 1);
    assert_eq!(m.tile_glyph(3, 2), rogue_adventure::render::TileGlyph::Blank);
    m.fog[11] = FogState::Visible;
    assert_eq!(m.tile_glyph(3, 2), rogue_adventure::render::TileGlyph::FloorVisible);
}
