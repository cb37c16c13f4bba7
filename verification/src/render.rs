use vstd::prelude::*;
use crate::map::{cell, in_bounds, grid_len, tile_in, FogState, GameMap, Room, TileType, MAP_HEIGHT, MAP_WIDTH};
use crate::level_gen::{generate_level, enemy_fits, valid_level, LevelData};

verus! {

/// How a cell of the grid is drawn.
#[derive(Clone, Copy, PartialEq, Eq, Structural, Debug)]
pub enum TileGlyph {
    /// Never seen: nothing is drawn.
    Blank,
    /// A wall seen before, drawn dimmed.
    WallExplored,
    /// A floor seen before, drawn dimmed.
    FloorExplored,
    /// A wall in view.
    WallVisible,
    /// A floor in view.
    FloorVisible,
}

/// The glyph of a cell with this fog state and tile.
pub open spec fn glyph_spec(fog: FogState, tile: TileType) -> TileGlyph {
    match fog {
        FogState::Hidden => TileGlyph::Blank,
        FogState::Explored => if tile == TileType::Wall {
            TileGlyph::WallExplored
        } else {
            TileGlyph::FloorExplored
        },
        FogState::Visible => if tile == TileType::Wall {
            TileGlyph::WallVisible
        } else {
            TileGlyph::FloorVisible
        },
    }
}

/// The fog hides what a cell holds: a cell never seen draws nothing, whatever
/// its tile; a cell seen draws something, a wall glyph exactly when the cell
/// is a wall, and a bright glyph exactly when it is in view now.
pub proof fn lemma_glyph_respects_fog(fog: FogState, tile: TileType, other: TileType)
    ensures
        fog == FogState::Hidden ==> glyph_spec(fog, tile) == TileGlyph::Blank
            && glyph_spec(fog, tile) == glyph_spec(fog, other),
        fog != FogState::Hidden ==> glyph_spec(fog, tile) != TileGlyph::Blank,
        (glyph_spec(fog, tile) == TileGlyph::WallExplored || glyph_spec(fog, tile)
            == TileGlyph::WallVisible) <==> (fog != FogState::Hidden && tile == TileType::Wall),
        (glyph_spec(fog, tile) == TileGlyph::WallVisible || glyph_spec(fog, tile)
            == TileGlyph::FloorVisible) <==> fog == FogState::Visible,
{
}

impl GameMap {
    /// How the cell `(x, y)` of the grid is drawn.
    pub fn tile_glyph(&self, x: usize, y: usize) -> (g: TileGlyph)
        requires
            self.tiles@.len() == self.width * self.height,
            self.fog@.len() == self.tiles@.len(),
            x < self.width,
            y < self.height,
        ensures
            g == glyph_spec(
                self.fog@[y * self.width + x],
                self.tiles@[y * self.width + x],
            ),
    {
        let _len = self.tiles.len();
        proof {
            crate::map::lemma_index_in_grid(x as int, y as int, self.width as int, self.height as int);
        }
        let i = self.idx(x, y);
        match self.fog[i] {
            FogState::Hidden => TileGlyph::Blank,
            FogState::Explored => if self.tiles[i] == TileType::Wall {
                TileGlyph::WallExplored
            } else {
                TileGlyph::FloorExplored
            },
            FogState::Visible => if self.tiles[i] == TileType::Wall {
                TileGlyph::WallVisible
            } else {
                TileGlyph::FloorVisible
            },
        }
    }

    /// Whether a monster, chest or ladder standing on grid cell `(gx, gy)` is
    /// shown: only on a cell of the grid that is currently visible.
    pub fn entity_visible(&self, gx: i32, gy: i32) -> (b: bool)
        requires
            grid_len() <= self.fog@.len(),
        ensures
            b == (in_bounds(gx as int, gy as int) && self.fog@[cell(gx as int, gy as int)]
                == FogState::Visible),
    {
        if gx < 0 || gy < 0 || gx >= MAP_WIDTH as i32 || gy >= MAP_HEIGHT as i32 {
            return false;
        }
        let i = gy as usize * MAP_WIDTH + gx as usize;
        self.fog[i] == FogState::Visible
    }

    /// Whether the cell `(gx, gy)` touches a floor cell of the grid among its
    /// eight neighbours; walls that do are the ones that block movement.
    pub fn borders_floor(&self, gx: usize, gy: usize) -> (b: bool)
        requires
            grid_len() <= self.tiles@.len(),
            gx < i32::MAX,
            gy < i32::MAX,
        ensures
            b == exists|dx: int, dy: int|
                -1 <= dx <= 1 && -1 <= dy <= 1 && (dx != 0 || dy != 0) && #[trigger] tile_in(
                    self.tiles@,
                    gx + dx,
                    gy + dy,
                ) == TileType::Floor,
    {
        let mut dy: i32 = -1;
        while dy <= 1
            invariant
                grid_len() <= self.tiles@.len(),
                gx < i32::MAX,
                gy < i32::MAX,
                -1 <= dy <= 2,
                forall|ddx: int, ddy: int|
                    -1 <= ddx <= 1 && -1 <= ddy < dy && (ddx != 0 || ddy != 0) ==> #[trigger] tile_in(
                        self.tiles@,
                        gx + ddx,
                        gy + ddy,
                    ) != TileType::Floor,
            decreases 2 - dy,
        {
            let mut dx: i32 = -1;
            while dx <= 1
                invariant
                    grid_len() <= self.tiles@.len(),
                    gx < i32::MAX,
                    gy < i32::MAX,
                    -1 <= dy <= 1,
                    -1 <= dx <= 2,
                    forall|ddx: int, ddy: int|
                        -1 <= ddx <= 1 && -1 <= ddy <= 1 && (ddy < dy || (ddy == dy && ddx < dx)) && (
                        ddx != 0 || ddy != 0) ==> #[trigger] tile_in(self.tiles@, gx + ddx, gy + ddy)
                            != TileType::Floor,
                decreases 2 - dx,
            {
                if !(dx == 0 && dy == 0) {
                    let nx = gx as i32 + dx;
                    let ny = gy as i32 + dy;
                    if nx >= 0 && ny >= 0 && nx < MAP_WIDTH as i32 && ny < MAP_HEIGHT as i32 {
                        let ni = ny as usize * MAP_WIDTH + nx as usize;
                        if self.tiles[ni] == TileType::Floor {
                            assert(tile_in(self.tiles@, gx + dx as int, gy + dy as int)
                                == TileType::Floor);
                            return true;
                        }
                    }
                    assert(tile_in(self.tiles@, gx + dx as int, gy + dy as int) != TileType::Floor);
                }
                dx = dx + 1;
            }
            dy = dy + 1;
        }
        false
    }
}

/// A copy of a grid.
fn copy_tiles(v: &Vec<TileType>) -> (r: Vec<TileType>)
    ensures
        r@ == v@,
{
    let mut r: Vec<TileType> = Vec::new();
    let mut i: usize = 0;
    while i < v.len()
        invariant
            i <= v@.len(),
            r@ == v@.subrange(0, i as int),
        decreases v@.len() - i,
    {
        r.push(v[i]);
        i = i + 1;
    }
    r
}

/// A copy of a list of rooms.
fn copy_rooms(v: &Vec<Room>) -> (r: Vec<Room>)
    ensures
        r@ == v@,
{
    let mut r: Vec<Room> = Vec::new();
    let mut i: usize = 0;
    while i < v.len()
        invariant
            i <= v@.len(),
            r@ == v@.subrange(0, i as int),
        decreases v@.len() - i,
    {
        r.push(v[i]);
        i = i + 1;
    }
    r
}

/// Prepares the map for floor `level`: clears it, generates the floor, and
/// takes the floor's grid and rooms into the map, fully hidden and with the
/// boss alive. Returns the generated floor, whose monsters, chests, ladder and
/// starting cell are for the caller to place.
pub fn setup_level(game_map: &mut GameMap, level: u32) -> (d: LevelData)
    requires
        old(game_map).wf(),
        enemy_fits(true, level),
    ensures
        valid_level(d, level),
        final(game_map).wf(),
        final(game_map).tiles@ == d.tiles@,
        final(game_map).rooms@ == d.rooms@,
        forall|i: int| 0 <= i < grid_len() ==> final(game_map).fog@[i] == FogState::Hidden,
        !final(game_map).boss_dead,
{
    game_map.reset();
    let d = generate_level(level);
    game_map.tiles = copy_tiles(&d.tiles);
    game_map.rooms = copy_rooms(&d.rooms);
    d
}

} // verus!
