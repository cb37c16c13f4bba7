use vstd::prelude::*;

verus! {

/// Width of the dungeon grid, in tiles.
pub const MAP_WIDTH: usize = 66;
/// Height of the dungeon grid, in tiles.
pub const MAP_HEIGHT: usize = 38;
/// Number of floors; clearing the last one wins the game.
pub const NUM_LEVELS: u32 = 5;
/// Radius, in tiles, of the player's field of view.
pub const VIEW_RADIUS: i32 = 9;

/// What occupies a cell of the grid.
#[derive(Clone, Copy, PartialEq, Eq, Structural, Debug)]
pub enum TileType {
    Wall,
    Floor,
}

impl Default for TileType {
    fn default() -> (t: Self)
        ensures
            t == TileType::Wall,
    {
        TileType::Wall
    }
}

/// How much of a cell the player has seen.
#[derive(Clone, Copy, PartialEq, Eq, Structural, Debug)]
pub enum FogState {
    Hidden,
    Explored,
    Visible,
}

impl Default for FogState {
    fn default() -> (f: Self)
        ensures
            f == FogState::Hidden,
    {
        FogState::Hidden
    }
}

/// Index of the cell `(x, y)` in a row-major grid of the map's width.
pub open spec fn cell(x: int, y: int) -> int {
    y * MAP_WIDTH + x
}

/// Whether `(x, y)` lies on the grid.
pub open spec fn in_bounds(x: int, y: int) -> bool {
    0 <= x < MAP_WIDTH && 0 <= y < MAP_HEIGHT
}

/// Number of cells of the grid.
pub open spec fn grid_len() -> int {
    MAP_WIDTH * MAP_HEIGHT
}


/// An axis-aligned rectangle of floor carved into the grid: columns
/// `x .. x + w`, rows `y .. y + h`.
#[derive(Clone, Copy, PartialEq, Eq, Structural, Debug)]
pub struct Room {
    pub x: usize,
    pub y: usize,
    pub w: usize,
    pub h: usize,
}

impl Room {
    /// Whether `(px, py)` is one of the room's cells.
    pub open spec fn contains(self, px: int, py: int) -> bool {
        self.x <= px < self.x + self.w && self.y <= py < self.y + self.h
    }

    /// Whether `(px, py)` is a cell of the room that does not touch its border.
    pub open spec fn interior_contains(self, px: int, py: int) -> bool {
        self.x + 1 <= px < self.x + self.w - 1 && self.y + 1 <= py < self.y + self.h - 1
    }

    /// The room's centre cell, rounding down.
    pub open spec fn center_spec(self) -> (int, int) {
        (self.x + self.w / 2, self.y + self.h / 2)
    }

    /// The centre cell; it exists whenever it fits in a `usize`.
    pub fn center(&self) -> (c: (usize, usize))
        requires
            self.x + self.w / 2 <= usize::MAX,
            self.y + self.h / 2 <= usize::MAX,
        ensures
            c.0 == self.center_spec().0,
            c.1 == self.center_spec().1,
    {
        (self.x + self.w / 2, self.y + self.h / 2)
    }

    /// Two rooms overlap when their rectangles, each grown by a margin of two
    /// cells to the right and below, intersect; rooms that do not overlap keep
    /// at least one wall between them.
    pub open spec fn overlaps_spec(self, other: Room) -> bool {
        &&& self.x < other.x + other.w + 2
        &&& self.x + self.w + 2 > other.x
        &&& self.y < other.y + other.h + 2
        &&& self.y + self.h + 2 > other.y
    }

    /// The sums that `overlaps` evaluates, in its order and with its
    /// short-circuits, all fit in a `usize`.
    pub open spec fn overlaps_fits(self, other: Room) -> bool {
        &&& other.x + other.w + 2 <= usize::MAX
        &&& self.x < other.x + other.w + 2 ==> {
            &&& self.x + self.w + 2 <= usize::MAX
            &&& self.x + self.w + 2 > other.x ==> {
                &&& other.y + other.h + 2 <= usize::MAX
                &&& self.y < other.y + other.h + 2 ==> self.y + self.h + 2 <= usize::MAX
            }
        }
    }

    pub fn overlaps(&self, other: &Room) -> (b: bool)
        requires
            self.overlaps_fits(*other),
        ensures
            b == self.overlaps_spec(*other),
    {
        self.x < other.x + other.w + 2 && self.x + self.w + 2 > other.x && self.y < other.y
            + other.h + 2 && self.y + self.h + 2 > other.y
    }
}

/// Two rooms overlap exactly when some cell of one lies within two cells,
/// along both axes, of some cell of the other; rooms that do not overlap
/// therefore share no cell and keep at least two cells of wall between them.
pub proof fn lemma_overlap_iff_cells_near(a: Room, b: Room)
    requires
        a.w >= 1,
        a.h >= 1,
        b.w >= 1,
        b.h >= 1,
    ensures
        a.overlaps_spec(b) <==> exists|px: int, py: int, qx: int, qy: int|
            #![trigger a.contains(px, py), b.contains(qx, qy)]
            a.contains(px, py) && b.contains(qx, qy) && -2 <= px - qx <= 2 && -2 <= py - qy <= 2,
        !a.overlaps_spec(b) ==> forall|px: int, py: int, qx: int, qy: int|
            #![trigger a.contains(px, py), b.contains(qx, qy)]
            a.contains(px, py) && b.contains(qx, qy) ==> px - qx > 2 || qx - px > 2 || py - qy > 2
                || qy - py > 2,
{
    if a.x < b.x + b.w + 2 && b.x < a.x + a.w + 2 && a.y < b.y + b.h + 2 && b.y < a.y + a.h + 2 {
        let (px, qx) = if a.x <= b.x {
            (if b.x < a.x + a.w - 1 { b.x as int } else { a.x + a.w - 1 }, b.x as int)
        } else {
            (a.x as int, if a.x < b.x + b.w - 1 { a.x as int } else { b.x + b.w - 1 })
        };
        let (py, qy) = if a.y <= b.y {
            (if b.y < a.y + a.h - 1 { b.y as int } else { a.y + a.h - 1 }, b.y as int)
        } else {
            (a.y as int, if a.y < b.y + b.h - 1 { a.y as int } else { b.y + b.h - 1 })
        };
        assert(a.contains(px, py) && b.contains(qx, qy) && -2 <= px - qx <= 2 && -2 <= py - qy
            <= 2);
    }
}

/// Overlap is symmetric: `a` overlaps `b` exactly when `b` overlaps `a`.
pub proof fn lemma_overlaps_symmetric(a: Room, b: Room)
    ensures
        a.overlaps_spec(b) == b.overlaps_spec(a),
{
}

/// Every room overlaps itself.
pub proof fn lemma_overlaps_reflexive(a: Room)
    ensures
        a.overlaps_spec(a),
{
}

/// The centre of a room with at least one column and one row is one of its
/// cells.
pub proof fn lemma_center_inside(r: Room)
    requires
        r.w >= 1,
        r.h >= 1,
    ensures
        r.contains(r.center_spec().0, r.center_spec().1),
{
}


/// The tile at `(x, y)` of a row-major grid: any cell off the grid reads as a wall.
pub open spec fn tile_in(tiles: Seq<TileType>, x: int, y: int) -> TileType {
    if in_bounds(x, y) {
        tiles[cell(x, y)]
    } else {
        TileType::Wall
    }
}

/// The tile at `(x, y)` of a row-major grid of `w` columns and `h` rows: any
/// cell off the grid reads as a wall.
pub open spec fn tile_in_grid(tiles: Seq<TileType>, w: int, h: int, x: int, y: int) -> TileType {
    if 0 <= x < w && 0 <= y < h {
        tiles[y * w + x]
    } else {
        TileType::Wall
    }
}

/// The grid `tiles` with the cell `(x, y)` made floor, when it is on the grid.
pub open spec fn with_floor(tiles: Seq<TileType>, x: int, y: int) -> Seq<TileType> {
    if in_bounds(x, y) {
        tiles.update(cell(x, y), TileType::Floor)
    } else {
        tiles
    }
}

/// A cell of the grid has exactly one index, and that index is inside the grid.
pub proof fn lemma_cell_in_grid(x: int, y: int)
    requires
        in_bounds(x, y),
    ensures
        0 <= cell(x, y) < grid_len(),
{
}

/// A cell of a grid of `w` columns and `h` rows has a row-major index inside it.
pub proof fn lemma_index_in_grid(x: int, y: int, w: int, h: int)
    requires
        0 <= x < w,
        0 <= y < h,
    ensures
        0 <= y * w + x < w * h,
{
    assert(y * w + x < w * h) by (nonlinear_arith)
        requires
            0 <= x < w,
            0 <= y < h,
    ;
    assert(0 <= y * w) by (nonlinear_arith)
        requires
            0 <= y,
            0 <= w,
    ;
}

/// Distinct cells of the grid have distinct indices.
pub proof fn lemma_cell_injective(x1: int, y1: int, x2: int, y2: int)
    requires
        in_bounds(x1, y1),
        in_bounds(x2, y2),
        cell(x1, y1) == cell(x2, y2),
    ensures
        x1 == x2,
        y1 == y2,
{
}

/// The dungeon grid of the current floor, with what the player has seen of it.
pub struct GameMap {
    pub tiles: Vec<TileType>,
    pub fog: Vec<FogState>,
    pub rooms: Vec<Room>,
    pub width: usize,
    pub height: usize,
    pub boss_dead: bool,
}

impl GameMap {
    /// The map has the dungeon's dimensions and one tile and one fog state per cell.
    pub open spec fn wf(&self) -> bool {
        &&& self.width == MAP_WIDTH
        &&& self.height == MAP_HEIGHT
        &&& self.tiles@.len() == grid_len()
        &&& self.fog@.len() == grid_len()
    }

    /// The grid holds one tile per cell of the map's own width and height, and
    /// both dimensions fit an `i32`.
    pub open spec fn dims_ok(&self) -> bool {
        &&& self.width <= i32::MAX
        &&& self.height <= i32::MAX
        &&& self.tiles@.len() == self.width * self.height
    }

    /// The tile at `(x, y)` of the map's own grid; any cell off it is a wall.
    pub open spec fn tile_spec(&self, x: int, y: int) -> TileType {
        tile_in_grid(self.tiles@, self.width as int, self.height as int, x, y)
    }

    /// Row-major index of `(x, y)` in a grid of this map's width.
    pub fn idx(&self, x: usize, y: usize) -> (i: usize)
        requires
            y * self.width + x <= usize::MAX,
        ensures
            i == y * self.width + x,
    {
        y * self.width + x
    }

    /// The tile at `(x, y)`; coordinates off the grid read as a wall.
    pub fn tile_at(&self, x: i32, y: i32) -> (t: TileType)
        requires
            self.dims_ok(),
        ensures
            t == self.tile_spec(x as int, y as int),
            self.wf() ==> t == tile_in(self.tiles@, x as int, y as int),
    {
        if x < 0 || y < 0 || x >= self.width as i32 || y >= self.height as i32 {
            return TileType::Wall;
        }
        let _len = self.tiles.len();
        proof {
            lemma_index_in_grid(x as int, y as int, self.width as int, self.height as int);
        }
        let i = self.idx(x as usize, y as usize);
        self.tiles[i]
    }

    /// Whether the player can stand on `(x, y)`: it is a floor cell of the grid.
    pub fn is_walkable(&self, x: i32, y: i32) -> (b: bool)
        requires
            self.dims_ok(),
        ensures
            b == (self.tile_spec(x as int, y as int) == TileType::Floor),
    {
        self.tile_at(x, y) == TileType::Floor
    }

    /// Makes `(x, y)` floor when it lies on the grid; does nothing otherwise.
    pub fn set_floor(&mut self, x: usize, y: usize)
        requires
            old(self).dims_ok(),
        ensures
            final(self).tiles@ == if x < old(self).width && y < old(self).height {
                old(self).tiles@.update(y * old(self).width + x, TileType::Floor)
            } else {
                old(self).tiles@
            },
            old(self).wf() ==> final(self).tiles@ == with_floor(old(self).tiles@, x as int, y as int),
            final(self).fog@ == old(self).fog@,
            final(self).rooms@ == old(self).rooms@,
            final(self).width == old(self).width,
            final(self).height == old(self).height,
            final(self).boss_dead == old(self).boss_dead,
    {
        if x < self.width && y < self.height {
            let _len = self.tiles.len();
            proof {
                lemma_index_in_grid(x as int, y as int, self.width as int, self.height as int);
            }
            let i = self.idx(x, y);
            self.tiles.set(i, TileType::Floor);
        }
    }

    /// Clears the map for a new floor: every tile a wall, every cell hidden,
    /// no rooms, the boss alive. The grid keeps its size.
    pub fn reset(&mut self)
        ensures
            final(self).tiles@.len() == old(self).tiles@.len(),
            final(self).fog@.len() == old(self).fog@.len(),
            forall|i: int|
                0 <= i < final(self).tiles@.len() ==> final(self).tiles@[i] == TileType::Wall,
            forall|i: int|
                0 <= i < final(self).fog@.len() ==> final(self).fog@[i] == FogState::Hidden,
            final(self).rooms@.len() == 0,
            final(self).width == old(self).width,
            final(self).height == old(self).height,
            !final(self).boss_dead,
    {
        let mut i: usize = 0;
        while i < self.tiles.len()
            invariant
                i <= self.tiles@.len(),
                self.tiles@.len() == old(self).tiles@.len(),
                self.fog@ == old(self).fog@,
                self.width == old(self).width,
                self.height == old(self).height,
                forall|j: int| 0 <= j < i ==> self.tiles@[j] == TileType::Wall,
            decreases self.tiles@.len() - i,
        {
            self.tiles.set(i, TileType::Wall);
            i = i + 1;
        }
        let mut k: usize = 0;
        while k < self.fog.len()
            invariant
                k <= self.fog@.len(),
                self.fog@.len() == old(self).fog@.len(),
                self.tiles@.len() == old(self).tiles@.len(),
                self.width == old(self).width,
                self.height == old(self).height,
                forall|j: int| 0 <= j < self.tiles@.len() ==> self.tiles@[j] == TileType::Wall,
                forall|j: int| 0 <= j < k ==> self.fog@[j] == FogState::Hidden,
            decreases self.fog@.len() - k,
        {
            self.fog.set(k, FogState::Hidden);
            k = k + 1;
        }
        self.rooms.clear();
        self.boss_dead = false;
    }
}

impl Default for GameMap {
    /// A map of the dungeon's size, all wall and all hidden, with no rooms.
    fn default() -> (m: Self)
        ensures
            m.wf(),
            forall|i: int| 0 <= i < grid_len() ==> m.tiles@[i] == TileType::Wall,
            forall|i: int| 0 <= i < grid_len() ==> m.fog@[i] == FogState::Hidden,
            m.rooms@.len() == 0,
            !m.boss_dead,
    {
        let n: usize = MAP_WIDTH * MAP_HEIGHT;
        let mut tiles: Vec<TileType> = Vec::new();
        let mut fog: Vec<FogState> = Vec::new();
        let mut i: usize = 0;
        while i < n
            invariant
                i <= n,
                n == grid_len(),
                tiles@.len() == i,
                fog@.len() == i,
                forall|j: int| 0 <= j < i ==> tiles@[j] == TileType::Wall,
                forall|j: int| 0 <= j < i ==> fog@[j] == FogState::Hidden,
            decreases n - i,
        {
            tiles.push(TileType::Wall);
            fog.push(FogState::Hidden);
            i = i + 1;
        }
        GameMap {
            tiles,
            fog,
            rooms: Vec::new(),
            width: MAP_WIDTH,
            height: MAP_HEIGHT,
            boss_dead: false,
        }
    }
}

/// Reading a cell after `set_floor` on it gives floor, and every other cell
/// reads as before.
pub proof fn lemma_set_floor_read(before: GameMap, after: GameMap, x: int, y: int, qx: int, qy: int)
    requires
        before.dims_ok(),
        0 <= x < before.width,
        0 <= y < before.height,
        after.width == before.width,
        after.height == before.height,
        after.tiles@ == before.tiles@.update(y * before.width + x, TileType::Floor),
    ensures
        after.tile_spec(x, y) == TileType::Floor,
        (qx != x || qy != y) ==> after.tile_spec(qx, qy) == before.tile_spec(qx, qy),
{
    let w = before.width as int;
    let h = before.height as int;
    lemma_index_in_grid(x, y, w, h);
    if 0 <= qx < w && 0 <= qy < h && (qx != x || qy != y) {
        lemma_index_in_grid(qx, qy, w, h);
        if qy * w + qx == y * w + x {
            assert(qy == y) by (nonlinear_arith)
                requires
                    qy * w + qx == y * w + x,
                    0 <= qx < w,
                    0 <= x < w,
            ;
        }
    }
}

} // verus!
