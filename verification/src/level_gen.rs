use vstd::prelude::*;
use crate::map::{cell, in_bounds, grid_len, Room, TileType, MAP_HEIGHT, MAP_WIDTH};
use crate::rng::{new_rng, random_below, random_ratio};

verus! {

/// Narrowest room placed at random.
pub const MIN_ROOM_W: usize = 5;
/// Widest room placed at random.
pub const MAX_ROOM_W: usize = 11;
/// Lowest room placed at random.
pub const MIN_ROOM_H: usize = 4;
/// Tallest room placed at random.
pub const MAX_ROOM_H: usize = 9;
/// Rooms on every floor.
pub const ROOM_COUNT: usize = 5;
/// Random placements tried before falling back to a fixed layout.
pub const MAX_PLACEMENT_ATTEMPTS: u32 = 300;

/// A monster to place on a new floor.
#[derive(Clone, Copy, PartialEq, Eq, Structural, Debug)]
pub struct EnemySpawn {
    pub x: usize,
    pub y: usize,
    pub is_boss: bool,
    pub hp: i32,
    pub attack: i32,
    pub defense: i32,
    pub xp: u32,
}

/// The statistics of a monster fit their integer types at this level.
pub open spec fn enemy_fits(is_boss: bool, level: u32) -> bool {
    if is_boss {
        100 + 30 * level <= u32::MAX
    } else {
        8 + 3 * level <= i32::MAX
    }
}

/// The monster of the given kind that `make_enemy` places at `(x, y)`: the
/// boss has `40 + 15 L` hit points, `6 + 2 L` attack, `2 + L` defense and is
/// worth `100 + 30 L` experience on floor `L`; an ordinary monster has
/// `8 + 3 L`, `3 + L`, `L / 2` and `10 + 5 L`.
pub open spec fn enemy_spec(x: usize, y: usize, is_boss: bool, level: u32) -> EnemySpawn {
    if is_boss {
        EnemySpawn {
            x,
            y,
            is_boss: true,
            hp: (40 + 15 * level) as i32,
            attack: (6 + 2 * level) as i32,
            defense: (2 + level) as i32,
            xp: (100 + 30 * level) as u32,
        }
    } else {
        EnemySpawn {
            x,
            y,
            is_boss: false,
            hp: (8 + 3 * level) as i32,
            attack: (3 + level) as i32,
            defense: (level / 2) as i32,
            xp: (10 + 5 * level) as u32,
        }
    }
}

/// The monster of the given kind for floor `level`, standing at `(x, y)`.
pub fn make_enemy(x: usize, y: usize, is_boss: bool, level: u32) -> (e: EnemySpawn)
    requires
        enemy_fits(is_boss, level),
    ensures
        e == enemy_spec(x, y, is_boss, level),
{
    if is_boss {
        EnemySpawn {
            x,
            y,
            is_boss: true,
            hp: 40 + level as i32 * 15,
            attack: 6 + level as i32 * 2,
            defense: 2 + level as i32,
            xp: 100 + level * 30,
        }
    } else {
        EnemySpawn {
            x,
            y,
            is_boss: false,
            hp: 8 + level as i32 * 3,
            attack: 3 + level as i32,
            defense: level as i32 / 2,
            xp: 10 + level * 5,
        }
    }
}

/// On every floor the boss has more hit points, attack, defense and
/// experience than an ordinary monster.
pub proof fn lemma_boss_outclasses_monsters(x: usize, y: usize, level: u32)
    requires
        enemy_fits(true, level),
    ensures
        ({
            let b = enemy_spec(x, y, true, level);
            let m = enemy_spec(x, y, false, level);
            &&& b.hp > m.hp
            &&& b.attack > m.attack
            &&& b.defense > m.defense
            &&& b.xp > m.xp
        }),
{
}

/// Monsters grow no weaker from one floor to a deeper one.
pub proof fn lemma_monsters_grow_with_depth(x: usize, y: usize, is_boss: bool, l1: u32, l2: u32)
    requires
        l1 <= l2,
        enemy_fits(is_boss, l2),
    ensures
        ({
            let a = enemy_spec(x, y, is_boss, l1);
            let b = enemy_spec(x, y, is_boss, l2);
            &&& a.hp <= b.hp
            &&& a.attack <= b.attack
            &&& a.defense <= b.defense
            &&& a.xp <= b.xp
        }),
{
}


/// `v` lies between `a` and `b`, ends included, whichever is larger.
pub open spec fn between(v: int, a: int, b: int) -> bool {
    (a <= v <= b) || (b <= v <= a)
}

/// `(x, y)` is on the L-shaped corridor from `(x0, y0)` to `(x1, y1)` that runs
/// along row `y0` first and then along column `x1`.
pub open spec fn on_corridor(x0: int, y0: int, x1: int, y1: int, x: int, y: int) -> bool {
    (y == y0 && between(x, x0, x1)) || (x == x1 && between(y, y0, y1))
}

/// The cells of that corridor already walked when the walk stands on `(cx, cy)`.
spec fn walked(x0: int, y0: int, x1: int, y1: int, cx: int, cy: int, x: int, y: int) -> bool {
    if cy == y0 {
        y == y0 && between(x, x0, cx) && x != cx
    } else {
        (y == y0 && between(x, x0, x1)) || (x == x1 && between(y, y0, cy) && y != cy)
    }
}

/// Carves the corridor from `(x0, y0)` to `(x1, y1)` into a full-size grid:
/// its cells on the grid become floor, every other cell is left as it was.
fn carve_corridor(tiles: &mut Vec<TileType>, x0: usize, y0: usize, x1: usize, y1: usize)
    requires
        old(tiles)@.len() == grid_len(),
        x0 <= i32::MAX,
        y0 <= i32::MAX,
        x1 <= i32::MAX,
        y1 <= i32::MAX,
    ensures
        final(tiles)@.len() == grid_len(),
        forall|x: int, y: int|
            in_bounds(x, y) ==> #[trigger] final(tiles)@[cell(x, y)] == if on_corridor(
                x0 as int,
                y0 as int,
                x1 as int,
                y1 as int,
                x,
                y,
            ) {
                TileType::Floor
            } else {
                old(tiles)@[cell(x, y)]
            },
{
    let (mut cx, mut cy) = (x0 as i32, y0 as i32);
    let (tx, ty) = (x1 as i32, y1 as i32);
    loop
        invariant_except_break
            (cy == y0 && between(cx as int, x0 as int, x1 as int)) || (cx == x1 && between(
                cy as int,
                y0 as int,
                y1 as int,
            )),
            forall|x: int, y: int|
                in_bounds(x, y) ==> #[trigger] tiles@[cell(x, y)] == if walked(
                    x0 as int,
                    y0 as int,
                    x1 as int,
                    y1 as int,
                    cx as int,
                    cy as int,
                    x,
                    y,
                ) {
                    TileType::Floor
                } else {
                    old(tiles)@[cell(x, y)]
                },
        invariant
            tiles@.len() == grid_len(),
            tx == x1,
            ty == y1,
        ensures
            tiles@.len() == grid_len(),
            forall|x: int, y: int|
                in_bounds(x, y) ==> #[trigger] tiles@[cell(x, y)] == if on_corridor(
                    x0 as int,
                    y0 as int,
                    x1 as int,
                    y1 as int,
                    x,
                    y,
                ) {
                    TileType::Floor
                } else {
                    old(tiles)@[cell(x, y)]
                },
        decreases (if cx <= tx { tx - cx } else { cx - tx }) + (if cy <= ty { ty - cy } else { cy - ty }),
    {
        let ghost before = tiles@;
        if cx >= 0 && cy >= 0 && cx < MAP_WIDTH as i32 && cy < MAP_HEIGHT as i32 {
            let i = cy as usize * MAP_WIDTH + cx as usize;
            tiles.set(i, TileType::Floor);
            assert forall|x: int, y: int| in_bounds(x, y) && (x != cx || y != cy) implies #[trigger] tiles@[cell(x, y)] == before[cell(x, y)] by {
                if cell(x, y) == cell(cx as int, cy as int) {
                    crate::map::lemma_cell_injective(x, y, cx as int, cy as int);
                }
            }
        }
        if cx == tx && cy == ty {
            break;
        }
        if cx != tx {
            cx += if cx < tx { 1 } else { -1 };
        } else if cy != ty {
            cy += if cy < ty { 1 } else { -1 };
        }
    }
}


/// `(x, y)` is a cell of one of the first `k` rooms.
pub open spec fn in_rooms(rooms: Seq<Room>, k: int, x: int, y: int) -> bool {
    exists|i: int| 0 <= i < k && #[trigger] rooms[i].contains(x, y)
}

/// The room's rectangle fits in a `usize`.
pub open spec fn room_fits_usize(r: Room) -> bool {
    r.x + r.w <= usize::MAX && r.y + r.h <= usize::MAX
}

/// Carves every room into a full-size grid: each cell of a room that lies on
/// the grid becomes floor, every other cell is left as it was.
fn carve_rooms(tiles: &mut Vec<TileType>, rooms: &Vec<Room>)
    requires
        old(tiles)@.len() == grid_len(),
        forall|i: int| 0 <= i < rooms@.len() ==> room_fits_usize(#[trigger] rooms@[i]),
    ensures
        final(tiles)@.len() == grid_len(),
        forall|x: int, y: int|
            in_bounds(x, y) ==> #[trigger] final(tiles)@[cell(x, y)] == if in_rooms(
                rooms@,
                rooms@.len() as int,
                x,
                y,
            ) {
                TileType::Floor
            } else {
                old(tiles)@[cell(x, y)]
            },
{
    let mut k: usize = 0;
    while k < rooms.len()
        invariant
            k <= rooms@.len(),
            tiles@.len() == grid_len(),
            forall|i: int| 0 <= i < rooms@.len() ==> room_fits_usize(#[trigger] rooms@[i]),
            forall|x: int, y: int|
                in_bounds(x, y) ==> #[trigger] tiles@[cell(x, y)] == if in_rooms(
                    rooms@,
                    k as int,
                    x,
                    y,
                ) {
                    TileType::Floor
                } else {
                    old(tiles)@[cell(x, y)]
                },
        decreases rooms@.len() - k,
    {
        let room = rooms[k];
        assert(room_fits_usize(rooms@[k as int]));
        let ghost start = tiles@;
        let mut ry = room.y;
        while ry < room.y + room.h
            invariant
                room == rooms@[k as int],
                room_fits_usize(room),
                room.y <= ry <= room.y + room.h,
                tiles@.len() == grid_len(),
                forall|x: int, y: int|
                    in_bounds(x, y) ==> #[trigger] tiles@[cell(x, y)] == if room.x <= x < room.x
                        + room.w && room.y <= y < ry {
                        TileType::Floor
                    } else {
                        start[cell(x, y)]
                    },
            decreases room.y + room.h - ry,
        {
            let mut rx = room.x;
            while rx < room.x + room.w
                invariant
                    room == rooms@[k as int],
                    room_fits_usize(room),
                    room.y <= ry < room.y + room.h,
                    room.x <= rx <= room.x + room.w,
                    tiles@.len() == grid_len(),
                    forall|x: int, y: int|
                        in_bounds(x, y) ==> #[trigger] tiles@[cell(x, y)] == if (room.x <= x
                            < room.x + room.w && room.y <= y < ry) || (y == ry && room.x <= x
                            < rx) {
                            TileType::Floor
                        } else {
                            start[cell(x, y)]
                        },
                decreases room.x + room.w - rx,
            {
                if rx < MAP_WIDTH && ry < MAP_HEIGHT {
                    let ghost before = tiles@;
                    tiles.set(ry * MAP_WIDTH + rx, TileType::Floor);
                    assert forall|x: int, y: int|
                        in_bounds(x, y) && (x != rx || y != ry) implies #[trigger] tiles@[cell(
                        x,
                        y,
                    )] == before[cell(x, y)] by {
                        if cell(x, y) == cell(rx as int, ry as int) {
                            crate::map::lemma_cell_injective(x, y, rx as int, ry as int);
                        }
                    }
                }
                rx = rx + 1;
            }
            ry = ry + 1;
        }
        assert forall|x: int, y: int| in_bounds(x, y) implies #[trigger] tiles@[cell(x, y)] == if in_rooms(
            rooms@,
            k + 1,
            x,
            y,
        ) {
            TileType::Floor
        } else {
            old(tiles)@[cell(x, y)]
        } by {
            if rooms@[k as int].contains(x, y) {
                assert(in_rooms(rooms@, k + 1, x, y));
            } else if in_rooms(rooms@, k + 1, x, y) {
                let i = choose|i: int| 0 <= i < k + 1 && #[trigger] rooms@[i].contains(x, y);
                assert(in_rooms(rooms@, k as int, x, y));
            } else {
                assert(!in_rooms(rooms@, k as int, x, y));
            }
        }
        k = k + 1;
    }
}


/// `(x, y)` is on the corridor that joins the centres of rooms `i` and `i + 1`.
pub open spec fn corridor_at(rooms: Seq<Room>, i: int, x: int, y: int) -> bool {
    on_corridor(
        rooms[i].center_spec().0,
        rooms[i].center_spec().1,
        rooms[i + 1].center_spec().0,
        rooms[i + 1].center_spec().1,
        x,
        y,
    )
}

/// `(x, y)` is on one of the first `k` corridors.
pub open spec fn on_corridors(rooms: Seq<Room>, k: int, x: int, y: int) -> bool {
    exists|i: int| 0 <= i < k && #[trigger] corridor_at(rooms, i, x, y)
}

/// Where the ladder of a floor whose last room is `r` stands: two cells in from
/// the room's bottom-right corner, kept off the grid's last row and column.
pub open spec fn ladder_spec(r: Room) -> (int, int) {
    (
        if r.x + r.w - 2 <= MAP_WIDTH - 2 { r.x + r.w - 2 } else { MAP_WIDTH - 2 },
        if r.y + r.h - 2 <= MAP_HEIGHT - 2 { r.y + r.h - 2 } else { MAP_HEIGHT - 2 },
    )
}

/// Whether `(x, y)` is floor on a floor laid out with these rooms: a cell of a
/// room, of a corridor joining two consecutive rooms' centres, or the ladder.
pub open spec fn level_floor(rooms: Seq<Room>, x: int, y: int) -> bool {
    ||| in_rooms(rooms, rooms.len() as int, x, y)
    ||| on_corridors(rooms, rooms.len() - 1, x, y)
    ||| (x, y) == ladder_spec(rooms.last())
}

/// What carving needs of the rooms: at least one room; every rectangle and
/// every centre fit the integer types used to walk them; the last room leaves
/// room for the ladder.
pub open spec fn carvable(rooms: Seq<Room>) -> bool {
    &&& rooms.len() >= 1
    &&& forall|i: int|
        0 <= i < rooms.len() ==> {
            &&& room_fits_usize(#[trigger] rooms[i])
            &&& rooms[i].center_spec().0 <= i32::MAX
            &&& rooms[i].center_spec().1 <= i32::MAX
        }
    &&& rooms.last().x + rooms.last().w >= 2
    &&& rooms.last().y + rooms.last().h >= 2
}

/// Lays out a floor: starting from solid rock, carves every room, joins each
/// room's centre to the next one's with an L-shaped corridor, and opens the
/// ladder's cell. Returns the grid and the ladder's position.
pub fn carve_level(rooms: &Vec<Room>) -> (res: (Vec<TileType>, (usize, usize)))
    requires
        carvable(rooms@),
    ensures
        res.0@.len() == grid_len(),
        res.1.0 == ladder_spec(rooms@.last()).0,
        res.1.1 == ladder_spec(rooms@.last()).1,
        forall|x: int, y: int|
            in_bounds(x, y) ==> #[trigger] res.0@[cell(x, y)] == if level_floor(rooms@, x, y) {
                TileType::Floor
            } else {
                TileType::Wall
            },
{
    let mut tiles: Vec<TileType> = Vec::new();
    let n: usize = MAP_WIDTH * MAP_HEIGHT;
    let mut j: usize = 0;
    while j < n
        invariant
            j <= n,
            n == grid_len(),
            tiles@.len() == j,
            forall|i: int| 0 <= i < j ==> tiles@[i] == TileType::Wall,
        decreases n - j,
    {
        tiles.push(TileType::Wall);
        j = j + 1;
    }
    assert forall|i: int| 0 <= i < rooms@.len() implies room_fits_usize(#[trigger] rooms@[i]) by {
    }
    carve_rooms(&mut tiles, rooms);
    let ghost carved = tiles@;
    let last = rooms.len() - 1;
    let mut i: usize = 0;
    while i < last
        invariant
            last == rooms@.len() - 1,
            i <= last,
            carvable(rooms@),
            tiles@.len() == grid_len(),
            forall|x: int, y: int|
                in_bounds(x, y) ==> #[trigger] tiles@[cell(x, y)] == if on_corridors(
                    rooms@,
                    i as int,
                    x,
                    y,
                ) {
                    TileType::Floor
                } else {
                    carved[cell(x, y)]
                },
        decreases last - i,
    {
        let ra = rooms[i];
        let rb = rooms[i + 1];
        assert(room_fits_usize(rooms@[i as int]) && rooms@[i as int].center_spec().0 <= i32::MAX
            && rooms@[i as int].center_spec().1 <= i32::MAX);
        assert(room_fits_usize(rooms@[i + 1]) && rooms@[i + 1].center_spec().0 <= i32::MAX
            && rooms@[i + 1].center_spec().1 <= i32::MAX);
        let (ax, ay) = ra.center();
        let (bx, by) = rb.center();
        let ghost before = tiles@;
        carve_corridor(&mut tiles, ax, ay, bx, ay);
        carve_corridor(&mut tiles, bx, ay, bx, by);
        assert forall|x: int, y: int| in_bounds(x, y) implies #[trigger] tiles@[cell(x, y)] == if on_corridors(
            rooms@,
            i + 1,
            x,
            y,
        ) {
            TileType::Floor
        } else {
            carved[cell(x, y)]
        } by {
            if corridor_at(rooms@, i as int, x, y) {
                assert(on_corridors(rooms@, i + 1, x, y));
            } else if on_corridors(rooms@, i + 1, x, y) {
                let q = choose|q: int| 0 <= q < i + 1 && #[trigger] corridor_at(rooms@, q, x, y);
                assert(on_corridors(rooms@, i as int, x, y));
            } else {
                assert(!on_corridors(rooms@, i as int, x, y));
            }
        }
        i = i + 1;
    }
    let boss_room = rooms[last];
    let lx = if boss_room.x + boss_room.w - 2 <= MAP_WIDTH - 2 {
        boss_room.x + boss_room.w - 2
    } else {
        MAP_WIDTH - 2
    };
    let ly = if boss_room.y + boss_room.h - 2 <= MAP_HEIGHT - 2 {
        boss_room.y + boss_room.h - 2
    } else {
        MAP_HEIGHT - 2
    };
    let ghost before = tiles@;
    tiles.set(ly * MAP_WIDTH + lx, TileType::Floor);
    assert forall|x: int, y: int|
        in_bounds(x, y) && (x != lx || y != ly) implies #[trigger] tiles@[cell(x, y)] == before[cell(
        x,
        y,
    )] by {
        if cell(x, y) == cell(lx as int, ly as int) {
            crate::map::lemma_cell_injective(x, y, lx as int, ly as int);
        }
    }
    (tiles, (lx, ly))
}


/// A room lies inside the grid with a wall on every side, and is at least four
/// cells wide and tall.
pub open spec fn room_fits(r: Room) -> bool {
    &&& 1 <= r.x
    &&& 1 <= r.y
    &&& 4 <= r.w
    &&& 4 <= r.h
    &&& r.x + r.w < MAP_WIDTH
    &&& r.y + r.h < MAP_HEIGHT
}

/// A room of a size and position that the random placement can draw: width
/// `5..=11`, height `4..=9`, and a corner that keeps a wall and a spare cell
/// between the room and the grid's far edges.
pub open spec fn random_room(r: Room) -> bool {
    &&& MIN_ROOM_W <= r.w <= MAX_ROOM_W
    &&& MIN_ROOM_H <= r.h <= MAX_ROOM_H
    &&& 1 <= r.x < MAP_WIDTH - r.w - 1
    &&& 1 <= r.y < MAP_HEIGHT - r.h - 1
}

/// The room put in slot `i` when random placement left it empty: an 8 by 7
/// room on a three-column grid, or a 4 by 4 room along the top where that grid
/// would leave the map.
pub open spec fn fallback_room(i: int) -> Room {
    let x = 2 + (i % 3) * 20;
    let y = 2 + (i / 3) * 17;
    if x + 8 < MAP_WIDTH && y + 7 < MAP_HEIGHT {
        Room { x: x as usize, y: y as usize, w: 8, h: 7 }
    } else {
        Room { x: (2 + i * 4) as usize, y: 2, w: 4, h: 4 }
    }
}

/// The first `k` rooms were drawn at random and no two of them overlap; the
/// others are the fallback rooms of their slots.
pub open spec fn placed_after(rooms: Seq<Room>, k: int) -> bool {
    &&& 0 <= k <= ROOM_COUNT
    &&& forall|i: int| 0 <= i < k ==> random_room(#[trigger] rooms[i])
    &&& forall|i: int, j: int|
        0 <= i < j < k ==> !(#[trigger] rooms[i]).overlaps_spec(#[trigger] rooms[j])
    &&& forall|i: int| k <= i < ROOM_COUNT ==> #[trigger] rooms[i] == fallback_room(i)
}

/// Whether `candidate` overlaps one of the rooms of `kept`.
pub open spec fn overlaps_any(kept: Seq<Room>, candidate: Room) -> bool {
    exists|i: int| 0 <= i < kept.len() && (#[trigger] kept[i]).overlaps_spec(candidate)
}

/// The rooms kept from a sequence of drawn candidates, in order: each
/// candidate is kept when it overlaps none of the rooms kept before it.
pub open spec fn kept_rooms(candidates: Seq<Room>) -> Seq<Room>
    decreases candidates.len(),
{
    if candidates.len() == 0 {
        Seq::empty()
    } else {
        let kept = kept_rooms(candidates.drop_last());
        if overlaps_any(kept, candidates.last()) {
            kept
        } else {
            kept.push(candidates.last())
        }
    }
}

/// The five rooms of a floor whose random placement kept `kept`: the kept
/// rooms first, then the fallback room of each slot still empty.
pub open spec fn with_fallback(kept: Seq<Room>) -> Seq<Room> {
    Seq::new(ROOM_COUNT as nat, |i: int| if i < kept.len() { kept[i] } else { fallback_room(i) })
}

/// The candidates that the placement draws, in order: one to three hundred
/// random rooms, each drawn while fewer than five rooms were kept, the last
/// one drawn when five rooms were kept or three hundred drawn.
pub open spec fn placement_draws(candidates: Seq<Room>) -> bool {
    &&& 1 <= candidates.len() <= MAX_PLACEMENT_ATTEMPTS
    &&& forall|i: int| 0 <= i < candidates.len() ==> random_room(#[trigger] candidates[i])
    &&& forall|j: int|
        0 <= j < candidates.len() ==> (#[trigger] kept_rooms(candidates.take(j))).len() < ROOM_COUNT
    &&& candidates.len() == MAX_PLACEMENT_ATTEMPTS || kept_rooms(candidates).len() == ROOM_COUNT
}

/// The rooms that the placement produces from these drawn candidates.
pub open spec fn placed_from(rooms: Seq<Room>, candidates: Seq<Room>) -> bool {
    &&& placement_draws(candidates)
    &&& rooms == with_fallback(kept_rooms(candidates))
}

/// The rooms are those the placement produces from some sequence of draws.
pub open spec fn placed_rooms(rooms: Seq<Room>) -> bool {
    exists|candidates: Seq<Room>| #[trigger] placed_from(rooms, candidates)
}

/// Whether `candidate` overlaps any of the rooms.
fn any_overlaps(rooms: &Vec<Room>, candidate: &Room) -> (b: bool)
    requires
        forall|i: int| 0 <= i < rooms@.len() ==> (#[trigger] rooms@[i]).overlaps_fits(*candidate),
    ensures
        b == overlaps_any(rooms@, *candidate),
{
    let mut i: usize = 0;
    while i < rooms.len()
        invariant
            i <= rooms@.len(),
            forall|q: int| 0 <= q < rooms@.len() ==> (#[trigger] rooms@[q]).overlaps_fits(*candidate),
            forall|q: int| 0 <= q < i ==> !(#[trigger] rooms@[q]).overlaps_spec(*candidate),
        decreases rooms@.len() - i,
    {
        assert(rooms@[i as int].overlaps_fits(*candidate));
        if rooms[i].overlaps(candidate) {
            return true;
        }
        i = i + 1;
    }
    false
}

/// Decides on a drawn candidate: it is kept, after the rooms kept so far,
/// exactly when it overlaps none of them.
pub fn keep_room(kept: &mut Vec<Room>, candidate: Room)
    requires
        forall|i: int| 0 <= i < old(kept)@.len() ==> (#[trigger] old(kept)@[i]).overlaps_fits(candidate),
    ensures
        final(kept)@ == if overlaps_any(old(kept)@, candidate) {
            old(kept)@
        } else {
            old(kept)@.push(candidate)
        },
{
    if !any_overlaps(kept, &candidate) {
        kept.push(candidate);
    }
}

/// Fills the slots that random placement left empty, up to five rooms, with
/// their fallback rooms.
pub fn fill_fallback_rooms(rooms: &mut Vec<Room>)
    requires
        old(rooms)@.len() <= ROOM_COUNT,
    ensures
        final(rooms)@ == with_fallback(old(rooms)@),
{
    let ghost kept = rooms@;
    while rooms.len() < ROOM_COUNT
        invariant
            kept.len() <= rooms@.len() <= ROOM_COUNT,
            forall|i: int| 0 <= i < kept.len() ==> #[trigger] rooms@[i] == kept[i],
            forall|i: int| kept.len() <= i < rooms@.len() ==> #[trigger] rooms@[i] == fallback_room(i),
        decreases ROOM_COUNT - rooms@.len(),
    {
        let i = rooms.len();
        let x = 2 + (i % 3) * 20;
        let y = 2 + (i / 3) * 17;
        let (w, h) = (8usize, 7usize);
        if x + w < MAP_WIDTH && y + h < MAP_HEIGHT {
            rooms.push(Room { x, y, w, h });
        } else {
            rooms.push(Room { x: 2 + i * 4, y: 2, w: 4, h: 4 });
        }
    }
    assert(rooms@ =~= with_fallback(kept));
}

/// The rooms kept from random candidates are random rooms, no two of which
/// overlap; the first candidate is always kept, and no more rooms are kept
/// than candidates drawn.
proof fn lemma_kept_rooms(candidates: Seq<Room>)
    requires
        forall|i: int| 0 <= i < candidates.len() ==> random_room(#[trigger] candidates[i]),
    ensures
        kept_rooms(candidates).len() <= candidates.len(),
        candidates.len() >= 1 ==> kept_rooms(candidates).len() >= 1 && kept_rooms(candidates)[0]
            == candidates[0],
        forall|i: int|
            0 <= i < kept_rooms(candidates).len() ==> random_room(#[trigger] kept_rooms(candidates)[i]),
        forall|i: int, j: int|
            0 <= i < j < kept_rooms(candidates).len() ==> !(#[trigger] kept_rooms(candidates)[i]).overlaps_spec(
                #[trigger] kept_rooms(candidates)[j],
            ),
    decreases candidates.len(),
{
    if candidates.len() > 0 {
        let prev = candidates.drop_last();
        assert forall|i: int| 0 <= i < prev.len() implies random_room(#[trigger] prev[i]) by {
            assert(prev[i] == candidates[i]);
        }
        lemma_kept_rooms(prev);
        let kept = kept_rooms(prev);
        let c = candidates.last();
        if !overlaps_any(kept, c) {
            let next = kept.push(c);
            assert(kept_rooms(candidates) == next);
            assert forall|i: int, j: int| 0 <= i < j < next.len() implies !(#[trigger] next[i]).overlaps_spec(
                #[trigger] next[j],
            ) by {
                if j == kept.len() {
                    assert(!kept[i].overlaps_spec(c));
                } else {
                    assert(next[i] == kept[i] && next[j] == kept[j]);
                }
            }
            if prev.len() == 0 {
                assert(kept.len() == 0);
                assert(next[0] == candidates[0]);
            } else {
                assert(prev[0] == candidates[0]);
                assert(next[0] == kept[0]);
            }
        } else {
            if prev.len() == 0 {
                assert(kept.len() == 0);
                assert(!overlaps_any(kept, c));
            }
            assert(prev[0] == candidates[0]);
        }
    }
}

/// Places the five rooms of a floor: up to three hundred random draws, each
/// decided by `keep_room`, then fallback rooms for the slots still empty.
/// Returns the rooms and the candidates drawn.
fn place_rooms(rng: &mut rand::rngs::ThreadRng) -> (res: (Vec<Room>, Ghost<Seq<Room>>))
    ensures
        placed_from(res.0@, res.1@),
{
    let mut rooms: Vec<Room> = Vec::new();
    let ghost mut candidates: Seq<Room> = Seq::empty();
    let mut attempts: u32 = 0;
    while rooms.len() < ROOM_COUNT && attempts < MAX_PLACEMENT_ATTEMPTS
        invariant
            rooms@.len() <= ROOM_COUNT,
            candidates.len() == attempts,
            attempts <= MAX_PLACEMENT_ATTEMPTS,
            rooms@ == kept_rooms(candidates),
            forall|i: int| 0 <= i < candidates.len() ==> random_room(#[trigger] candidates[i]),
            forall|j: int|
                0 <= j < candidates.len() ==> (#[trigger] kept_rooms(candidates.take(j))).len()
                    < ROOM_COUNT,
        decreases MAX_PLACEMENT_ATTEMPTS - attempts,
    {
        proof {
            lemma_kept_rooms(candidates);
        }
        attempts = attempts + 1;
        let w = random_below(rng, MIN_ROOM_W, MAX_ROOM_W + 1);
        let h = random_below(rng, MIN_ROOM_H, MAX_ROOM_H + 1);
        if !(w + 2 >= MAP_WIDTH || h + 2 >= MAP_HEIGHT) {
            let x = random_below(rng, 1, MAP_WIDTH - w - 1);
            let y = random_below(rng, 1, MAP_HEIGHT - h - 1);
            let candidate = Room { x, y, w, h };
            assert forall|i: int| 0 <= i < rooms@.len() implies (#[trigger] rooms@[i]).overlaps_fits(
                candidate,
            ) by {
                assert(random_room(rooms@[i]));
            }
            let ghost before = candidates;
            keep_room(&mut rooms, candidate);
            proof {
                candidates = candidates.push(candidate);
                assert(candidates.drop_last() == before);
                assert forall|j: int| 0 <= j < candidates.len() implies (#[trigger] kept_rooms(
                    candidates.take(j),
                )).len() < ROOM_COUNT by {
                    if j < before.len() {
                        assert(candidates.take(j) == before.take(j));
                    } else {
                        assert(candidates.take(j) == before);
                    }
                }
            }
        }
    }
    proof {
        lemma_kept_rooms(candidates);
        assert(candidates.len() >= 1) by {
            if candidates.len() == 0 {
                assert(kept_rooms(candidates).len() == 0);
            }
        }
    }
    fill_fallback_rooms(&mut rooms);
    (rooms, Ghost(candidates))
}

/// Whatever the draws, the first room of a floor is the first candidate drawn
/// (it overlaps nothing kept before it), the rooms kept from the draws come
/// first, are random rooms and overlap one another nowhere, and the other
/// slots hold their fallback rooms.
pub proof fn lemma_placed_shape(rooms: Seq<Room>, candidates: Seq<Room>)
    requires
        placed_from(rooms, candidates),
    ensures
        rooms.len() == ROOM_COUNT,
        rooms[0] == candidates[0],
        1 <= kept_rooms(candidates).len() <= ROOM_COUNT,
        placed_after(rooms, kept_rooms(candidates).len() as int),
{
    lemma_kept_rooms(candidates);
    let kept = kept_rooms(candidates);
    if candidates.len() == MAX_PLACEMENT_ATTEMPTS {
        let n = candidates.len() - 1;
        let prev = candidates.drop_last();
        assert(candidates.take(n) == prev);
        assert(kept_rooms(candidates.take(n)).len() < ROOM_COUNT);
        assert(kept.len() <= kept_rooms(prev).len() + 1);
    }
    assert forall|i: int| 0 <= i < kept.len() implies random_room(#[trigger] rooms[i]) by {
        assert(rooms[i] == kept[i]);
        assert(random_room(kept[i]));
    }
    assert forall|i: int, j: int| 0 <= i < j < kept.len() implies !(#[trigger] rooms[i]).overlaps_spec(
        #[trigger] rooms[j],
    ) by {
        assert(rooms[i] == kept[i] && rooms[j] == kept[j]);
        assert(!kept[i].overlaps_spec(kept[j]));
    }
}

/// Every room that placement can produce fits inside the grid.
pub proof fn lemma_placed_rooms_fit(rooms: Seq<Room>)
    requires
        placed_rooms(rooms),
    ensures
        rooms.len() == ROOM_COUNT,
        forall|i: int| 0 <= i < rooms.len() ==> room_fits(#[trigger] rooms[i]),
{
    let candidates = choose|candidates: Seq<Room>| #[trigger] placed_from(rooms, candidates);
    lemma_placed_shape(rooms, candidates);
    let k = kept_rooms(candidates).len() as int;
    assert forall|i: int| 0 <= i < rooms.len() implies room_fits(#[trigger] rooms[i]) by {
        if i < k {
            assert(random_room(rooms[i]));
        } else {
            assert(rooms[i] == fallback_room(i));
            assert(0 <= i < 5);
            if i == 0 {} else if i == 1 {} else if i == 2 {} else if i == 3 {} else {}
        }
    }
}


/// `(x, y)` is an interior cell of one of the rooms `1..=3`, where monsters and
/// chests are placed.
pub open spec fn in_middle_rooms(rooms: Seq<Room>, x: int, y: int) -> bool {
    exists|r: int| 1 <= r <= 3 && #[trigger] rooms[r].interior_contains(x, y)
}

/// Draws a cell of the room's interior: a column, then a row.
fn random_spot(rng: &mut rand::rngs::ThreadRng, room: Room) -> (p: (usize, usize))
    requires
        room_fits(room),
    ensures
        room.interior_contains(p.0 as int, p.1 as int),
{
    let x = random_below(rng, room.x + 1, room.x + room.w - 1);
    let y = random_below(rng, room.y + 1, room.y + room.h - 1);
    (x, y)
}

/// The room that the `i`-th batch of placements goes to: rooms 1, 2 and 3,
/// then room 3 again.
pub open spec fn batch_room(i: int) -> int {
    if i < 3 {
        i + 1
    } else {
        3
    }
}

/// The size of the `i`-th batch: each of the first three is one to three
/// monsters or one or two chests; the last is one to three things, each a
/// monster or a chest.
pub open spec fn batch_shape(monsters: int, chests: int, i: int) -> bool {
    if i < 3 {
        (1 <= monsters <= 3 && chests == 0) || (monsters == 0 && 1 <= chests <= 2)
    } else {
        0 <= monsters && 0 <= chests && 1 <= monsters + chests <= 3
    }
}

/// The `i`-th batch, between the boundaries `eb[i]..eb[i + 1]` of the
/// monsters and `cb[i]..cb[i + 1]` of the chests, has the shape of its rank.
pub open spec fn batch_ok(eb: Seq<int>, cb: Seq<int>, i: int) -> bool {
    batch_shape(eb[i + 1] - eb[i], cb[i + 1] - cb[i], i)
}

/// Monster `k`, of batch `i`, is an ordinary monster of this floor inside the
/// interior of that batch's room.
pub open spec fn monster_placed(
    rooms: Seq<Room>,
    enemies: Seq<EnemySpawn>,
    level: u32,
    i: int,
    k: int,
) -> bool {
    &&& enemies[k] == enemy_spec(enemies[k].x, enemies[k].y, false, level)
    &&& rooms[batch_room(i)].interior_contains(enemies[k].x as int, enemies[k].y as int)
}

/// Chest `k`, of batch `i`, lies inside the interior of that batch's room.
pub open spec fn chest_placed(rooms: Seq<Room>, chests: Seq<(usize, usize)>, i: int, k: int) -> bool {
    rooms[batch_room(i)].interior_contains(chests[k].0 as int, chests[k].1 as int)
}

/// The monsters and chests of the middle rooms come in four batches, with
/// boundaries `eb` among the monsters and `cb` among the chests: one batch
/// for each of rooms 1, 2 and 3, of one to three monsters or one or two
/// chests, then one batch of one to three more things for room 3.
pub open spec fn populated_as(
    rooms: Seq<Room>,
    enemies: Seq<EnemySpawn>,
    chests: Seq<(usize, usize)>,
    level: u32,
    eb: Seq<int>,
    cb: Seq<int>,
) -> bool {
    &&& eb.len() == 5
    &&& cb.len() == 5
    &&& eb[0] == 0
    &&& cb[0] == 0
    &&& eb[4] == enemies.len()
    &&& cb[4] == chests.len()
    &&& forall|i: int| 0 <= i < 4 ==> #[trigger] batch_ok(eb, cb, i)
    &&& forall|i: int, k: int|
        0 <= i < 4 && eb[i] <= k < eb[i + 1] ==> #[trigger] monster_placed(rooms, enemies, level, i, k)
    &&& forall|i: int, k: int|
        0 <= i < 4 && cb[i] <= k < cb[i + 1] ==> #[trigger] chest_placed(rooms, chests, i, k)
}

/// The middle rooms are filled in four batches of the shapes that
/// `populate_rooms` draws.
pub open spec fn populated_in_batches(
    rooms: Seq<Room>,
    enemies: Seq<EnemySpawn>,
    chests: Seq<(usize, usize)>,
    level: u32,
) -> bool {
    exists|eb: Seq<int>, cb: Seq<int>| #[trigger] populated_as(rooms, enemies, chests, level, eb, cb)
}

/// What placing one thing in a middle room does: with `as_monster`, an
/// ordinary monster of this floor joins the monsters at `spot`; otherwise a
/// chest joins the chests there.
pub open spec fn place_thing_spec(
    as_monster: bool,
    spot: (usize, usize),
    level: u32,
    enemies: Seq<EnemySpawn>,
    chests: Seq<(usize, usize)>,
) -> (Seq<EnemySpawn>, Seq<(usize, usize)>) {
    if as_monster {
        (enemies.push(enemy_spec(spot.0, spot.1, false, level)), chests)
    } else {
        (enemies, chests.push(spot))
    }
}

/// The monsters and chests that a sequence of draws puts in the middle rooms,
/// each draw a kind (monster or chest) and a cell, taken in order.
pub open spec fn populate_spec(level: u32, draws: Seq<(bool, (usize, usize))>) -> (
    Seq<EnemySpawn>,
    Seq<(usize, usize)>,
)
    decreases draws.len(),
{
    if draws.len() == 0 {
        (Seq::empty(), Seq::empty())
    } else {
        let prev = populate_spec(level, draws.drop_last());
        place_thing_spec(draws.last().0, draws.last().1, level, prev.0, prev.1)
    }
}

/// The monsters and chests are those that these draws, every cell of which
/// lies inside one of the middle rooms, put there.
pub open spec fn populated_by(
    rooms: Seq<Room>,
    enemies: Seq<EnemySpawn>,
    chests: Seq<(usize, usize)>,
    level: u32,
    draws: Seq<(bool, (usize, usize))>,
) -> bool {
    &&& (enemies, chests) == populate_spec(level, draws)
    &&& forall|k: int|
        0 <= k < draws.len() ==> in_middle_rooms(
            rooms,
            (#[trigger] draws[k]).1.0 as int,
            draws[k].1.1 as int,
        )
}

/// The middle rooms are filled as `populate_rooms` fills them: in four
/// batches of the shapes it draws, and as a sequence of draws decides.
pub open spec fn populated(
    rooms: Seq<Room>,
    enemies: Seq<EnemySpawn>,
    chests: Seq<(usize, usize)>,
    level: u32,
) -> bool {
    &&& populated_in_batches(rooms, enemies, chests, level)
    &&& exists|draws: Seq<(bool, (usize, usize))>| #[trigger] populated_by(rooms, enemies, chests, level, draws)
}

/// Places one drawn thing: a monster of this floor at `spot` when
/// `as_monster`, a chest there otherwise.
pub fn place_thing(
    as_monster: bool,
    spot: (usize, usize),
    level: u32,
    enemies: &mut Vec<EnemySpawn>,
    chests: &mut Vec<(usize, usize)>,
)
    requires
        enemy_fits(false, level),
    ensures
        (final(enemies)@, final(chests)@) == place_thing_spec(
            as_monster,
            spot,
            level,
            old(enemies)@,
            old(chests)@,
        ),
{
    if as_monster {
        enemies.push(make_enemy(spot.0, spot.1, false, level));
    } else {
        chests.push(spot);
    }
}

/// However the middle rooms are filled, there are at most twelve monsters and
/// at most nine chests besides the boss, and four to twelve things in all.
pub proof fn lemma_population_counts(
    rooms: Seq<Room>,
    enemies: Seq<EnemySpawn>,
    chests: Seq<(usize, usize)>,
    level: u32,
)
    requires
        populated(rooms, enemies, chests, level),
    ensures
        enemies.len() <= 12,
        chests.len() <= 9,
        4 <= enemies.len() + chests.len() <= 12,
{
    let (eb, cb) = choose|eb: Seq<int>, cb: Seq<int>| #[trigger] populated_as(rooms, enemies, chests, level, eb, cb);
    assert(batch_ok(eb, cb, 0));
    assert(batch_ok(eb, cb, 1));
    assert(batch_ok(eb, cb, 2));
    assert(batch_ok(eb, cb, 3));
}

/// Where the middle rooms are filled as `populate_rooms` fills them, every
/// monster is an ordinary one of this floor and every monster and chest lies
/// inside one of the middle rooms.
proof fn lemma_populated_facts(
    rooms: Seq<Room>,
    enemies: Seq<EnemySpawn>,
    chests: Seq<(usize, usize)>,
    level: u32,
)
    requires
        populated(rooms, enemies, chests, level),
    ensures
        forall|k: int|
            0 <= k < enemies.len() ==> #[trigger] enemies[k] == enemy_spec(
                enemies[k].x,
                enemies[k].y,
                false,
                level,
            ) && in_middle_rooms(rooms, enemies[k].x as int, enemies[k].y as int),
        forall|k: int|
            0 <= k < chests.len() ==> in_middle_rooms(
                rooms,
                (#[trigger] chests[k]).0 as int,
                chests[k].1 as int,
            ),
{
    let (eb, cb) = choose|eb: Seq<int>, cb: Seq<int>| #[trigger] populated_as(rooms, enemies, chests, level, eb, cb);
    assert(batch_ok(eb, cb, 0));
    assert(batch_ok(eb, cb, 1));
    assert(batch_ok(eb, cb, 2));
    assert(batch_ok(eb, cb, 3));
    assert forall|k: int| 0 <= k < enemies.len() implies #[trigger] enemies[k] == enemy_spec(
        enemies[k].x,
        enemies[k].y,
        false,
        level,
    ) && in_middle_rooms(rooms, enemies[k].x as int, enemies[k].y as int) by {
        let j: int = if k < eb[1] {
            0
        } else if k < eb[2] {
            1
        } else if k < eb[3] {
            2
        } else {
            3
        };
        assert(monster_placed(rooms, enemies, level, j, k));
        assert(rooms[batch_room(j)].interior_contains(enemies[k].x as int, enemies[k].y as int));
    }
    assert forall|k: int| 0 <= k < chests.len() implies in_middle_rooms(
        rooms,
        (#[trigger] chests[k]).0 as int,
        chests[k].1 as int,
    ) by {
        let j: int = if k < cb[1] {
            0
        } else if k < cb[2] {
            1
        } else if k < cb[3] {
            2
        } else {
            3
        };
        assert(chest_placed(rooms, chests, j, k));
        assert(rooms[batch_room(j)].interior_contains(chests[k].0 as int, chests[k].1 as int));
    }
}

/// Fills the middle rooms: each of rooms 1, 2 and 3 gets, at even odds, one
/// to three monsters or one or two chests; room 3 then gets one to three more
/// things, each at even odds a monster or a chest. Every thing is placed by
/// `place_thing`; returns the monsters, the chests and the draws made.
fn populate_rooms(rng: &mut rand::rngs::ThreadRng, rooms: &Vec<Room>, level: u32) -> (res: (
    Vec<EnemySpawn>,
    Vec<(usize, usize)>,
    Ghost<Seq<(bool, (usize, usize))>>,
))
    requires
        rooms@.len() == ROOM_COUNT,
        forall|i: int| 0 <= i < rooms@.len() ==> room_fits(#[trigger] rooms@[i]),
        enemy_fits(false, level),
    ensures
        populated_in_batches(rooms@, res.0@, res.1@, level),
        populated_by(rooms@, res.0@, res.1@, level, res.2@),
{
    let mut enemies: Vec<EnemySpawn> = Vec::new();
    let mut chests: Vec<(usize, usize)> = Vec::new();
    let ghost mut draws: Seq<(bool, (usize, usize))> = Seq::empty();
    let ghost mut eb: Seq<int> = seq![0];
    let ghost mut cb: Seq<int> = seq![0];
    assert((enemies@, chests@) == populate_spec(level, draws));
    let upper: usize = if rooms.len() >= 1 {
        let t = rooms.len() - 1;
        if 4 < t {
            4
        } else {
            t
        }
    } else {
        0
    };
    let mut i: usize = 1;
    while i < upper
        invariant
            upper == 4,
            1 <= i <= upper,
            rooms@.len() == ROOM_COUNT,
            forall|q: int| 0 <= q < rooms@.len() ==> room_fits(#[trigger] rooms@[q]),
            enemy_fits(false, level),
            (enemies@, chests@) == populate_spec(level, draws),
            forall|k: int|
                0 <= k < draws.len() ==> in_middle_rooms(
                    rooms@,
                    (#[trigger] draws[k]).1.0 as int,
                    draws[k].1.1 as int,
                ),
            eb.len() == i,
            cb.len() == i,
            eb[0] == 0,
            cb[0] == 0,
            eb.last() == enemies@.len(),
            cb.last() == chests@.len(),
            forall|j: int| 0 <= j < eb.len() ==> 0 <= #[trigger] eb[j] <= enemies@.len(),
            forall|j: int| 0 <= j < cb.len() ==> 0 <= #[trigger] cb[j] <= chests@.len(),
            forall|j: int| 0 <= j < i - 1 ==> #[trigger] batch_ok(eb, cb, j),
            forall|j: int, k: int|
                0 <= j < i - 1 && eb[j] <= k < eb[j + 1] ==> #[trigger] monster_placed(
                    rooms@,
                    enemies@,
                    level,
                    j,
                    k,
                ),
            forall|j: int, k: int|
                0 <= j < i - 1 && cb[j] <= k < cb[j + 1] ==> #[trigger] chest_placed(
                    rooms@,
                    chests@,
                    j,
                    k,
                ),
        decreases upper - i,
    {
        let room = rooms[i];
        assert(room_fits(rooms@[i as int]));
        let ghost before_e = enemies@;
        let ghost before_c = chests@;
        let ghost e0 = enemies@.len() as int;
        let ghost c0 = chests@.len() as int;
        let as_monster = random_ratio(rng, 1, 2);
        if as_monster {
            let count = random_below(rng, 1, 4);
            let mut n: usize = 0;
            while n < count
                invariant
                    room == rooms@[i as int],
                    1 <= i < 4,
                    as_monster,
                    rooms@.len() == ROOM_COUNT,
                    room_fits(room),
                    n <= count < 4,
                    1 <= count,
                    enemies@.len() == e0 + n,
                    chests@ == before_c,
                    e0 == before_e.len(),
                    enemy_fits(false, level),
                    (enemies@, chests@) == populate_spec(level, draws),
                    forall|k: int|
                        0 <= k < draws.len() ==> in_middle_rooms(
                            rooms@,
                            (#[trigger] draws[k]).1.0 as int,
                            draws[k].1.1 as int,
                        ),
                    forall|k: int| 0 <= k < e0 ==> #[trigger] enemies@[k] == before_e[k],
                    forall|k: int|
                        e0 <= k < enemies@.len() ==> #[trigger] monster_placed(
                            rooms@,
                            enemies@,
                            level,
                            i - 1,
                            k,
                        ),
                decreases count - n,
            {
                let ghost prev_e = enemies@;
                let ghost prev_d = draws;
                let spot = random_spot(rng, room);
                place_thing(as_monster, spot, level, &mut enemies, &mut chests);
                proof {
                    draws = draws.push((as_monster, spot));
                    assert(draws.drop_last() == prev_d);
                    assert(rooms@[i as int].interior_contains(spot.0 as int, spot.1 as int));
                    assert forall|k: int| 0 <= k < draws.len() implies in_middle_rooms(
                        rooms@,
                        (#[trigger] draws[k]).1.0 as int,
                        draws[k].1.1 as int,
                    ) by {
                        if k < prev_d.len() {
                            assert(draws[k] == prev_d[k]);
                        }
                    }
                }
                assert forall|k: int| e0 <= k < enemies@.len() implies #[trigger] monster_placed(
                    rooms@,
                    enemies@,
                    level,
                    i - 1,
                    k,
                ) by {
                    if k < prev_e.len() {
                        assert(monster_placed(rooms@, prev_e, level, i - 1, k));
                        assert(enemies@[k] == prev_e[k]);
                    } else {
                        assert(enemies@[k] == enemy_spec(spot.0, spot.1, false, level));
                        assert(batch_room(i - 1) == i);
                    }
                }
                n = n + 1;
            }
        } else {
            let count = random_below(rng, 1, 3);
            let mut n: usize = 0;
            while n < count
                invariant
                    room == rooms@[i as int],
                    1 <= i < 4,
                    !as_monster,
                    rooms@.len() == ROOM_COUNT,
                    room_fits(room),
                    n <= count < 3,
                    1 <= count,
                    enemies@ == before_e,
                    chests@.len() == c0 + n,
                    c0 == before_c.len(),
                    enemy_fits(false, level),
                    (enemies@, chests@) == populate_spec(level, draws),
                    forall|k: int|
                        0 <= k < draws.len() ==> in_middle_rooms(
                            rooms@,
                            (#[trigger] draws[k]).1.0 as int,
                            draws[k].1.1 as int,
                        ),
                    forall|k: int| 0 <= k < c0 ==> #[trigger] chests@[k] == before_c[k],
                    forall|k: int|
                        c0 <= k < chests@.len() ==> #[trigger] chest_placed(
                            rooms@,
                            chests@,
                            i - 1,
                            k,
                        ),
                decreases count - n,
            {
                let ghost prev_c = chests@;
                let ghost prev_d = draws;
                let spot = random_spot(rng, room);
                place_thing(as_monster, spot, level, &mut enemies, &mut chests);
                proof {
                    draws = draws.push((as_monster, spot));
                    assert(draws.drop_last() == prev_d);
                    assert(rooms@[i as int].interior_contains(spot.0 as int, spot.1 as int));
                    assert forall|k: int| 0 <= k < draws.len() implies in_middle_rooms(
                        rooms@,
                        (#[trigger] draws[k]).1.0 as int,
                        draws[k].1.1 as int,
                    ) by {
                        if k < prev_d.len() {
                            assert(draws[k] == prev_d[k]);
                        }
                    }
                }
                assert forall|k: int| c0 <= k < chests@.len() implies #[trigger] chest_placed(
                    rooms@,
                    chests@,
                    i - 1,
                    k,
                ) by {
                    if k < prev_c.len() {
                        assert(chest_placed(rooms@, prev_c, i - 1, k));
                        assert(chests@[k] == prev_c[k]);
                    } else {
                        assert(chests@[k] == spot);
                        assert(batch_room(i - 1) == i);
                    }
                }
                n = n + 1;
            }
        }
        proof {
            let eb2 = eb.push(enemies@.len() as int);
            let cb2 = cb.push(chests@.len() as int);
            assert(batch_ok(eb2, cb2, i - 1));
            assert forall|j: int| 0 <= j < i implies #[trigger] batch_ok(eb2, cb2, j) by {
                if j < i - 1 {
                    assert(batch_ok(eb, cb, j));
                }
            }
            assert forall|j: int, k: int|
                0 <= j < i && eb2[j] <= k < eb2[j + 1] implies #[trigger] monster_placed(
                rooms@,
                enemies@,
                level,
                j,
                k,
            ) by {
                if j < i - 1 {
                    assert(batch_ok(eb, cb, j));
                    assert(monster_placed(rooms@, before_e, level, j, k));
                    assert(enemies@[k] == before_e[k]);
                }
            }
            assert forall|j: int, k: int|
                0 <= j < i && cb2[j] <= k < cb2[j + 1] implies #[trigger] chest_placed(
                rooms@,
                chests@,
                j,
                k,
            ) by {
                if j < i - 1 {
                    assert(batch_ok(eb, cb, j));
                    assert(chest_placed(rooms@, before_c, j, k));
                    assert(chests@[k] == before_c[k]);
                }
            }
            eb = eb2;
            cb = cb2;
        }
        i = i + 1;
    }
    let room = rooms[3];
    assert(room_fits(rooms@[3]));
    let mix = random_below(rng, 1, 4);
    let ghost before_e = enemies@;
    let ghost before_c = chests@;
    let ghost e0 = enemies@.len() as int;
    let ghost c0 = chests@.len() as int;
    let mut n: usize = 0;
    while n < mix
        invariant
            room == rooms@[3],
            rooms@.len() == ROOM_COUNT,
            room_fits(room),
            n <= mix < 4,
            1 <= mix,
            enemies@.len() - e0 + chests@.len() - c0 == n,
            e0 == before_e.len(),
            c0 == before_c.len(),
            e0 <= enemies@.len(),
            c0 <= chests@.len(),
            enemy_fits(false, level),
            (enemies@, chests@) == populate_spec(level, draws),
            forall|k: int|
                0 <= k < draws.len() ==> in_middle_rooms(
                    rooms@,
                    (#[trigger] draws[k]).1.0 as int,
                    draws[k].1.1 as int,
                ),
            forall|k: int| 0 <= k < e0 ==> #[trigger] enemies@[k] == before_e[k],
            forall|k: int| 0 <= k < c0 ==> #[trigger] chests@[k] == before_c[k],
            forall|k: int|
                e0 <= k < enemies@.len() ==> #[trigger] monster_placed(rooms@, enemies@, level, 3, k),
            forall|k: int| c0 <= k < chests@.len() ==> #[trigger] chest_placed(rooms@, chests@, 3, k),
            eb.len() == 4,
            cb.len() == 4,
            forall|j: int| 0 <= j < eb.len() ==> 0 <= #[trigger] eb[j] <= e0,
            forall|j: int| 0 <= j < cb.len() ==> 0 <= #[trigger] cb[j] <= c0,
        decreases mix - n,
    {
        let ghost prev_e = enemies@;
        let ghost prev_c = chests@;
        let ghost prev_d = draws;
        let as_monster = random_ratio(rng, 1, 2);
        let spot = random_spot(rng, room);
        place_thing(as_monster, spot, level, &mut enemies, &mut chests);
        proof {
            draws = draws.push((as_monster, spot));
            assert(draws.drop_last() == prev_d);
            assert(rooms@[3].interior_contains(spot.0 as int, spot.1 as int));
            assert forall|k: int| 0 <= k < draws.len() implies in_middle_rooms(
                rooms@,
                (#[trigger] draws[k]).1.0 as int,
                draws[k].1.1 as int,
            ) by {
                if k < prev_d.len() {
                    assert(draws[k] == prev_d[k]);
                }
            }
        }
        if as_monster {
            assert forall|k: int| e0 <= k < enemies@.len() implies #[trigger] monster_placed(
                rooms@,
                enemies@,
                level,
                3,
                k,
            ) by {
                if k < prev_e.len() {
                    assert(monster_placed(rooms@, prev_e, level, 3, k));
                    assert(enemies@[k] == prev_e[k]);
                } else {
                    assert(enemies@[k] == enemy_spec(spot.0, spot.1, false, level));
                }
            }
        } else {
            assert forall|k: int| c0 <= k < chests@.len() implies #[trigger] chest_placed(
                rooms@,
                chests@,
                3,
                k,
            ) by {
                if k < prev_c.len() {
                    assert(chest_placed(rooms@, prev_c, 3, k));
                    assert(chests@[k] == prev_c[k]);
                } else {
                    assert(chests@[k] == spot);
                }
            }
        }
        n = n + 1;
    }
    proof {
        let eb2 = eb.push(enemies@.len() as int);
        let cb2 = cb.push(chests@.len() as int);
        assert(batch_ok(eb2, cb2, 3));
        assert forall|j: int| 0 <= j < 4 implies #[trigger] batch_ok(eb2, cb2, j) by {
            if j < 3 {
                assert(batch_ok(eb, cb, j));
            }
        }
        assert forall|j: int, k: int|
            0 <= j < 4 && eb2[j] <= k < eb2[j + 1] implies #[trigger] monster_placed(
            rooms@,
            enemies@,
            level,
            j,
            k,
        ) by {
            if j < 3 {
                assert(batch_ok(eb, cb, j));
                assert(monster_placed(rooms@, before_e, level, j, k));
                assert(enemies@[k] == before_e[k]);
            }
        }
        assert forall|j: int, k: int|
            0 <= j < 4 && cb2[j] <= k < cb2[j + 1] implies #[trigger] chest_placed(
            rooms@,
            chests@,
            j,
            k,
        ) by {
            if j < 3 {
                assert(batch_ok(eb, cb, j));
                assert(chest_placed(rooms@, before_c, j, k));
                assert(chests@[k] == before_c[k]);
            }
        }
        assert(populated_as(rooms@, enemies@, chests@, level, eb2, cb2));
    }
    (enemies, chests, Ghost(draws))
}


/// Everything needed to set up a new floor.
pub struct LevelData {
    pub tiles: Vec<TileType>,
    pub rooms: Vec<Room>,
    pub player_start: (usize, usize),
    pub enemies: Vec<EnemySpawn>,
    pub chests: Vec<(usize, usize)>,
    pub ladder_pos: (usize, usize),
}

/// What every floor produced by `generate_level` satisfies, whatever the dice
/// gave: the five rooms that `keep_room` and `fill_fallback_rooms` make of some
/// sequence of drawn candidates; a grid whose floor is exactly the
/// rooms, the corridors joining consecutive rooms' centres, and the ladder; the
/// player on the first room's centre; the boss, last of the monsters, on the
/// last room's centre; the other monsters and the chests placed in four
/// batches, one for each of rooms 1, 2 and 3 (one to three monsters or one or
/// two chests) and one more for room 3 (one to three things), as `place_thing`
/// makes them of some sequence of draws, so that every
/// other monster is an ordinary one of this floor and, like every chest, inside
/// one of the middle rooms; at most twelve monsters and nine chests besides
/// the boss, and four to twelve of them in all.
pub open spec fn valid_level(d: LevelData, level: u32) -> bool {
    let rooms = d.rooms@;
    &&& placed_rooms(rooms)
    &&& d.tiles@.len() == grid_len()
    &&& forall|x: int, y: int|
        in_bounds(x, y) ==> #[trigger] d.tiles@[cell(x, y)] == if level_floor(rooms, x, y) {
            TileType::Floor
        } else {
            TileType::Wall
        }
    &&& d.player_start.0 == rooms[0].center_spec().0
    &&& d.player_start.1 == rooms[0].center_spec().1
    &&& d.ladder_pos.0 == ladder_spec(rooms[4]).0
    &&& d.ladder_pos.1 == ladder_spec(rooms[4]).1
    &&& d.enemies@.len() >= 1
    &&& d.enemies@.last() == enemy_spec(
        rooms[4].center_spec().0 as usize,
        rooms[4].center_spec().1 as usize,
        true,
        level,
    )
    &&& populated(rooms, d.enemies@.drop_last(), d.chests@, level)
    &&& forall|k: int|
        0 <= k < d.enemies@.len() - 1 ==> #[trigger] d.enemies@[k] == enemy_spec(
            d.enemies@[k].x,
            d.enemies@[k].y,
            false,
            level,
        ) && in_middle_rooms(rooms, d.enemies@[k].x as int, d.enemies@[k].y as int)
    &&& forall|k: int|
        0 <= k < d.chests@.len() ==> in_middle_rooms(
            rooms,
            (#[trigger] d.chests@[k]).0 as int,
            d.chests@[k].1 as int,
        )
    &&& d.enemies@.len() - 1 <= 12
    &&& d.chests@.len() <= 9
    &&& 4 <= d.enemies@.len() - 1 + d.chests@.len() <= 12
}

/// Generates floor `level`: places five rooms, carves them and the corridors
/// between them, puts the player in the first room, monsters and chests in the
/// middle rooms, the boss in the centre of the last room and the ladder near
/// its far corner.
pub fn generate_level(level: u32) -> (d: LevelData)
    requires
        enemy_fits(true, level),
    ensures
        valid_level(d, level),
{
    let mut rng = new_rng();
    let (rooms, candidates) = place_rooms(&mut rng);
    proof {
        assert(placed_rooms(rooms@)) by {
            assert(placed_from(rooms@, candidates@));
        }
        lemma_placed_rooms_fit(rooms@);
    }
    assert(carvable(rooms@)) by {
        assert forall|i: int| 0 <= i < rooms@.len() implies {
            &&& room_fits_usize(#[trigger] rooms@[i])
            &&& rooms@[i].center_spec().0 <= i32::MAX
            &&& rooms@[i].center_spec().1 <= i32::MAX
        } by {
            assert(room_fits(rooms@[i]));
        }
        assert(room_fits(rooms@[4]));
    }
    let (tiles, ladder_pos) = carve_level(&rooms);
    let first = rooms[0];
    assert(room_fits(rooms@[0]));
    let player_start = first.center();
    let (mut enemies, chests, draws) = populate_rooms(&mut rng, &rooms, level);
    assert(populated(rooms@, enemies@, chests@, level)) by {
        assert(populated_by(rooms@, enemies@, chests@, level, draws@));
    }
    let boss_room = rooms[rooms.len() - 1];
    assert(room_fits(rooms@[4]));
    let (bx, by) = boss_room.center();
    let ghost before = enemies@;
    proof {
        lemma_populated_facts(rooms@, before, chests@, level);
        lemma_population_counts(rooms@, before, chests@, level);
    }
    enemies.push(make_enemy(bx, by, true, level));
    assert(enemies@.drop_last() == before);
    assert forall|k: int| 0 <= k < enemies@.len() - 1 implies #[trigger] enemies@[k] == enemy_spec(
        enemies@[k].x,
        enemies@[k].y,
        false,
        level,
    ) && in_middle_rooms(rooms@, enemies@[k].x as int, enemies@[k].y as int) by {
        assert(enemies@[k] == before[k]);
    }
    LevelData { tiles, rooms, player_start, enemies, chests, ladder_pos }
}

/// On every generated floor the player, every monster, every chest and the
/// ladder stand on floor cells of the grid.
pub proof fn lemma_spawns_on_floor(d: LevelData, level: u32)
    requires
        valid_level(d, level),
    ensures
        in_bounds(d.player_start.0 as int, d.player_start.1 as int),
        d.tiles@[cell(d.player_start.0 as int, d.player_start.1 as int)] == TileType::Floor,
        in_bounds(d.ladder_pos.0 as int, d.ladder_pos.1 as int),
        d.tiles@[cell(d.ladder_pos.0 as int, d.ladder_pos.1 as int)] == TileType::Floor,
        forall|k: int|
            0 <= k < d.enemies@.len() ==> in_bounds(
                (#[trigger] d.enemies@[k]).x as int,
                d.enemies@[k].y as int,
            ) && d.tiles@[cell(d.enemies@[k].x as int, d.enemies@[k].y as int)]
                == TileType::Floor,
        forall|k: int|
            0 <= k < d.chests@.len() ==> in_bounds(
                (#[trigger] d.chests@[k]).0 as int,
                d.chests@[k].1 as int,
            ) && d.tiles@[cell(d.chests@[k].0 as int, d.chests@[k].1 as int)] == TileType::Floor,
{
    let rooms = d.rooms@;
    lemma_placed_rooms_fit(rooms);
    assert(room_fits(rooms[0]));
    assert(room_fits(rooms[4]));
    let (px, py) = (d.player_start.0 as int, d.player_start.1 as int);
    assert(rooms[0].contains(px, py));
    assert(in_rooms(rooms, rooms.len() as int, px, py));
    assert(d.tiles@[cell(px, py)] == TileType::Floor);
    let (lx, ly) = (d.ladder_pos.0 as int, d.ladder_pos.1 as int);
    assert(d.tiles@[cell(lx, ly)] == TileType::Floor);
    assert forall|k: int| 0 <= k < d.enemies@.len() implies in_bounds(
        (#[trigger] d.enemies@[k]).x as int,
        d.enemies@[k].y as int,
    ) && d.tiles@[cell(d.enemies@[k].x as int, d.enemies@[k].y as int)] == TileType::Floor by {
        let (ex, ey) = (d.enemies@[k].x as int, d.enemies@[k].y as int);
        if k == d.enemies@.len() - 1 {
            assert(rooms[4].contains(ex, ey));
            assert(in_rooms(rooms, rooms.len() as int, ex, ey));
        } else {
            assert(in_middle_rooms(rooms, ex, ey));
            let r = choose|r: int| 1 <= r <= 3 && #[trigger] rooms[r].interior_contains(ex, ey);
            assert(room_fits(rooms[r]));
            assert(rooms[r].contains(ex, ey));
            assert(in_rooms(rooms, rooms.len() as int, ex, ey));
        }
    }
    assert forall|k: int| 0 <= k < d.chests@.len() implies in_bounds(
        (#[trigger] d.chests@[k]).0 as int,
        d.chests@[k].1 as int,
    ) && d.tiles@[cell(d.chests@[k].0 as int, d.chests@[k].1 as int)] == TileType::Floor by {
        let (cx, cy) = (d.chests@[k].0 as int, d.chests@[k].1 as int);
        assert(in_middle_rooms(rooms, cx, cy));
        let r = choose|r: int| 1 <= r <= 3 && #[trigger] rooms[r].interior_contains(cx, cy);
        assert(room_fits(rooms[r]));
        assert(rooms[r].contains(cx, cy));
        assert(in_rooms(rooms, rooms.len() as int, cx, cy));
    }
}

} // verus!
