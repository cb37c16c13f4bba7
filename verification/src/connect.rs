use vstd::prelude::*;
use crate::fog::{abs, step_sign};
use crate::level_gen::{
    corridor_at, in_rooms, ladder_spec, level_floor, lemma_placed_rooms_fit, on_corridor,
    on_corridors, room_fits, valid_level, LevelData,
};
use crate::map::{cell, in_bounds, tile_in, TileType};

verus! {

/// Two cells share a side.
pub open spec fn adjacent(a: (int, int), b: (int, int)) -> bool {
    abs(a.0 - b.0) + abs(a.1 - b.1) == 1
}

/// `p` is a walk over floor: at least one cell, every cell floor (and hence on
/// the grid), each cell sharing a side with the next.
pub open spec fn floor_walk(tiles: Seq<TileType>, p: Seq<(int, int)>) -> bool {
    &&& p.len() >= 1
    &&& forall|k: int|
        0 <= k < p.len() ==> tile_in(tiles, (#[trigger] p[k]).0, p[k].1) == TileType::Floor
    &&& forall|k: int| 0 <= k < p.len() - 1 ==> adjacent(#[trigger] p[k], p[k + 1])
}

/// One can walk over floor from `a` to `b`.
pub open spec fn reachable(tiles: Seq<TileType>, a: (int, int), b: (int, int)) -> bool {
    exists|p: Seq<(int, int)>| #[trigger] floor_walk(tiles, p) && p[0] == a && p.last() == b
}

/// The walk from `(ax, ay)` along its row to column `bx`, then along that
/// column to `(bx, by)`.
pub open spec fn l_path(ax: int, ay: int, bx: int, by: int) -> Seq<(int, int)>
    decreases abs(bx - ax) + abs(by - ay),
{
    if ax != bx {
        seq![(ax, ay)] + l_path(ax + step_sign(ax, bx), ay, bx, by)
    } else if ay != by {
        seq![(ax, ay)] + l_path(ax, ay + step_sign(ay, by), bx, by)
    } else {
        seq![(ax, ay)]
    }
}

/// When every cell of the corridor from `a` to `b` is floor, its walk is a
/// walk over floor from `a` to `b`.
proof fn lemma_l_path_walk(tiles: Seq<TileType>, ax: int, ay: int, bx: int, by: int)
    requires
        forall|x: int, y: int|
            on_corridor(ax, ay, bx, by, x, y) ==> #[trigger] tile_in(tiles, x, y) == TileType::Floor,
    ensures
        floor_walk(tiles, l_path(ax, ay, bx, by)),
        l_path(ax, ay, bx, by)[0] == (ax, ay),
        l_path(ax, ay, bx, by).last() == (bx, by),
    decreases abs(bx - ax) + abs(by - ay),
{
    assert(on_corridor(ax, ay, bx, by, ax, ay));
    let p = l_path(ax, ay, bx, by);
    if ax != bx || ay != by {
        let (nx, ny) = if ax != bx {
            (ax + step_sign(ax, bx), ay)
        } else {
            (ax, ay + step_sign(ay, by))
        };
        assert forall|x: int, y: int| on_corridor(nx, ny, bx, by, x, y) implies #[trigger] tile_in(
            tiles,
            x,
            y,
        ) == TileType::Floor by {
            assert(on_corridor(ax, ay, bx, by, x, y));
        }
        lemma_l_path_walk(tiles, nx, ny, bx, by);
        let rest = l_path(nx, ny, bx, by);
        assert(p == seq![(ax, ay)] + rest);
        assert forall|k: int| 0 <= k < p.len() implies tile_in(
            tiles,
            (#[trigger] p[k]).0,
            p[k].1,
        ) == TileType::Floor by {
            if k > 0 {
                assert(p[k] == rest[k - 1]);
            }
        }
        assert forall|k: int| 0 <= k < p.len() - 1 implies adjacent(#[trigger] p[k], p[k + 1]) by {
            if k > 0 {
                assert(p[k] == rest[k - 1]);
                assert(p[k + 1] == rest[k]);
            }
        }
    }
}

/// A walk from `a` to `b` followed by a walk from `b` to `c` is a walk from `a`
/// to `c`.
proof fn lemma_reachable_trans(tiles: Seq<TileType>, a: (int, int), b: (int, int), c: (int, int))
    requires
        reachable(tiles, a, b),
        reachable(tiles, b, c),
    ensures
        reachable(tiles, a, c),
{
    let p = choose|p: Seq<(int, int)>| #[trigger] floor_walk(tiles, p) && p[0] == a && p.last() == b;
    let q = choose|q: Seq<(int, int)>| #[trigger] floor_walk(tiles, q) && q[0] == b && q.last() == c;
    let r = p + q.drop_first();
    assert forall|k: int| 0 <= k < r.len() implies tile_in(
        tiles,
        (#[trigger] r[k]).0,
        r[k].1,
    ) == TileType::Floor by {
        if k >= p.len() {
            assert(r[k] == q[k - p.len() + 1]);
        }
    }
    assert forall|k: int| 0 <= k < r.len() - 1 implies adjacent(#[trigger] r[k], r[k + 1]) by {
        if k >= p.len() {
            assert(r[k] == q[k - p.len() + 1]);
            assert(r[k + 1] == q[k - p.len() + 2]);
        } else if k == p.len() - 1 {
            assert(r[k] == p.last());
            assert(r[k] == q[0]);
            assert(r[k + 1] == q[1]);
        }
    }
    if q.len() == 1 {
        assert(r.last() == p.last());
    } else {
        assert(r.last() == q.last());
    }
    assert(floor_walk(tiles, r));
}

/// A floor cell can be reached from itself.
proof fn lemma_reachable_refl(tiles: Seq<TileType>, a: (int, int))
    requires
        tile_in(tiles, a.0, a.1) == TileType::Floor,
    ensures
        reachable(tiles, a, a),
{
    let p = seq![a];
    assert(floor_walk(tiles, p));
}

/// The cell `(x, y)` of a generated floor is floor exactly as the layout says.
proof fn lemma_level_tile(d: LevelData, level: u32, x: int, y: int)
    requires
        valid_level(d, level),
        in_bounds(x, y),
        level_floor(d.rooms@, x, y),
    ensures
        tile_in(d.tiles@, x, y) == TileType::Floor,
{
    assert(d.tiles@[cell(x, y)] == TileType::Floor);
}

/// The centre of room `i` of a generated floor.
spec fn center_of(d: LevelData, i: int) -> (int, int) {
    (d.rooms@[i].center_spec().0, d.rooms@[i].center_spec().1)
}

/// On a generated floor the centre of every room can be reached from the centre
/// of the first.
proof fn lemma_centers_reachable(d: LevelData, level: u32, i: int)
    requires
        valid_level(d, level),
        0 <= i < 5,
    ensures
        reachable(d.tiles@, center_of(d, 0), center_of(d, i)),
    decreases i,
{
    let rooms = d.rooms@;
    lemma_placed_rooms_fit(rooms);
    if i == 0 {
        let c = center_of(d, 0);
        assert(room_fits(rooms[0]));
        assert(rooms[0].contains(c.0, c.1));
        assert(in_rooms(rooms, rooms.len() as int, c.0, c.1));
        lemma_level_tile(d, level, c.0, c.1);
        lemma_reachable_refl(d.tiles@, c);
    } else {
        lemma_centers_reachable(d, level, i - 1);
        let a = center_of(d, i - 1);
        let b = center_of(d, i);
        assert(room_fits(rooms[i - 1]));
        assert(room_fits(rooms[i]));
        assert forall|x: int, y: int| on_corridor(a.0, a.1, b.0, b.1, x, y) implies #[trigger] tile_in(
            d.tiles@,
            x,
            y,
        ) == TileType::Floor by {
            assert(corridor_at(rooms, i - 1, x, y));
            assert(on_corridors(rooms, rooms.len() - 1, x, y));
            lemma_level_tile(d, level, x, y);
        }
        lemma_l_path_walk(d.tiles@, a.0, a.1, b.0, b.1);
        assert(reachable(d.tiles@, a, b));
        lemma_reachable_trans(d.tiles@, center_of(d, 0), a, b);
    }
}

/// Every generated floor is connected: each floor cell (room, corridor or
/// ladder) can be walked to from the player's starting cell.
pub proof fn lemma_level_connected(d: LevelData, level: u32, x: int, y: int)
    requires
        valid_level(d, level),
        in_bounds(x, y),
        d.tiles@[cell(x, y)] == TileType::Floor,
    ensures
        reachable(
            d.tiles@,
            (d.player_start.0 as int, d.player_start.1 as int),
            (x, y),
        ),
{
    let rooms = d.rooms@;
    lemma_placed_rooms_fit(rooms);
    let start = (d.player_start.0 as int, d.player_start.1 as int);
    assert(start == center_of(d, 0));
    assert(level_floor(rooms, x, y));
    // A cell of a room, or the ladder (which lies in the last room): walk to
    // that room's centre, then inside the room.
    if in_rooms(rooms, rooms.len() as int, x, y) || (x, y) == ladder_spec(rooms.last()) {
        let r: int = if in_rooms(rooms, rooms.len() as int, x, y) {
            choose|r: int| 0 <= r < rooms.len() && #[trigger] rooms[r].contains(x, y)
        } else {
            4
        };
        assert(room_fits(rooms[r]));
        assert(rooms[r].contains(x, y));
        lemma_centers_reachable(d, level, r);
        let c = center_of(d, r);
        assert forall|qx: int, qy: int| on_corridor(c.0, c.1, x, y, qx, qy) implies #[trigger] tile_in(
            d.tiles@,
            qx,
            qy,
        ) == TileType::Floor by {
            assert(rooms[r].contains(qx, qy));
            assert(in_rooms(rooms, rooms.len() as int, qx, qy));
            lemma_level_tile(d, level, qx, qy);
        }
        lemma_l_path_walk(d.tiles@, c.0, c.1, x, y);
        assert(reachable(d.tiles@, c, (x, y)));
        lemma_reachable_trans(d.tiles@, start, c, (x, y));
    } else {
        // A cell of the corridor from room `i` to room `i + 1`: walk to the
        // centre of room `i`, then along the corridor.
        let i = choose|i: int| 0 <= i < rooms.len() - 1 && #[trigger] corridor_at(rooms, i, x, y);
        lemma_centers_reachable(d, level, i);
        let a = center_of(d, i);
        let b = center_of(d, i + 1);
        assert(room_fits(rooms[i]));
        assert(room_fits(rooms[i + 1]));
        assert forall|qx: int, qy: int| on_corridor(a.0, a.1, x, y, qx, qy) implies #[trigger] tile_in(
            d.tiles@,
            qx,
            qy,
        ) == TileType::Floor by {
            assert(on_corridor(a.0, a.1, b.0, b.1, qx, qy));
            assert(corridor_at(rooms, i, qx, qy));
            assert(on_corridors(rooms, rooms.len() - 1, qx, qy));
            lemma_level_tile(d, level, qx, qy);
        }
        lemma_l_path_walk(d.tiles@, a.0, a.1, x, y);
        assert(reachable(d.tiles@, a, (x, y)));
        lemma_reachable_trans(d.tiles@, start, a, (x, y));
    }
}

} // verus!
