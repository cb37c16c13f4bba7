use vstd::prelude::*;
use crate::map::{cell, in_bounds, grid_len, tile_in_grid, FogState, GameMap, TileType, MAP_HEIGHT, MAP_WIDTH, VIEW_RADIUS};

verus! {

/// Absolute value of an integer.
pub open spec fn abs(v: int) -> int {
    if v < 0 {
        -v
    } else {
        v
    }
}

/// Direction of a step from `a` towards `b` along one axis.
pub open spec fn step_sign(a: int, b: int) -> int {
    if a < b {
        1
    } else {
        -1
    }
}

/// Where Bresenham's walk from `(0, 0)` to `(dx, dy)` (both non-negative) goes
/// after having taken `i` steps along x and `j` steps along y: its error term
/// is `dx (1 + j) - dy (1 + i)`, and it steps along x when twice the error
/// exceeds `-dy` and along y when twice the error is below `dx`.
pub open spec fn bresenham_next(dx: int, dy: int, i: int, j: int) -> (int, int) {
    let err = dx * (1 + j) - dy * (1 + i);
    (if 2 * err > -dy { i + 1 } else { i }, if 2 * err < dx { j + 1 } else { j })
}

/// Whether the walk along the line from `(x0, y0)` to `(x1, y1)` over a grid
/// of `w` columns and `h` rows, standing at its `(i, j)`-th cell, reaches
/// `(x1, y1)` without meeting a wall on any cell other than the starting one.
pub open spec fn clear_from(
    tiles: Seq<TileType>,
    w: int,
    h: int,
    x0: int,
    y0: int,
    x1: int,
    y1: int,
    i: int,
    j: int,
) -> bool
    decreases abs(x1 - x0) - i + abs(y1 - y0) - j,
{
    let dx = abs(x1 - x0);
    let dy = abs(y1 - y0);
    let x = x0 + step_sign(x0, x1) * i;
    let y = y0 + step_sign(y0, y1) * j;
    if !(0 <= i <= dx && 0 <= j <= dy) {
        false
    } else if i == dx && j == dy {
        true
    } else if (i != 0 || j != 0) && tile_in_grid(tiles, w, h, x, y) == TileType::Wall {
        false
    } else {
        let (i2, j2) = bresenham_next(dx, dy, i, j);
        if i <= i2 <= dx && j <= j2 <= dy && i + j < i2 + j2 {
            clear_from(tiles, w, h, x0, y0, x1, y1, i2, j2)
        } else {
            false
        }
    }
}

/// Line of sight from `(x0, y0)` to `(x1, y1)` on a grid of `w` columns and `h`
/// rows: no cell strictly between the two on Bresenham's line between them is
/// a wall (cells off the grid count as walls).
pub open spec fn sight_spec(
    tiles: Seq<TileType>,
    w: int,
    h: int,
    x0: int,
    y0: int,
    x1: int,
    y1: int,
) -> bool {
    clear_from(tiles, w, h, x0, y0, x1, y1, 0, 0)
}

/// From a cell of the walk other than its end, the next step stays on the
/// line segment and moves along at least one axis.
proof fn lemma_bresenham_step(dx: int, dy: int, i: int, j: int)
    requires
        0 <= i <= dx,
        0 <= j <= dy,
        !(i == dx && j == dy),
    ensures
        ({
            let (i2, j2) = bresenham_next(dx, dy, i, j);
            i <= i2 <= dx && j <= j2 <= dy && i + j < i2 + j2
        }),
{
    let err = dx * (1 + j) - dy * (1 + i);
    if i == dx {
        assert(2 * err <= -dy && 2 * err < dx) by (nonlinear_arith)
            requires
                err == dx * (1 + j) - dy * (1 + i),
                i == dx,
                0 <= j,
                j + 1 <= dy,
                0 <= dx,
        ;
    } else if j == dy {
        assert(2 * err >= dx && 2 * err > -dy) by (nonlinear_arith)
            requires
                err == dx * (1 + j) - dy * (1 + i),
                j == dy,
                0 <= i,
                i + 1 <= dx,
                0 <= dy,
        ;
    }
}

/// Whether `(x1, y1)` can be seen from `(x0, y0)` on this map: Bresenham's line
/// from one to the other meets no wall strictly between them.
pub fn line_of_sight(map: &GameMap, x0: i32, y0: i32, x1: i32, y1: i32) -> (b: bool)
    requires
        map.dims_ok(),
        3 * abs(x1 - x0) <= i32::MAX,
        3 * abs(y1 - y0) <= i32::MAX,
    ensures
        b == sight_spec(
            map.tiles@,
            map.width as int,
            map.height as int,
            x0 as int,
            y0 as int,
            x1 as int,
            y1 as int,
        ),
{
    let (mut x, mut y) = (x0, y0);
    let dx = if x1 - x0 < 0 {
        -(x1 - x0)
    } else {
        x1 - x0
    };
    let dy = if y1 - y0 < 0 {
        -(y1 - y0)
    } else {
        y1 - y0
    };
    let sx: i32 = if x0 < x1 {
        1
    } else {
        -1
    };
    let sy: i32 = if y0 < y1 {
        1
    } else {
        -1
    };
    let mut err = dx - dy;
    let ghost mut i: int = 0;
    let ghost mut j: int = 0;
    assert(dx * (1 + j) - dy * (1 + i) == dx - dy) by (nonlinear_arith)
        requires
            i == 0,
            j == 0,
    ;
    loop
        invariant
            map.dims_ok(),
            dx == abs(x1 - x0),
            dy == abs(y1 - y0),
            0 <= 3 * dx <= i32::MAX,
            0 <= 3 * dy <= i32::MAX,
            sx == step_sign(x0 as int, x1 as int),
            sy == step_sign(y0 as int, y1 as int),
            0 <= i <= dx,
            0 <= j <= dy,
            x == x0 + sx * i,
            y == y0 + sy * j,
            err == dx * (1 + j) - dy * (1 + i),
            -3 * dy <= 2 * err <= 3 * dx,
            sight_spec(
                map.tiles@,
                map.width as int,
                map.height as int,
                x0 as int,
                y0 as int,
                x1 as int,
                y1 as int,
            ) == clear_from(
                map.tiles@,
                map.width as int,
                map.height as int,
                x0 as int,
                y0 as int,
                x1 as int,
                y1 as int,
                i,
                j,
            ),
        decreases dx - i + dy - j,
    {
        if x == x1 && y == y1 {
            assert(i == dx && j == dy) by {
                if sx == 1 {
                    assert(x1 - x0 == i);
                } else {
                    assert(x0 - x1 == i);
                }
                if sy == 1 {
                    assert(y1 - y0 == j);
                } else {
                    assert(y0 - y1 == j);
                }
            }
            return true;
        }
        assert(!(i == dx && j == dy)) by {
            if i == dx && j == dy {
                assert(x == x1 && y == y1);
            }
        }
        if (x != x0 || y != y0) && map.tile_at(x, y) == TileType::Wall {
            assert(i != 0 || j != 0);
            return false;
        }
        assert(!((i != 0 || j != 0) && tile_in_grid(
            map.tiles@,
            map.width as int,
            map.height as int,
            x as int,
            y as int,
        ) == TileType::Wall))
            by {
            if i != 0 || j != 0 {
                if sx == 1 {
                    assert(x == x0 + i);
                } else {
                    assert(x == x0 - i);
                }
                if sy == 1 {
                    assert(y == y0 + j);
                } else {
                    assert(y == y0 - j);
                }
                assert(x != x0 || y != y0);
            }
        }
        proof {
            lemma_bresenham_step(dx as int, dy as int, i, j);
        }
        let ghost (i2, j2) = bresenham_next(dx as int, dy as int, i, j);
        let e2 = 2 * err;
        if e2 > -dy {
            err -= dy;
            x += sx;
            proof {
                assert(dy * (1 + (i + 1)) == dy * (1 + i) + dy) by (nonlinear_arith);
                assert(sx * (i + 1) == sx * i + sx) by (nonlinear_arith);
                i = i + 1;
            }
        }
        if e2 < dx {
            err += dx;
            y += sy;
            proof {
                assert(dx * (1 + (j + 1)) == dx * (1 + j) + dx) by (nonlinear_arith);
                assert(sy * (j + 1) == sy * j + sy) by (nonlinear_arith);
                j = j + 1;
            }
        }
        assert(i == i2 && j == j2);
    }
}


/// Whether the player standing on `(px, py)` sees the cell `(x, y)`: it is on
/// the grid, within the view radius (inside the disc of that radius), and in
/// line of sight.
pub open spec fn in_view(tiles: Seq<TileType>, px: int, py: int, x: int, y: int) -> bool {
    &&& in_bounds(x, y)
    &&& abs(x - px) <= VIEW_RADIUS
    &&& abs(y - py) <= VIEW_RADIUS
    &&& (x - px) * (x - px) + (y - py) * (y - py) <= VIEW_RADIUS * VIEW_RADIUS
    &&& sight_spec(tiles, MAP_WIDTH as int, MAP_HEIGHT as int, px, py, x, y)
}

/// The fog state a cell takes after a view update: visible when seen now;
/// otherwise a cell seen before is remembered as explored.
pub open spec fn fog_after(f: FogState, seen: bool) -> FogState {
    if seen {
        FogState::Visible
    } else if f == FogState::Visible {
        FogState::Explored
    } else {
        f
    }
}

/// Recomputes what the player standing on grid cell `(px, py)` sees: every cell
/// that was visible becomes explored, then every cell in view becomes visible.
/// The tiles and everything else on the map stay as they were.
pub fn update_fog_of_war(map: &mut GameMap, px: i32, py: i32)
    requires
        old(map).wf(),
    ensures
        final(map).wf(),
        final(map).tiles@ == old(map).tiles@,
        final(map).rooms@ == old(map).rooms@,
        final(map).boss_dead == old(map).boss_dead,
        forall|x: int, y: int|
            in_bounds(x, y) ==> #[trigger] final(map).fog@[cell(x, y)] == fog_after(
                old(map).fog@[cell(x, y)],
                in_view(old(map).tiles@, px as int, py as int, x, y),
            ),
{
    let mut k: usize = 0;
    while k < map.fog.len()
        invariant
            map.wf(),
            k <= map.fog@.len(),
            map.tiles@ == old(map).tiles@,
            map.rooms@ == old(map).rooms@,
            map.boss_dead == old(map).boss_dead,
            forall|q: int|
                0 <= q < grid_len() ==> #[trigger] map.fog@[q] == if q < k {
                    fog_after(old(map).fog@[q], false)
                } else {
                    old(map).fog@[q]
                },
        decreases map.fog@.len() - k,
    {
        if map.fog[k] == FogState::Visible {
            map.fog.set(k, FogState::Explored);
        }
        k = k + 1;
    }
    let ghost base = map.fog@;
    assert forall|x: int, y: int| in_bounds(x, y) implies #[trigger] base[cell(x, y)] == fog_after(
        old(map).fog@[cell(x, y)],
        false,
    ) by {
        crate::map::lemma_cell_in_grid(x, y);
    }
    let mut dy: i32 = -VIEW_RADIUS;
    while dy <= VIEW_RADIUS
        invariant
            map.wf(),
            -VIEW_RADIUS <= dy <= VIEW_RADIUS + 1,
            map.tiles@ == old(map).tiles@,
            map.rooms@ == old(map).rooms@,
            map.boss_dead == old(map).boss_dead,
            forall|x: int, y: int|
                in_bounds(x, y) ==> #[trigger] map.fog@[cell(x, y)] == if y - py < dy && in_view(
                    old(map).tiles@,
                    px as int,
                    py as int,
                    x,
                    y,
                ) {
                    FogState::Visible
                } else {
                    base[cell(x, y)]
                },
        decreases VIEW_RADIUS + 1 - dy,
    {
        let mut dx: i32 = -VIEW_RADIUS;
        while dx <= VIEW_RADIUS
            invariant
                map.wf(),
                -VIEW_RADIUS <= dy <= VIEW_RADIUS,
                -VIEW_RADIUS <= dx <= VIEW_RADIUS + 1,
                map.tiles@ == old(map).tiles@,
                map.rooms@ == old(map).rooms@,
                map.boss_dead == old(map).boss_dead,
                forall|x: int, y: int|
                    in_bounds(x, y) ==> #[trigger] map.fog@[cell(x, y)] == if (y - py < dy || (y
                        - py == dy && x - px < dx)) && in_view(
                        old(map).tiles@,
                        px as int,
                        py as int,
                        x,
                        y,
                    ) {
                        FogState::Visible
                    } else {
                        base[cell(x, y)]
                    },
            decreases VIEW_RADIUS + 1 - dx,
        {
            let tx64: i64 = px as i64 + dx as i64;
            let ty64: i64 = py as i64 + dy as i64;
            let ghost before = map.fog@;
            if !(tx64 < 0 || ty64 < 0 || tx64 >= MAP_WIDTH as i64 || ty64 >= MAP_HEIGHT as i64) {
                let tx = tx64 as i32;
                let ty = ty64 as i32;
                assert(0 <= dx * dx <= 81 && 0 <= dy * dy <= 81) by (nonlinear_arith)
                    requires
                        -9 <= dx <= 9,
                        -9 <= dy <= 9,
                ;
                let near = !(dx * dx + dy * dy > VIEW_RADIUS * VIEW_RADIUS);
                if near && line_of_sight(map, px, py, tx, ty) {
                    let i = ty as usize * MAP_WIDTH + tx as usize;
                    map.fog.set(i, FogState::Visible);
                    assert forall|x: int, y: int|
                        in_bounds(x, y) && (x != tx || y != ty) implies #[trigger] map.fog@[cell(
                        x,
                        y,
                    )] == before[cell(x, y)] by {
                        if cell(x, y) == cell(tx as int, ty as int) {
                            crate::map::lemma_cell_injective(x, y, tx as int, ty as int);
                        }
                    }
                }
                assert(near == ((tx - px) * (tx - px) + (ty - py) * (ty - py) <= VIEW_RADIUS
                    * VIEW_RADIUS));
            }
            dx = dx + 1;
        }
        dy = dy + 1;
    }
}

/// A view update never hides a cell again: once seen, a cell stays explored or
/// visible.
pub proof fn lemma_fog_never_forgets(f: FogState, seen: bool)
    requires
        f != FogState::Hidden,
    ensures
        fog_after(f, seen) != FogState::Hidden,
{
}

/// What any sequence of view updates keeps: a cell seen once is never hidden
/// again, and after an update with the player on a cell of the grid, that cell
/// is visible. Stated of one update (`new_fog` as `update_fog_of_war` leaves it
/// from `old_fog`), it holds of every sequence of updates by induction.
pub proof fn lemma_fog_update_laws(
    old_fog: Seq<FogState>,
    new_fog: Seq<FogState>,
    tiles: Seq<TileType>,
    px: int,
    py: int,
)
    requires
        forall|x: int, y: int|
            in_bounds(x, y) ==> #[trigger] new_fog[cell(x, y)] == fog_after(
                old_fog[cell(x, y)],
                in_view(tiles, px, py, x, y),
            ),
    ensures
        forall|x: int, y: int|
            in_bounds(x, y) && old_fog[cell(x, y)] != FogState::Hidden ==> #[trigger] new_fog[cell(
                x,
                y,
            )] != FogState::Hidden,
        in_bounds(px, py) ==> new_fog[cell(px, py)] == FogState::Visible,
{
    if in_bounds(px, py) {
        assert(clear_from(tiles, MAP_WIDTH as int, MAP_HEIGHT as int, px, py, px, py, 0, 0));
        assert(0 * 0 + 0 * 0 <= VIEW_RADIUS * VIEW_RADIUS);
        assert((px - px) * (px - px) == 0 && (py - py) * (py - py) == 0) by (nonlinear_arith);
        assert(in_view(tiles, px, py, px, py));
    }
}

/// A cell becomes visible exactly when it is in view; after an update nothing
/// out of view is visible.
pub proof fn lemma_visible_iff_in_view(f: FogState, seen: bool)
    ensures
        (fog_after(f, seen) == FogState::Visible) == seen,
{
}

/// The player always sees the cell it stands on and the eight cells around it
/// (those on the grid), whatever the walls.
pub proof fn lemma_neighbourhood_in_view(tiles: Seq<TileType>, px: int, py: int, x: int, y: int)
    requires
        in_bounds(x, y),
        abs(x - px) <= 1,
        abs(y - py) <= 1,
    ensures
        in_view(tiles, px, py, x, y),
{
    let dx = abs(x - px);
    let dy = abs(y - py);
    assert((x - px) * (x - px) <= 1 && (y - py) * (y - py) <= 1) by (nonlinear_arith)
        requires
            -1 <= x - px <= 1,
            -1 <= y - py <= 1,
    ;
    if dx == 0 && dy == 0 {
    } else {
        assert(dx * (1 + 0) - dy * (1 + 0) == dx - dy) by (nonlinear_arith);
        let (i2, j2) = bresenham_next(dx, dy, 0, 0);
        assert(i2 == dx && j2 == dy);
        assert(clear_from(tiles, MAP_WIDTH as int, MAP_HEIGHT as int, px, py, x, y, i2, j2));
    }
}

} // verus!
