//! Field of view: which tiles are visible from a point within a radius,
//! respecting opaque (wall) tiles.
//!
//! A tile is visible when the ray that walks from the origin toward it,
//! one step at a time and diagonally while it can, crosses no opaque tile
//! strictly between the endpoints. The target tile itself may be opaque:
//! walls are visible.

use vstd::prelude::*;
use crate::map::{GameMap, spec_idx, spec_x, spec_y};

verus! {

pub open spec fn iabs(a: int) -> int {
    if a >= 0 {
        a
    } else {
        -a
    }
}

pub open spec fn sign(a: int) -> int {
    if a > 0 {
        1
    } else if a < 0 {
        -1
    } else {
        0
    }
}

/// The ray from `(x, y)` to `(tx, ty)` crosses no opaque tile strictly
/// between its endpoints.
pub open spec fn spec_clear(m: GameMap, x: int, y: int, tx: int, ty: int) -> bool
    decreases iabs(tx - x) + iabs(ty - y),
{
    if x == tx && y == ty {
        true
    } else {
        let nx = x + sign(tx - x);
        let ny = y + sign(ty - y);
        if nx == tx && ny == ty {
            true
        } else {
            !m.spec_is_opaque(spec_idx(nx, ny)) && spec_clear(m, nx, ny, tx, ty)
        }
    }
}

/// `(tx, ty)` is visible from `(ox, oy)` within `range`: on the grid,
/// within the circle of radius `range`, and with a clear line of sight.
pub open spec fn spec_visible(m: GameMap, ox: int, oy: int, range: int, tx: int, ty: int) -> bool {
    &&& GameMap::spec_in_bounds(tx, ty)
    &&& (tx - ox) * (tx - ox) + (ty - oy) * (ty - oy) <= range * range
    &&& spec_clear(m, ox, oy, tx, ty)
}

/// Walks the ray and reports whether the line of sight is clear.
fn line_clear(m: &GameMap, x: i32, y: i32, tx: i32, ty: i32) -> (r: bool)
    requires
        m.wf(),
        GameMap::spec_in_bounds(x as int, y as int),
        GameMap::spec_in_bounds(tx as int, ty as int),
    ensures
        r == spec_clear(*m, x as int, y as int, tx as int, ty as int),
    decreases iabs(tx as int - x as int) + iabs(ty as int - y as int),
{
    if x == tx && y == ty {
        return true;
    }
    let nx: i32 = if tx > x {
        x + 1
    } else if tx < x {
        x - 1
    } else {
        x
    };
    let ny: i32 = if ty > y {
        y + 1
    } else if ty < y {
        y - 1
    } else {
        y
    };
    if nx == tx && ny == ty {
        return true;
    }
    let idx = m.xy_idx(nx, ny);
    if m.is_opaque(idx) {
        return false;
    }
    line_clear(m, nx, ny, tx, ty)
}

/// Every tile visible from `(ox, oy)` within `range`: exactly the tiles
/// `spec_visible` admits, each listed once, in increasing index order.
pub fn field_of_view(m: &GameMap, ox: i32, oy: i32, range: i32) -> (r: Vec<usize>)
    requires
        m.wf(),
        GameMap::spec_in_bounds(ox as int, oy as int),
        0 <= range <= 20,
    ensures
        forall|k: int|
            0 <= k < r.len() ==> #[trigger] r@[k] < 3440 && spec_visible(
                *m,
                ox as int,
                oy as int,
                range as int,
                spec_x(r@[k] as int),
                spec_y(r@[k] as int),
            ),
        forall|tx: int, ty: int|
            spec_visible(*m, ox as int, oy as int, range as int, tx, ty) ==> r@.contains(
                spec_idx(tx, ty) as usize,
            ),
        r@.no_duplicates(),
{
    let mut r: Vec<usize> = Vec::new();
    let mut y: i32 = 0;
    while y < 43
        invariant
            m.wf(),
            GameMap::spec_in_bounds(ox as int, oy as int),
            0 <= range <= 20,
            0 <= y <= 43,
            forall|k: int|
                0 <= k < r.len() ==> #[trigger] r@[k] < 3440 && spec_visible(
                    *m,
                    ox as int,
                    oy as int,
                    range as int,
                    spec_x(r@[k] as int),
                    spec_y(r@[k] as int),
                ),
            forall|tx: int, ty: int|
                0 <= ty < y && spec_visible(*m, ox as int, oy as int, range as int, tx, ty)
                    ==> r@.contains(spec_idx(tx, ty) as usize),
            forall|k1: int, k2: int| 0 <= k1 < k2 < r.len() ==> r@[k1] < r@[k2],
            forall|k: int| 0 <= k < r.len() ==> (#[trigger] r@[k] as int) < spec_idx(0, y as int),
        decreases 43 - y,
    {
        let mut x: i32 = 0;
        while x < 80
            invariant
                m.wf(),
                GameMap::spec_in_bounds(ox as int, oy as int),
                0 <= range <= 20,
                0 <= y < 43,
                0 <= x <= 80,
                forall|k: int|
                    0 <= k < r.len() ==> #[trigger] r@[k] < 3440 && spec_visible(
                        *m,
                        ox as int,
                        oy as int,
                        range as int,
                        spec_x(r@[k] as int),
                        spec_y(r@[k] as int),
                    ),
                forall|tx: int, ty: int|
                    0 <= ty < y && spec_visible(*m, ox as int, oy as int, range as int, tx, ty)
                        ==> r@.contains(spec_idx(tx, ty) as usize),
                forall|tx: int|
                    0 <= tx < x && spec_visible(*m, ox as int, oy as int, range as int, tx, y as int)
                        ==> r@.contains(spec_idx(tx, y as int) as usize),
                forall|k1: int, k2: int| 0 <= k1 < k2 < r.len() ==> r@[k1] < r@[k2],
                forall|k: int|
                    0 <= k < r.len() ==> (#[trigger] r@[k] as int) < spec_idx(x as int, y as int),
            decreases 80 - x,
        {
            let ghost r0 = r@;
            let dx: i32 = x - ox;
            let dy: i32 = y - oy;
            proof {
                assert(0 <= dx * dx <= 6400 && 0 <= dy * dy <= 1800 && 0 <= range * range
                    <= 400) by (nonlinear_arith)
                    requires
                        -80 <= dx <= 80,
                        -42 <= dy <= 42,
                        0 <= range <= 20,
                ;
            }
            if dx * dx + dy * dy <= range * range {
                if line_clear(m, ox, oy, x, y) {
                    let idx = m.xy_idx(x, y);
                    proof {
                        crate::map::lemma_xy_idx(x as int, y as int);
                    }
                    r.push(idx);
                }
            }
            proof {
                assert forall|tx: int, ty: int|
                    0 <= ty < y && spec_visible(
                        *m,
                        ox as int,
                        oy as int,
                        range as int,
                        tx,
                        ty,
                    ) implies r@.contains(spec_idx(tx, ty) as usize) by {
                    assert(r0.contains(spec_idx(tx, ty) as usize));
                    let k = choose|k: int| 0 <= k < r0.len() && r0[k] == spec_idx(tx, ty) as usize;
                    assert(r@[k] == spec_idx(tx, ty) as usize);
                }
                assert forall|tx: int|
                    0 <= tx < x + 1 && spec_visible(
                        *m,
                        ox as int,
                        oy as int,
                        range as int,
                        tx,
                        y as int,
                    ) implies r@.contains(spec_idx(tx, y as int) as usize) by {
                    if tx < x {
                        assert(r0.contains(spec_idx(tx, y as int) as usize));
                        let k = choose|k: int|
                            0 <= k < r0.len() && r0[k] == spec_idx(tx, y as int) as usize;
                        assert(r@[k] == spec_idx(tx, y as int) as usize);
                    } else {
                        assert(r@[r.len() - 1] == spec_idx(x as int, y as int) as usize);
                    }
                }
            }
            x = x + 1;
        }
        y = y + 1;
    }
    proof {
        assert forall|k1: int, k2: int|
            0 <= k1 < r.len() && 0 <= k2 < r.len() && k1 != k2 implies r@[k1] != r@[k2] by {
            if k1 < k2 {
                assert(r@[k1] < r@[k2]);
            } else {
                assert(r@[k2] < r@[k1]);
            }
        }
    }
    r
}

} // verus!
