//! Ray marching and perspective projection. A ray starts at the camera and
//! advances in fixed small steps; the first step whose sample point lies in
//! an occupied map cell is the hit. From the hit, the projected wall-slice
//! height and the texture column follow by integer arithmetic on fixed-point
//! coordinates.

use crate::camera::{FX_HALF, FX_SCALE};
use crate::map::GridMap;
use crate::texture::MAX_TILE_SIZE;
use vstd::arithmetic::div_mod::{
    lemma_div_is_ordered, lemma_div_is_ordered_by_denominator, lemma_div_multiples_vanish,
    lemma_div_pos_is_pos, lemma_fundamental_div_mod, lemma_multiply_divide_lt,
};
use vstd::arithmetic::mul::{lemma_mul_inequality, lemma_mul_strictly_positive};
use vstd::prelude::*;

verus! {

/// How far one march step advances, in fixed-point units: a hundredth of a
/// map cell, small enough not to tunnel through a unit-width wall in one
/// step of an axis-aligned ray.
pub const MARCH_STEP: i64 = 10;

/// The march budget: how many steps a ray may take before the column is
/// declared empty. Together with `MARCH_STEP` this bounds the traversal at
/// fifteen map cells and guarantees termination.
pub const MAX_STEPS: u32 = 1500;

/// Division by a positive divisor that truncates toward zero, as the
/// machine's signed division does.
pub open spec fn tdiv(a: int, d: int) -> int {
    if a >= 0 {
        a / d
    } else {
        -((-a) / d)
    }
}

pub open spec fn spec_abs(a: int) -> int {
    if a < 0 {
        -a
    } else {
        a
    }
}

/// The coordinate a ray starting at `p` with scaled direction component `d`
/// reaches after `k` steps.
pub open spec fn spec_march_coord(p: int, d: int, k: int) -> int {
    p + tdiv(k * MARCH_STEP * d, FX_SCALE as int)
}

/// Whether the fixed-point point `(cx, cy)` lies inside the grid and in an
/// occupied cell.
pub open spec fn spec_cell_hit(map: &GridMap, cx: int, cy: int) -> bool {
    &&& 0 <= cx < map.width * FX_SCALE as int
    &&& 0 <= cy < map.height * FX_SCALE as int
    &&& map.spec_occupied(cx / FX_SCALE as int, cy / FX_SCALE as int)
}

/// Whether step `k` of the ray from `(x, y)` toward `(dx, dy)` samples an
/// occupied cell.
pub open spec fn spec_hit_at(map: &GridMap, x: int, y: int, dx: int, dy: int, k: int) -> bool {
    spec_cell_hit(map, spec_march_coord(x, dx, k), spec_march_coord(y, dy, k))
}

/// The first hitting step at or after step `k`, if the budget admits one.
pub open spec fn spec_first_hit_from(
    map: &GridMap,
    x: int,
    y: int,
    dx: int,
    dy: int,
    k: int,
) -> Option<int>
    decreases MAX_STEPS - k,
{
    if k >= MAX_STEPS {
        None
    } else if spec_hit_at(map, x, y, dx, dy, k) {
        Some(k)
    } else {
        spec_first_hit_from(map, x, y, dx, dy, k + 1)
    }
}

/// The first step of the ray that samples an occupied cell, within the
/// march budget.
pub open spec fn spec_first_hit(map: &GridMap, x: int, y: int, dx: int, dy: int) -> Option<int> {
    spec_first_hit_from(map, x, y, dx, dy, 0)
}

/// A reported first hit is a hit, lies within the march budget, and no
/// earlier step hits.
pub proof fn lemma_first_hit_some(map: &GridMap, x: int, y: int, dx: int, dy: int, j: int, k: int)
    requires
        0 <= j,
        spec_first_hit_from(map, x, y, dx, dy, j) == Some(k),
    ensures
        j <= k < MAX_STEPS,
        spec_hit_at(map, x, y, dx, dy, k),
    decreases MAX_STEPS - j,
{
    if j >= MAX_STEPS {
        assert(false);
    } else if spec_hit_at(map, x, y, dx, dy, j) {
    } else {
        lemma_first_hit_some(map, x, y, dx, dy, j + 1, k);
    }
}

/// The perspective-correct projected wall-slice height: the framebuffer
/// height divided by the fisheye-corrected ray distance, in fixed point.
pub open spec fn spec_column_height(fb_h: int, t: int, corr: int) -> int {
    (fb_h * (FX_SCALE * FX_SCALE) as int) / (t * corr)
}

/// The fractional offset of a fixed-point coordinate from the center of its
/// nearest cell boundary: in `[-FX_HALF, FX_HALF)`.
pub open spec fn spec_hit_offset(c: int) -> int {
    c - ((c + FX_HALF as int) / FX_SCALE as int) * FX_SCALE as int
}

/// The texture column a hit with fractional offsets `(hit_x, hit_y)`
/// selects in a tile of side `size`: the offset of larger magnitude picks
/// the face, is scaled to tile units, and wraps to stay non-negative.
pub open spec fn spec_texcoord(hit_x: int, hit_y: int, size: int) -> int {
    let f = if spec_abs(hit_y) > spec_abs(hit_x) {
        hit_y
    } else {
        hit_x
    };
    let t0 = tdiv(f * size, FX_SCALE as int);
    if t0 < 0 {
        t0 + size
    } else {
        t0
    }
}

proof fn lemma_march_prod_bound(t: int, d: int)
    by (nonlinear_arith)
    requires
        0 <= t <= 15000,
        -1000 <= d <= 1000,
    ensures
        -15000000 <= t * d <= 15000000,
{
}

/// Truncating fixed-point division by `FX_SCALE`.
pub fn div_scale(a: i64) -> (r: i64)
    requires
        -0x100000000000000 <= a <= 0x100000000000000,
    ensures
        r == tdiv(a as int, FX_SCALE as int),
        spec_abs(r as int) <= spec_abs(a as int),
{
    proof {
        assert(FX_SCALE == 1000);
        if a >= 0 {
            lemma_div_is_ordered_by_denominator(a as int, 1, 1000);
            vstd::arithmetic::div_mod::lemma_div_basics(a as int);
            lemma_div_pos_is_pos(a as int, 1000);
        } else {
            lemma_div_is_ordered_by_denominator(-a as int, 1, 1000);
            vstd::arithmetic::div_mod::lemma_div_basics(-a as int);
            lemma_div_pos_is_pos(-a as int, 1000);
        }
    }
    if a >= 0 {
        ((a as u64) / (FX_SCALE as u64)) as i64
    } else {
        -(((-a) as u64 / (FX_SCALE as u64)) as i64)
    }
}

/// The coordinate step `k` of a ray reaches.
pub fn march_coord(p: i32, d: i32, k: u32) -> (c: i64)
    requires
        -FX_SCALE <= d <= FX_SCALE,
        k <= MAX_STEPS,
    ensures
        c == spec_march_coord(p as int, d as int, k as int),
        -0x90000000 <= c <= 0x90000000,
{
    let t: i64 = k as i64 * MARCH_STEP;
    proof {
        lemma_march_prod_bound(t as int, d as int);
    }
    let prod: i64 = t * d as i64;
    p as i64 + div_scale(prod)
}

/// March one ray from `(cam_x, cam_y)` toward the scaled direction
/// `(dir_x, dir_y)` and report the first step that samples an occupied
/// cell, or nothing once the march budget is spent. Sample points outside
/// the grid are never hits; a camera outside the grid is harmless.
pub fn cast_ray(map: &GridMap, cam_x: i32, cam_y: i32, dir_x: i32, dir_y: i32) -> (r: Option<u32>)
    requires
        map.wf(),
        -FX_SCALE <= dir_x <= FX_SCALE,
        -FX_SCALE <= dir_y <= FX_SCALE,
    ensures
        match spec_first_hit(map, cam_x as int, cam_y as int, dir_x as int, dir_y as int) {
            None => r is None,
            Some(k) => r matches Some(rk) && rk == k,
        },
{
    let ghost x = cam_x as int;
    let ghost y = cam_y as int;
    let ghost dx = dir_x as int;
    let ghost dy = dir_y as int;
    let mut k: u32 = 0;
    while k < MAX_STEPS
        invariant
            map.wf(),
            -FX_SCALE <= dir_x <= FX_SCALE,
            -FX_SCALE <= dir_y <= FX_SCALE,
            x == cam_x as int && y == cam_y as int && dx == dir_x as int && dy == dir_y as int,
            k <= MAX_STEPS,
            spec_first_hit(map, x, y, dx, dy) == spec_first_hit_from(map, x, y, dx, dy, k as int),
        decreases MAX_STEPS - k,
    {
        let cx = march_coord(cam_x, dir_x, k);
        let cy = march_coord(cam_y, dir_y, k);
        let mut hit: bool = false;
        if 0 <= cx && cx < map.width as i64 * FX_SCALE && 0 <= cy && cy < map.height as i64
            * FX_SCALE {
            proof {
                assert(FX_SCALE == 1000);
                lemma_multiply_divide_lt(cx as int, 1000, map.width as int);
                lemma_multiply_divide_lt(cy as int, 1000, map.height as int);
                lemma_div_pos_is_pos(cx as int, 1000);
                lemma_div_pos_is_pos(cy as int, 1000);
            }
            let ci = (cx as u64 / FX_SCALE as u64) as i32;
            let cj = (cy as u64 / FX_SCALE as u64) as i32;
            if !map.is_empty(ci, cj) {
                hit = true;
            }
        }
        if hit {
            assert(spec_hit_at(map, x, y, dx, dy, k as int));
            assert(spec_first_hit_from(map, x, y, dx, dy, k as int) == Some(k as int));
            return Some(k);
        }
        assert(!spec_hit_at(map, x, y, dx, dy, k as int));
        assert(spec_first_hit_from(map, x, y, dx, dy, k as int) == spec_first_hit_from(
            map,
            x,
            y,
            dx,
            dy,
            k as int + 1,
        ));
        k += 1;
    }
    None
}

/// The projected height of the wall slice for a hit at fixed-point ray
/// distance `t` with fisheye correction `corr`: farther or more oblique
/// hits project shorter.
pub fn column_height(fb_height: i32, t: i64, corr: i32) -> (r: u64)
    requires
        0 <= fb_height,
        0 < t <= MAX_STEPS * MARCH_STEP,
        0 < corr <= FX_SCALE,
    ensures
        r == spec_column_height(fb_height as int, t as int, corr as int),
        t * corr >= MARCH_STEP ==> r <= fb_height * 100000,
        r <= fb_height * 1000000,
{
    proof {
        assert(MAX_STEPS == 1500 && MARCH_STEP == 10 && FX_SCALE == 1000);
        vstd::arithmetic::mul::lemma_mul_upper_bound(t as int, 15000, corr as int, 1000);
        lemma_mul_strictly_positive(t as int, corr as int);
        if t as int * corr as int >= 10 {
            lemma_div_is_ordered_by_denominator(
                fb_height as int * 1000000,
                10,
                t as int * corr as int,
            );
            lemma_div_multiples_vanish(fb_height as int * 100000, 10);
        } else {
            lemma_div_is_ordered_by_denominator(fb_height as int * 1000000, 1, t as int * corr as int);
            vstd::arithmetic::div_mod::lemma_div_basics(fb_height as int * 1000000);
        }
        lemma_div_pos_is_pos(fb_height as int * 1000000, t as int * corr as int);
    }
    (fb_height as u64 * 1000000) / (t as u64 * corr as u64)
}

/// Monotone perspective: for one column (fixed correction), a farther hit
/// never projects a taller wall slice.
pub proof fn lemma_height_monotone(fb_h: int, t1: int, t2: int, corr: int)
    requires
        0 <= fb_h,
        0 < t1 <= t2,
        0 < corr,
    ensures
        spec_column_height(fb_h, t2, corr) <= spec_column_height(fb_h, t1, corr),
{
    lemma_mul_inequality(t1, t2, corr);
    lemma_mul_strictly_positive(t1, corr);
    lemma_mul_strictly_positive(t2, corr);
    lemma_div_is_ordered_by_denominator(fb_h * (FX_SCALE * FX_SCALE), t1 * corr, t2 * corr);
}

/// The fractional offset of a nonnegative fixed-point coordinate from its
/// cell-rounded value, in `[-FX_HALF, FX_HALF)`.
pub fn hit_offset(c: i64) -> (r: i64)
    requires
        0 <= c <= 0x90000000,
    ensures
        r == spec_hit_offset(c as int),
        -FX_HALF <= r < FX_HALF,
{
    proof {
        assert(FX_SCALE == 1000 && FX_HALF == 500);
        lemma_fundamental_div_mod(c as int + 500, 1000);
        lemma_div_pos_is_pos(c as int + 500, 1000);
        lemma_div_is_ordered_by_denominator(c as int + 500, 1, 1000);
        vstd::arithmetic::div_mod::lemma_div_basics(c as int + 500);
        vstd::arithmetic::div_mod::lemma_mod_bound(c as int + 500, 1000);
    }
    let q: i64 = ((c + FX_HALF) as u64 / FX_SCALE as u64) as i64;
    c - q * FX_SCALE
}

/// Resolve the texture column from the hit's fractional offsets. The result
/// always lies in `[0, size)`: hits exactly on a cell boundary (offset
/// zero) and near-diagonal hits included.
pub fn wall_x_texcoord(hit_x: i64, hit_y: i64, size: u32) -> (r: u32)
    requires
        -FX_HALF <= hit_x < FX_HALF,
        -FX_HALF <= hit_y < FX_HALF,
        0 < size <= MAX_TILE_SIZE,
    ensures
        r == spec_texcoord(hit_x as int, hit_y as int, size as int),
        r < size,
{
    let hx_abs = if hit_x < 0 {
        -hit_x
    } else {
        hit_x
    };
    let hy_abs = if hit_y < 0 {
        -hit_y
    } else {
        hit_y
    };
    let f: i64 = if hy_abs > hx_abs {
        hit_y
    } else {
        hit_x
    };
    let size_fx: i64 = size as i64;
    proof {
        assert(FX_HALF == 500 && FX_SCALE == 1000 && MAX_TILE_SIZE == 1024);
        lemma_mul_inequality(-500, f as int, size_fx as int);
        lemma_mul_inequality(f as int, 499, size_fx as int);
    }
    let t0 = div_scale(f * size_fx);
    proof {
        if f >= 0 {
            lemma_div_is_ordered(f as int * size_fx as int, 499 * size_fx as int, 1000);
            lemma_multiply_divide_lt(499 * size_fx as int, 1000, size as int);
            lemma_div_pos_is_pos(f as int * size_fx as int, 1000);
        } else {
            lemma_mul_inequality(-(f as int), 500, size_fx as int);
            lemma_div_is_ordered(-(f as int) * size_fx as int, 500 * size_fx as int, 1000);
            lemma_multiply_divide_lt(500 * size_fx as int, 1000, size as int);
            lemma_div_pos_is_pos(-(f as int) * size_fx as int, 1000);
            assert(-(f as int) * size_fx as int == -(f as int * size_fx as int))
                by (nonlinear_arith);
        }
    }
    let tex: i64 = if t0 < 0 {
        t0 + size as i64
    } else {
        t0
    };
    tex as u32
}

} // verus!
