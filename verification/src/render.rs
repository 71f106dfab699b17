//! The per-frame renderer. A frame is painted in three passes over the
//! caller's framebuffer: a clear to white, a top-down minimap of the
//! occupied cells, and one ray per screen column across the right half,
//! drawing the ray's path on the minimap and, on a hit, the projected
//! texture-mapped wall slice. Each pass is specified pixel for pixel, so a
//! rendered frame is a function of the map, camera, and texture alone.

use crate::camera::{Camera, FX_SCALE};
use crate::frame_buffer::{spec_clear, spec_fill_rect, FrameBuffer};
use crate::map::GridMap;
use crate::ray::{
    cast_ray, column_height, hit_offset, march_coord, spec_column_height, spec_first_hit,
    spec_hit_offset, spec_march_coord, spec_texcoord, tdiv, wall_x_texcoord, MAX_STEPS,
};
use crate::texture::Texture;
use crate::utils::spec_pack;
use vstd::prelude::*;

verus! {

/// The background color: opaque white.
pub open spec fn spec_white() -> u32 {
    spec_pack(255, 255, 255, 255)
}

/// The color of a marched ray's trace on the minimap: opaque gray.
pub open spec fn spec_gray() -> u32 {
    spec_pack(160, 160, 160, 255)
}

/// Every wall code of the map indexes a tile of the atlas.
pub open spec fn spec_codes_fit(map: &GridMap, tex: &Texture) -> bool {
    forall|i: int, j: int|
        map.in_bounds(i, j) && map.spec_occupied(i, j) ==> #[trigger] map.spec_code(i, j)
            < tex.count
}

/// One minimap tile is as wide as the left half of the screen divided by
/// the map width.
pub open spec fn spec_rect_w(map: &GridMap, w: int) -> int {
    w / (map.width * 2int)
}

pub open spec fn spec_rect_h(map: &GridMap, h: int) -> int {
    h / map.height as int
}

/// The minimap color of an occupied cell: the top-left pixel of its tile.
pub open spec fn spec_minimap_color(map: &GridMap, tex: &Texture, i: int, j: int) -> u32 {
    tex.image@[map.spec_code(i, j) * tex.size]
}

/// The buffer after the minimap rectangles of the first `c` cells in
/// row-major order.
pub open spec fn spec_minimap_upto(
    img: Seq<u32>,
    map: &GridMap,
    tex: &Texture,
    w: int,
    rect_w: int,
    rect_h: int,
    c: int,
) -> Seq<u32>
    decreases c,
{
    if c <= 0 {
        img
    } else {
        let c0 = c - 1;
        let i = c0 % map.width as int;
        let j = c0 / map.width as int;
        let prev = spec_minimap_upto(img, map, tex, w, rect_w, rect_h, c0);
        if map.spec_occupied(i, j) {
            spec_fill_rect(
                prev,
                w,
                i * rect_w,
                j * rect_h,
                rect_w,
                rect_h,
                spec_minimap_color(map, tex, i, j),
            )
        } else {
            prev
        }
    }
}

/// Whether step `kk` of the ray of column `i` traces the minimap pixel of
/// flat index `n`.
pub open spec fn spec_path_covers(
    x: int,
    y: int,
    dx: int,
    dy: int,
    rect_w: int,
    rect_h: int,
    w: int,
    h: int,
    kk: int,
    n: int,
) -> bool {
    let px = tdiv(spec_march_coord(x, dx, kk) * rect_w, FX_SCALE as int);
    let py = tdiv(spec_march_coord(y, dy, kk) * rect_h, FX_SCALE as int);
    &&& 0 <= px < w
    &&& 0 <= py < h
    &&& n == px + py * w
}

/// The buffer after tracing steps `0..=last` of one ray on the minimap.
pub open spec fn spec_draw_path(
    img: Seq<u32>,
    x: int,
    y: int,
    dx: int,
    dy: int,
    rect_w: int,
    rect_h: int,
    w: int,
    h: int,
    last: int,
) -> Seq<u32> {
    Seq::new(
        img.len(),
        |n: int|
            if exists|kk: int|
                0 <= kk <= last && spec_path_covers(x, y, dx, dy, rect_w, rect_h, w, h, kk, n) {
                spec_gray()
            } else {
                img[n]
            },
    )
}

/// Whether slice row `jj` of the wall slice at column `x_slice` lands on
/// the pixel of flat index `n`: the slice is centered vertically and rows
/// outside the buffer are skipped.
pub open spec fn spec_slice_covers(
    w: int,
    h: int,
    x_slice: int,
    ch: int,
    jj: int,
    n: int,
) -> bool {
    let py = jj + h / 2 - ch / 2;
    &&& 0 <= py < h
    &&& n == x_slice + py * w
}

/// The buffer after drawing rows `0..last` of a wall slice of height `ch`
/// at column `x_slice`, sampling the rescaled texture column of tile
/// `code` at `coord`.
pub open spec fn spec_draw_slice(
    img: Seq<u32>,
    tex: &Texture,
    w: int,
    h: int,
    x_slice: int,
    ch: int,
    code: int,
    coord: int,
    last: int,
) -> Seq<u32> {
    Seq::new(
        img.len(),
        |n: int|
            if exists|jj: int| 0 <= jj < last && spec_slice_covers(w, h, x_slice, ch, jj, n) {
                let jj = choose|jj: int|
                    0 <= jj < last && spec_slice_covers(w, h, x_slice, ch, jj, n);
                tex.image@[tex.spec_col_pos(coord, jj, ch, code)]
            } else {
                img[n]
            },
    )
}

/// The full effect of screen column `i`: the traced ray path, and on a hit
/// past the first step with positive fisheye correction, the wall slice.
pub open spec fn spec_render_column(
    img: Seq<u32>,
    map: &GridMap,
    camera: &Camera,
    tex: &Texture,
    w: int,
    h: int,
    rect_w: int,
    rect_h: int,
    i: int,
) -> Seq<u32> {
    let ray = camera.rays@[i];
    let x = camera.x as int;
    let y = camera.y as int;
    let dx = ray.dir_x as int;
    let dy = ray.dir_y as int;
    match spec_first_hit(map, x, y, dx, dy) {
        None => spec_draw_path(img, x, y, dx, dy, rect_w, rect_h, w, h, MAX_STEPS - 1),
        Some(k) => {
            let img1 = spec_draw_path(img, x, y, dx, dy, rect_w, rect_h, w, h, k);
            if k >= 1 && ray.corr >= 1 {
                let cx = spec_march_coord(x, dx, k);
                let cy = spec_march_coord(y, dy, k);
                let ch = spec_column_height(h, k * 10, ray.corr as int);
                let code = map.spec_code(cx / FX_SCALE as int, cy / FX_SCALE as int);
                let coord = spec_texcoord(
                    spec_hit_offset(cx),
                    spec_hit_offset(cy),
                    tex.size as int,
                );
                spec_draw_slice(img1, tex, w, h, w / 2 + i, ch, code as int, coord, ch)
            } else {
                img1
            }
        },
    }
}

/// The buffer after the rays of the first `i` screen columns.
pub open spec fn spec_ray_pass(
    img: Seq<u32>,
    map: &GridMap,
    camera: &Camera,
    tex: &Texture,
    w: int,
    h: int,
    rect_w: int,
    rect_h: int,
    i: int,
) -> Seq<u32>
    decreases i,
{
    if i <= 0 {
        img
    } else {
        spec_render_column(
            spec_ray_pass(img, map, camera, tex, w, h, rect_w, rect_h, i - 1),
            map,
            camera,
            tex,
            w,
            h,
            rect_w,
            rect_h,
            i - 1,
        )
    }
}

/// The frame a render call leaves in a `w` by `h` framebuffer: a function
/// of the map, camera, and texture alone.
pub open spec fn spec_render(
    map: &GridMap,
    camera: &Camera,
    tex: &Texture,
    w: int,
    h: int,
) -> Seq<u32> {
    let rect_w = spec_rect_w(map, w);
    let rect_h = spec_rect_h(map, h);
    spec_ray_pass(
        spec_minimap_upto(
            spec_clear(w, h, spec_white()),
            map,
            tex,
            w,
            rect_w,
            rect_h,
            map.width * map.height,
        ),
        map,
        camera,
        tex,
        w,
        h,
        rect_w,
        rect_h,
        w / 2,
    )
}

/// Rendering is deterministic: two renders of one map, camera, and texture
/// into buffers of one size leave byte-identical pixel grids.
pub proof fn lemma_render_deterministic(
    img1: Seq<u32>,
    img2: Seq<u32>,
    map: &GridMap,
    camera: &Camera,
    tex: &Texture,
    w: int,
    h: int,
)
    requires
        img1 == spec_render(map, camera, tex, w, h),
        img2 == spec_render(map, camera, tex, w, h),
    ensures
        img1 == img2,
{
}

/// Cancellation of a common positive factor.
proof fn lemma_mul_cancel(a: int, b: int, w: int)
    by (nonlinear_arith)
    requires
        a * w == b * w,
        0 < w,
    ensures
        a == b,
{
}

/// A row start below the height stays below the pixel count.
proof fn lemma_row_start(w: int, h: int, y: int)
    by (nonlinear_arith)
    requires
        0 < w,
        0 <= y < h,
    ensures
        0 <= y * w,
        y * w + w <= w * h,
{
}

/// The product of a marched coordinate and a minimap tile side stays well
/// inside the fixed-point divider's domain.
proof fn lemma_path_prod_bound(c: int, r: int)
    by (nonlinear_arith)
    requires
        -0x90000000 <= c <= 0x90000000,
        0 <= r <= 8192,
    ensures
        -0x120000000000 <= c * r <= 0x120000000000,
{
}

/// One marching step extends the traced path by at most one pixel.
proof fn lemma_path_step(
    img0: Seq<u32>,
    pre: Seq<u32>,
    post: Seq<u32>,
    x: int,
    y: int,
    dx: int,
    dy: int,
    rect_w: int,
    rect_h: int,
    w: int,
    h: int,
    kk: int,
)
    requires
        img0.len() == w * h,
        0 <= w,
        0 <= h,
        0 <= kk,
        pre == spec_draw_path(img0, x, y, dx, dy, rect_w, rect_h, w, h, kk - 1),
        ({
            let px = tdiv(spec_march_coord(x, dx, kk) * rect_w, FX_SCALE as int);
            let py = tdiv(spec_march_coord(y, dy, kk) * rect_h, FX_SCALE as int);
            if 0 <= px < w && 0 <= py < h {
                post == pre.update(px + py * w, spec_gray())
            } else {
                post == pre
            }
        }),
    ensures
        post == spec_draw_path(img0, x, y, dx, dy, rect_w, rect_h, w, h, kk),
{
    let target = spec_draw_path(img0, x, y, dx, dy, rect_w, rect_h, w, h, kk);
    let px = tdiv(spec_march_coord(x, dx, kk) * rect_w, FX_SCALE as int);
    let py = tdiv(spec_march_coord(y, dy, kk) * rect_h, FX_SCALE as int);
    assert(pre.len() == img0.len());
    if 0 <= px < w && 0 <= py < h {
        lemma_row_start(w, h, py);
    }
    assert(post.len() == img0.len());
    assert forall|n: int| 0 <= n < post.len() implies post[n] == target[n] by {
        if 0 <= px < w && 0 <= py < h {
            let idx = px + py * w;
            lemma_row_start(w, h, py);
            if n == idx {
                assert(spec_path_covers(x, y, dx, dy, rect_w, rect_h, w, h, kk, n));
                assert(post[n] == spec_gray());
            } else {
                assert(post[n] == pre[n]);
                assert(!spec_path_covers(x, y, dx, dy, rect_w, rect_h, w, h, kk, n));
                if exists|kk0: int|
                    0 <= kk0 <= kk && spec_path_covers(
                        x,
                        y,
                        dx,
                        dy,
                        rect_w,
                        rect_h,
                        w,
                        h,
                        kk0,
                        n,
                    ) {
                    let kk0 = choose|kk0: int|
                        0 <= kk0 <= kk && spec_path_covers(
                            x,
                            y,
                            dx,
                            dy,
                            rect_w,
                            rect_h,
                            w,
                            h,
                            kk0,
                            n,
                        );
                    assert(kk0 <= kk - 1);
                    assert(pre[n] == spec_gray());
                }
            }
        } else {
            assert(!spec_path_covers(x, y, dx, dy, rect_w, rect_h, w, h, kk, n));
            assert(post[n] == pre[n]);
        }
    };
    assert(post =~= target);
}

/// Trace steps `0..=last` of one ray onto the minimap: each step's sample
/// point, scaled to minimap tiles, is painted `color` when it lands inside
/// the buffer.
fn draw_ray_path(
    frame_buffer: &mut FrameBuffer,
    cam_x: i32,
    cam_y: i32,
    dir_x: i32,
    dir_y: i32,
    rect_w: i32,
    rect_h: i32,
    last: u32,
    color: u32,
)
    requires
        old(frame_buffer).wf(),
        -FX_SCALE <= dir_x <= FX_SCALE,
        -FX_SCALE <= dir_y <= FX_SCALE,
        0 <= rect_w <= 8192,
        0 <= rect_h <= 8192,
        last < MAX_STEPS,
        color == spec_gray(),
    ensures
        final(frame_buffer).wf(),
        final(frame_buffer).width == old(frame_buffer).width,
        final(frame_buffer).height == old(frame_buffer).height,
        final(frame_buffer).image@ == spec_draw_path(
            old(frame_buffer).image@,
            cam_x as int,
            cam_y as int,
            dir_x as int,
            dir_y as int,
            rect_w as int,
            rect_h as int,
            old(frame_buffer).width as int,
            old(frame_buffer).height as int,
            last as int,
        ),
{
    let ghost img0 = frame_buffer.image@;
    let ghost w = frame_buffer.width as int;
    let ghost h = frame_buffer.height as int;
    proof {
        assert(frame_buffer.image@ =~= spec_draw_path(
            img0,
            cam_x as int,
            cam_y as int,
            dir_x as int,
            dir_y as int,
            rect_w as int,
            rect_h as int,
            w,
            h,
            -1,
        ));
    }
    let mut kk: u32 = 0;
    while kk <= last
        invariant
            frame_buffer.wf(),
            frame_buffer.width == w,
            frame_buffer.height == h,
            -FX_SCALE <= dir_x <= FX_SCALE,
            -FX_SCALE <= dir_y <= FX_SCALE,
            0 <= rect_w <= 8192,
            0 <= rect_h <= 8192,
            last < MAX_STEPS,
            color == spec_gray(),
            kk <= last + 1,
            frame_buffer.image@ == spec_draw_path(
                img0,
                cam_x as int,
                cam_y as int,
                dir_x as int,
                dir_y as int,
                rect_w as int,
                rect_h as int,
                w,
                h,
                kk - 1,
            ),
        decreases last + 1 - kk,
    {
        let cx = march_coord(cam_x, dir_x, kk);
        let cy = march_coord(cam_y, dir_y, kk);
        proof {
            lemma_path_prod_bound(cx as int, rect_w as int);
            lemma_path_prod_bound(cy as int, rect_h as int);
        }
        let px = crate::ray::div_scale(cx * rect_w as i64);
        let py = crate::ray::div_scale(cy * rect_h as i64);
        let ghost pre = frame_buffer.image@;
        if 0 <= px && px < frame_buffer.width as i64 && 0 <= py && py < frame_buffer.height
            as i64 {
            frame_buffer.set_pixel(px as i32, py as i32, color);
        }
        proof {
            lemma_path_step(img0, pre, frame_buffer.image@, cam_x as int, cam_y as int,
                dir_x as int, dir_y as int, rect_w as int, rect_h as int, w, h, kk as int);
        }
        kk += 1;
    }
}

/// Two slice rows on one pixel are the same row.
proof fn lemma_slice_row_unique(w: int, h: int, x_slice: int, ch: int, j1: int, j2: int, n: int)
    requires
        0 < w,
        spec_slice_covers(w, h, x_slice, ch, j1, n),
        spec_slice_covers(w, h, x_slice, ch, j2, n),
    ensures
        j1 == j2,
{
    lemma_mul_cancel(j1 + h / 2 - ch / 2, j2 + h / 2 - ch / 2, w);
}

/// One drawn row extends the wall slice by at most one pixel.
proof fn lemma_slice_step(
    img0: Seq<u32>,
    pre: Seq<u32>,
    post: Seq<u32>,
    tex: &Texture,
    w: int,
    h: int,
    x_slice: int,
    ch: int,
    code: int,
    coord: int,
    jj: int,
)
    requires
        img0.len() == w * h,
        0 < w,
        0 <= h,
        0 <= jj,
        0 <= x_slice < w,
        pre == spec_draw_slice(img0, tex, w, h, x_slice, ch, code, coord, jj),
        ({
            let py = jj + h / 2 - ch / 2;
            if 0 <= py < h {
                post == pre.update(
                    x_slice + py * w,
                    tex.image@[tex.spec_col_pos(coord, jj, ch, code)],
                )
            } else {
                post == pre
            }
        }),
    ensures
        post == spec_draw_slice(img0, tex, w, h, x_slice, ch, code, coord, jj + 1),
{
    let target = spec_draw_slice(img0, tex, w, h, x_slice, ch, code, coord, jj + 1);
    let py = jj + h / 2 - ch / 2;
    assert(pre.len() == img0.len());
    if 0 <= py < h {
        lemma_row_start(w, h, py);
    }
    assert(post.len() == img0.len());
    assert forall|n: int| 0 <= n < post.len() implies post[n] == target[n] by {
        if 0 <= py < h {
            let idx = x_slice + py * w;
            lemma_row_start(w, h, py);
            if n == idx {
                assert(spec_slice_covers(w, h, x_slice, ch, jj, n));
                let jj1 = choose|jj1: int|
                    0 <= jj1 < jj + 1 && spec_slice_covers(w, h, x_slice, ch, jj1, n);
                lemma_slice_row_unique(w, h, x_slice, ch, jj1, jj, n);
                assert(post[n] == tex.image@[tex.spec_col_pos(coord, jj, ch, code)]);
            } else {
                assert(post[n] == pre[n]);
                if exists|jj0: int|
                    0 <= jj0 < jj + 1 && spec_slice_covers(w, h, x_slice, ch, jj0, n) {
                    let jj0 = choose|jj0: int|
                        0 <= jj0 < jj + 1 && spec_slice_covers(w, h, x_slice, ch, jj0, n);
                    if jj0 == jj {
                        assert(n == idx);
                    }
                    assert(jj0 < jj);
                    let jjp = choose|jjp: int|
                        0 <= jjp < jj && spec_slice_covers(w, h, x_slice, ch, jjp, n);
                    lemma_slice_row_unique(w, h, x_slice, ch, jjp, jj0, n);
                    assert(pre[n] == tex.image@[tex.spec_col_pos(coord, jj0, ch, code)]);
                    assert(target[n] == tex.image@[tex.spec_col_pos(coord, jj0, ch, code)]);
                }
            }
        } else {
            assert(post[n] == pre[n]);
            assert(!spec_slice_covers(w, h, x_slice, ch, jj, n));
            if exists|jj0: int|
                0 <= jj0 < jj + 1 && spec_slice_covers(w, h, x_slice, ch, jj0, n) {
                let jj0 = choose|jj0: int|
                    0 <= jj0 < jj + 1 && spec_slice_covers(w, h, x_slice, ch, jj0, n);
                assert(jj0 != jj);
                let jjp = choose|jjp: int|
                    0 <= jjp < jj && spec_slice_covers(w, h, x_slice, ch, jjp, n);
                lemma_slice_row_unique(w, h, x_slice, ch, jjp, jj0, n);
                assert(pre[n] == tex.image@[tex.spec_col_pos(coord, jj0, ch, code)]);
                assert(target[n] == tex.image@[tex.spec_col_pos(coord, jj0, ch, code)]);
            }
        }
    };
    assert(post =~= target);
}

/// Draw one wall slice of height `ch`, vertically centered at screen
/// column `x_slice`, from the rescaled texture column; rows outside the
/// buffer are clipped.
fn draw_wall_slice(
    frame_buffer: &mut FrameBuffer,
    tex: &Texture,
    x_slice: i32,
    ch: u32,
    code: u32,
    coord: u32,
    column: &Vec<u32>,
)
    requires
        old(frame_buffer).wf(),
        0 <= x_slice < old(frame_buffer).width,
        column@.len() == ch,
        forall|jj: int|
            0 <= jj < ch ==> #[trigger] column@[jj] == tex.image@[tex.spec_col_pos(
                coord as int,
                jj,
                ch as int,
                code as int,
            )],
    ensures
        final(frame_buffer).wf(),
        final(frame_buffer).width == old(frame_buffer).width,
        final(frame_buffer).height == old(frame_buffer).height,
        final(frame_buffer).image@ == spec_draw_slice(
            old(frame_buffer).image@,
            tex,
            old(frame_buffer).width as int,
            old(frame_buffer).height as int,
            x_slice as int,
            ch as int,
            code as int,
            coord as int,
            ch as int,
        ),
{
    let ghost img0 = frame_buffer.image@;
    let ghost w = frame_buffer.width as int;
    let ghost h = frame_buffer.height as int;
    proof {
        assert(frame_buffer.image@ =~= spec_draw_slice(
            img0,
            tex,
            w,
            h,
            x_slice as int,
            ch as int,
            code as int,
            coord as int,
            0,
        ));
    }
    let h2: i64 = (frame_buffer.height as u32 / 2) as i64;
    let ch2: i64 = (ch / 2) as i64;
    let mut jj: u32 = 0;
    while jj < ch
        invariant
            frame_buffer.wf(),
            frame_buffer.width == w,
            frame_buffer.height == h,
            0 <= x_slice < w,
            jj <= ch,
            h2 == h / 2,
            ch2 == ch as int / 2,
            column@.len() == ch,
            forall|j0: int|
                0 <= j0 < ch ==> #[trigger] column@[j0] == tex.image@[tex.spec_col_pos(
                    coord as int,
                    j0,
                    ch as int,
                    code as int,
                )],
            frame_buffer.image@ == spec_draw_slice(
                img0,
                tex,
                w,
                h,
                x_slice as int,
                ch as int,
                code as int,
                coord as int,
                jj as int,
            ),
        decreases ch - jj,
    {
        let py = jj as i64 + h2 - ch2;
        let ghost pre = frame_buffer.image@;
        if 0 <= py && py < frame_buffer.height as i64 {
            frame_buffer.set_pixel(x_slice, py as i32, column[jj as usize]);
        }
        proof {
            lemma_slice_step(img0, pre, frame_buffer.image@, tex, w, h, x_slice as int,
                ch as int, code as int, coord as int, jj as int);
        }
        jj += 1;
    }
}

/// The grid's cell count stays small.
proof fn lemma_map_area(w: int, h: int)
    by (nonlinear_arith)
    requires
        0 < w <= 4096,
        0 < h <= 4096,
    ensures
        0 < w * h <= 0x1000000,
{
}

/// The grid's cell count stays small and a flat cell index decomposes into
/// its column and row.
proof fn lemma_map_cells(w: int, h: int, c: int)
    by (nonlinear_arith)
    requires
        0 < w <= 4096,
        0 < h <= 4096,
        0 <= c < w * h,
    ensures
        0 < w * h <= 0x1000000,
        0 <= c % w < w,
        0 <= c / w < h,
{
}

/// A minimap rectangle corner stays well inside the machine integers.
proof fn lemma_cell_rect_bound(i: int, r: int)
    by (nonlinear_arith)
    requires
        0 <= i < 4096,
        0 <= r <= 8192,
    ensures
        0 <= i * r <= 0x2000000,
{
}

/// The top-left pixel of a tile lies inside the atlas grid.
proof fn lemma_tile_origin(code: int, count: int, size: int)
    by (nonlinear_arith)
    requires
        0 <= code < count,
        0 < size,
    ensures
        0 <= code * size,
        code * size < (count * size) * size,
{
}

/// Every sample of a rescaled tile column lies inside the atlas grid.
proof fn lemma_texel_in_atlas(coord: int, code: int, row: int, count: int, size: int)
    by (nonlinear_arith)
    requires
        0 <= coord < size,
        0 <= code < count,
        0 <= row < size,
        0 < count,
        0 < size,
    ensures
        0 <= coord + code * size + row * (count * size) < (count * size) * size,
{
}

/// A product of a positive distance and a positive correction is at least
/// the distance's lower bound.
proof fn lemma_prod_at_least(t: int, corr: int)
    by (nonlinear_arith)
    requires
        10 <= t,
        1 <= corr,
    ensures
        t * corr >= 10,
{
}

/// Render one frame: clear to white, paint the minimap of occupied cells,
/// then march one ray per screen column, tracing its path on the minimap
/// and drawing the textured wall slice of the first hit into the right
/// half of the buffer. The resulting pixel grid is exactly
/// `spec_render(map, camera, wall_texture, width, height)`: a function of
/// the inputs alone, whatever the buffer held before.
pub fn render(
    frame_buffer: &mut FrameBuffer,
    map: &GridMap,
    camera: &Camera,
    wall_texture: &Texture,
)
    requires
        old(frame_buffer).wf(),
        map.wf(),
        camera.wf(),
        wall_texture.wf(),
        camera.rays@.len() == old(frame_buffer).width as int / 2,
        spec_codes_fit(map, wall_texture),
    ensures
        final(frame_buffer).wf(),
        final(frame_buffer).width == old(frame_buffer).width,
        final(frame_buffer).height == old(frame_buffer).height,
        final(frame_buffer).image@ == spec_render(
            map,
            camera,
            wall_texture,
            old(frame_buffer).width as int,
            old(frame_buffer).height as int,
        ),
{
    let w: i32 = frame_buffer.width;
    let h: i32 = frame_buffer.height;
    proof {
        assert(FX_SCALE == 1000);
        assert(crate::frame_buffer::MAX_FB_DIM == 8192);
        assert(crate::map::MAX_MAP_DIM == 4096);
    }
    let white = crate::utils::pack_color(255, 255, 255, None);
    let gray = crate::utils::pack_color(160, 160, 160, None);
    frame_buffer.clear(white);
    let ghost img_clear = frame_buffer.image@;
    proof {
        assert(img_clear == spec_clear(w as int, h as int, spec_white()));
    }

    let rect_w: i32 = (w as u32 / (map.width as u32 * 2)) as i32;
    let rect_h: i32 = (h as u32 / map.height as u32) as i32;
    proof {
        vstd::arithmetic::div_mod::lemma_div_is_ordered_by_denominator(
            w as int,
            1,
            map.width as int * 2,
        );
        vstd::arithmetic::div_mod::lemma_div_basics(w as int);
        vstd::arithmetic::div_mod::lemma_div_pos_is_pos(w as int, map.width as int * 2);
        vstd::arithmetic::div_mod::lemma_div_is_ordered_by_denominator(
            h as int,
            1,
            map.height as int,
        );
        vstd::arithmetic::div_mod::lemma_div_basics(h as int);
        vstd::arithmetic::div_mod::lemma_div_pos_is_pos(h as int, map.height as int);
        assert(rect_w == spec_rect_w(map, w as int));
        assert(rect_h == spec_rect_h(map, h as int));
        assert(0 <= rect_w <= 8192);
        assert(0 <= rect_h <= 8192);
    }

    // Minimap pass: one clipped rectangle per occupied cell, row-major.
    proof {
        lemma_map_area(map.width as int, map.height as int);
    }
    let n_cells: usize = (map.width * map.height) as usize;
    let mw: usize = map.width as usize;
    let mut c: usize = 0;
    while c < n_cells
        invariant
            frame_buffer.wf(),
            frame_buffer.width == w,
            frame_buffer.height == h,
            map.wf(),
            wall_texture.wf(),
            spec_codes_fit(map, wall_texture),
            mw == map.width as int,
            n_cells == map.width as int * map.height as int,
            0 <= rect_w <= 8192,
            0 <= rect_h <= 8192,
            c <= n_cells,
            frame_buffer.image@ == spec_minimap_upto(
                img_clear,
                map,
                wall_texture,
                w as int,
                rect_w as int,
                rect_h as int,
                c as int,
            ),
        decreases n_cells - c,
    {
        proof {
            lemma_map_cells(map.width as int, map.height as int, c as int);
        }
        let i: usize = c % mw;
        let j: usize = c / mw;
        if !map.is_empty(i as i32, j as i32) {
            let code = map.get(i as i32, j as i32);
            proof {
                lemma_tile_origin(
                    code as int,
                    wall_texture.count as int,
                    wall_texture.size as int,
                );
            }
            let color = wall_texture.get(0, 0, code).unwrap();
            proof {
                lemma_cell_rect_bound(i as int, rect_w as int);
                lemma_cell_rect_bound(j as int, rect_h as int);
            }
            frame_buffer.draw_rectangle(
                (i as i32) * rect_w,
                (j as i32) * rect_h,
                rect_w,
                rect_h,
                color,
            );
        }
        c += 1;
    }
    let ghost img_mini = frame_buffer.image@;

    // Ray pass: one ray per column of the right half of the screen.
    let rays_number: usize = (w as u32 / 2) as usize;
    let half_w: i32 = (w as u32 / 2) as i32;
    let mut i: usize = 0;
    while i < rays_number
        invariant
            frame_buffer.wf(),
            frame_buffer.width == w,
            frame_buffer.height == h,
            map.wf(),
            camera.wf(),
            wall_texture.wf(),
            spec_codes_fit(map, wall_texture),
            camera.rays@.len() == w as int / 2,
            rays_number == w as int / 2,
            half_w == w as int / 2,
            gray == spec_gray(),
            0 <= rect_w <= 8192,
            0 <= rect_h <= 8192,
            rect_w == spec_rect_w(map, w as int),
            rect_h == spec_rect_h(map, h as int),
            i <= rays_number,
            frame_buffer.image@ == spec_ray_pass(
                img_mini,
                map,
                camera,
                wall_texture,
                w as int,
                h as int,
                rect_w as int,
                rect_h as int,
                i as int,
            ),
        decreases rays_number - i,
    {
        let ghost img_i = frame_buffer.image@;
        let ray = camera.rays[i];
        assert(ray.wf());
        let hit = cast_ray(map, camera.x, camera.y, ray.dir_x, ray.dir_y);
        let limit: u32 = match hit {
            Some(k) => {
                proof {
                    crate::ray::lemma_first_hit_some(
                        map,
                        camera.x as int,
                        camera.y as int,
                        ray.dir_x as int,
                        ray.dir_y as int,
                        0,
                        k as int,
                    );
                }
                k
            },
            None => MAX_STEPS - 1,
        };
        draw_ray_path(
            frame_buffer,
            camera.x,
            camera.y,
            ray.dir_x,
            ray.dir_y,
            rect_w,
            rect_h,
            limit,
            gray,
        );
        if let Some(k) = hit {
            if k >= 1 && ray.corr >= 1 {
                let cx = march_coord(camera.x, ray.dir_x, k);
                let cy = march_coord(camera.y, ray.dir_y, k);
                assert(crate::ray::spec_cell_hit(map, cx as int, cy as int));
                let hx = hit_offset(cx);
                let hy = hit_offset(cy);
                proof {
                    vstd::arithmetic::div_mod::lemma_multiply_divide_lt(
                        cx as int,
                        1000,
                        map.width as int,
                    );
                    vstd::arithmetic::div_mod::lemma_multiply_divide_lt(
                        cy as int,
                        1000,
                        map.height as int,
                    );
                    vstd::arithmetic::div_mod::lemma_div_pos_is_pos(cx as int, 1000);
                    vstd::arithmetic::div_mod::lemma_div_pos_is_pos(cy as int, 1000);
                }
                let ci = (cx as u64 / 1000) as i32;
                let cj = (cy as u64 / 1000) as i32;
                let code = map.get(ci, cj);
                let t: i64 = k as i64 * 10;
                proof {
                    lemma_prod_at_least(t as int, ray.corr as int);
                    assert(crate::ray::MAX_STEPS * crate::ray::MARCH_STEP == 15000);
                }
                let ch64 = column_height(h, t, ray.corr);
                let ch = ch64 as u32;
                let coord = wall_x_texcoord(hx, hy, wall_texture.size);
                proof {
                    assert forall|yy: int| 0 <= yy < ch implies 0
                        <= #[trigger] wall_texture.spec_col_pos(
                        coord as int,
                        yy,
                        ch as int,
                        code as int,
                    ) < wall_texture.image@.len() by {
                        crate::texture::lemma_mul_strict_upper(
                            yy,
                            wall_texture.size as int,
                            ch as int,
                        );
                        vstd::arithmetic::div_mod::lemma_multiply_divide_lt(
                            yy * wall_texture.size,
                            ch as int,
                            wall_texture.size as int,
                        );
                        vstd::arithmetic::div_mod::lemma_div_pos_is_pos(
                            yy * wall_texture.size,
                            ch as int,
                        );
                        lemma_texel_in_atlas(
                            coord as int,
                            code as int,
                            yy * wall_texture.size as int / ch as int,
                            wall_texture.count as int,
                            wall_texture.size as int,
                        );
                    }
                }
                let column = wall_texture.get_scaled_column(code, coord, ch).unwrap();
                let x_slice: i32 = half_w + i as i32;
                draw_wall_slice(frame_buffer, wall_texture, x_slice, ch, code, coord, &column);
            }
        }
        proof {
            assert(frame_buffer.image@ == spec_render_column(
                img_i,
                map,
                camera,
                wall_texture,
                w as int,
                h as int,
                rect_w as int,
                rect_h as int,
                i as int,
            ));
        }
        i += 1;
    }
    proof {
        assert(frame_buffer.image@ == spec_render(
            map,
            camera,
            wall_texture,
            w as int,
            h as int,
        ));
    }
}

} // verus!
