//! Mutable grid of packed-RGBA pixels, row-major. Single-pixel writes demand
//! in-bounds coordinates; rectangle fills clip silently to the buffer edges.

use vstd::prelude::*;

verus! {

/// Largest accepted side length of a framebuffer, so that index and
/// projection computations stay well inside the machine integers.
pub const MAX_FB_DIM: i32 = 8192;

/// The buffer a rectangle fill leaves behind: inside the (clipped) rectangle
/// every pixel is `color`; outside, the old pixel. Index `n` names the pixel
/// at column `n % w`, row `n / w`.
pub open spec fn spec_fill_rect(
    img: Seq<u32>,
    w: int,
    rx: int,
    ry: int,
    rw: int,
    rh: int,
    color: u32,
) -> Seq<u32> {
    Seq::new(
        img.len(),
        |n: int|
            if rx <= n % w < rx + rw && ry <= n / w < ry + rh {
                color
            } else {
                img[n]
            },
    )
}

/// The buffer a clear leaves behind: `w * h` pixels, all `color`.
pub open spec fn spec_clear(w: int, h: int, color: u32) -> Seq<u32> {
    Seq::new((w * h) as nat, |n: int| color)
}

pub struct FrameBuffer {
    pub width: i32,
    pub height: i32,
    pub image: Vec<u32>,
}

proof fn lemma_fb_index(w: int, h: int, x: int, y: int)
    by (nonlinear_arith)
    requires
        0 < w <= MAX_FB_DIM,
        0 < h <= MAX_FB_DIM,
        0 <= x < w,
        0 <= y < h,
    ensures
        0 <= x + y * w < w * h,
        w * h <= 0x4000000,
{
}

impl FrameBuffer {
    pub open spec fn wf(&self) -> bool {
        &&& 0 <= self.width <= MAX_FB_DIM
        &&& 0 <= self.height <= MAX_FB_DIM
        &&& self.image@.len() == self.width * self.height
    }

    pub fn new(width: i32, height: i32, image: Vec<u32>) -> (fb: Box<Self>)
        ensures
            fb.width == width,
            fb.height == height,
            fb.image@ == image@,
    {
        Box::new(Self { width, height, image })
    }

    /// Write one pixel; the coordinates must be in bounds.
    pub fn set_pixel(&mut self, x: i32, y: i32, color: u32)
        requires
            old(self).wf(),
            0 <= x < old(self).width,
            0 <= y < old(self).height,
        ensures
            final(self).wf(),
            final(self).width == old(self).width,
            final(self).height == old(self).height,
            final(self).image@ == old(self).image@.update(x + y * old(self).width, color),
    {
        proof {
            lemma_fb_index(self.width as int, self.height as int, x as int, y as int);
        }
        let idx = (x + y * self.width) as usize;
        self.image.set(idx, color);
    }

    /// Fill a `rect_w` by `rect_h` rectangle whose top-left corner is
    /// `(rect_x, rect_y)`, clipped silently to the buffer bounds.
    pub fn draw_rectangle(&mut self, rect_x: i32, rect_y: i32, rect_w: i32, rect_h: i32, color: u32)
        requires
            old(self).wf(),
        ensures
            final(self).wf(),
            final(self).width == old(self).width,
            final(self).height == old(self).height,
            final(self).image@ == spec_fill_rect(
                old(self).image@,
                old(self).width as int,
                rect_x as int,
                rect_y as int,
                rect_w as int,
                rect_h as int,
                color,
            ),
    {
        let ghost img0 = self.image@;
        let ghost w = self.width as int;
        let ghost h = self.height as int;
        let mut i: i32 = 0;
        while i < rect_w
            invariant
                self.wf(),
                self.width == w,
                self.height == h,
                0 <= i,
                i <= rect_w || (rect_w <= 0 && i == 0),
                self.image@ == spec_fill_rect(img0, w, rect_x as int, rect_y as int, i as int, rect_h as int, color),
            decreases rect_w - i,
        {
            let mut j: i32 = 0;
            while j < rect_h
                invariant
                    self.wf(),
                    self.width == w,
                    self.height == h,
                    0 <= i < rect_w,
                    0 <= j,
                    j <= rect_h || (rect_h <= 0 && j == 0),
                    self.image@ == spec_fill_rect(
                        spec_fill_rect(img0, w, rect_x as int, rect_y as int, i as int, rect_h as int, color),
                        w,
                        rect_x + i,
                        rect_y as int,
                        1,
                        j as int,
                        color,
                    ),
                decreases rect_h - j,
            {
                let cx = rect_x as i64 + i as i64;
                let cy = rect_y as i64 + j as i64;
                let ghost pre = self.image@;
                if 0 <= cx && cx < self.width as i64 && 0 <= cy && cy < self.height as i64 {
                    self.set_pixel(cx as i32, cy as i32, color);
                    proof {
                        vstd::arithmetic::div_mod::lemma_fundamental_div_mod_converse(
                            cx + cy * w,
                            w,
                            cy as int,
                            cx as int,
                        );
                    }
                }
                proof {
                    lemma_rect_step(img0, pre, self.image@, w, h, rect_x as int, rect_y as int,
                        i as int, rect_h as int, j as int, color);
                }
                j += 1;
            }
            proof {
                lemma_rect_col_done(img0, self.image@, w, h, rect_x as int, rect_y as int,
                    i as int, rect_h as int, color);
            }
            i += 1;
        }
        proof {
            assert(self.image@ =~= spec_fill_rect(img0, w, rect_x as int, rect_y as int,
                rect_w as int, rect_h as int, color));
        }
    }

    /// Reset the whole buffer to one color, re-establishing the size
    /// invariant from the stored dimensions.
    pub fn clear(&mut self, color: u32)
        requires
            0 <= old(self).width <= MAX_FB_DIM,
            0 <= old(self).height <= MAX_FB_DIM,
        ensures
            final(self).wf(),
            final(self).width == old(self).width,
            final(self).height == old(self).height,
            final(self).image@ == spec_clear(old(self).width as int, old(self).height as int, color),
    {
        proof {
            lemma_fb_area(self.width as int, self.height as int);
        }
        self.image = vec![color; (self.width * self.height) as usize];
        proof {
            assert(self.image@ =~= spec_clear(self.width as int, self.height as int, color));
        }
    }
}

/// One inner-loop step of `draw_rectangle` extends the partial column by one
/// pixel (or, out of bounds, by nothing visible).
proof fn lemma_rect_step(
    img0: Seq<u32>,
    pre: Seq<u32>,
    post: Seq<u32>,
    w: int,
    h: int,
    rx: int,
    ry: int,
    i: int,
    rh: int,
    j: int,
    color: u32,
)
    requires
        img0.len() == w * h,
        0 <= w,
        0 <= h,
        0 <= i,
        0 <= j,
        pre == spec_fill_rect(
            spec_fill_rect(img0, w, rx, ry, i, rh, color),
            w,
            rx + i,
            ry,
            1,
            j,
            color,
        ),
        if 0 <= rx + i < w && 0 <= ry + j < h {
            post == pre.update(rx + i + (ry + j) * w, color)
        } else {
            post == pre
        },
    ensures
        post == spec_fill_rect(
            spec_fill_rect(img0, w, rx, ry, i, rh, color),
            w,
            rx + i,
            ry,
            1,
            j + 1,
            color,
        ),
{
    let inner = spec_fill_rect(img0, w, rx, ry, i, rh, color);
    let target = spec_fill_rect(inner, w, rx + i, ry, 1, j + 1, color);
    assert(pre.len() == img0.len());
    if 0 <= rx + i < w && 0 <= ry + j < h {
        lemma_fb_mul_bound(w, h, ry + j);
    }
    assert(post.len() == img0.len());
    assert forall|n: int| 0 <= n < post.len() implies post[n] == target[n] by {
        if w > 0 {
            vstd::arithmetic::div_mod::lemma_mod_bound(n, w);
            vstd::arithmetic::div_mod::lemma_div_pos_is_pos(n, w);
            vstd::arithmetic::div_mod::lemma_fundamental_div_mod(n, w);
            assert(n < w * h);
            vstd::arithmetic::div_mod::lemma_multiply_divide_lt(n, w, h);
            if 0 <= rx + i < w && 0 <= ry + j < h {
                let idx = rx + i + (ry + j) * w;
                vstd::arithmetic::div_mod::lemma_fundamental_div_mod_converse(
                    idx,
                    w,
                    ry + j,
                    rx + i,
                );
                lemma_fb_mul_bound(w, h, ry + j);
                vstd::arithmetic::div_mod::lemma_fundamental_div_mod(idx, w);
                if n == idx {
                    assert(post[n] == color);
                    assert(n % w == rx + i && n / w == ry + j);
                    assert(target[n] == color);
                } else {
                    assert(post[n] == pre[n]);
                    assert(!(n % w == rx + i && n / w == ry + j));
                    assert(target[n] == pre[n]);
                }
            } else {
                assert(post[n] == pre[n]);
                assert(!(n % w == rx + i && n / w == ry + j));
                assert(target[n] == pre[n]);
            }
        }
    };
    assert(post =~= target);
}

/// After its inner loop, `draw_rectangle` has extended the filled region by
/// one full column.
proof fn lemma_rect_col_done(
    img0: Seq<u32>,
    cur: Seq<u32>,
    w: int,
    h: int,
    rx: int,
    ry: int,
    i: int,
    rh: int,
    color: u32,
)
    requires
        img0.len() == w * h,
        0 <= w,
        0 <= h,
        0 <= i,
        cur == spec_fill_rect(
            spec_fill_rect(img0, w, rx, ry, i, rh, color),
            w,
            rx + i,
            ry,
            1,
            if rh < 0 {
                0
            } else {
                rh
            },
            color,
        ),
    ensures
        cur == spec_fill_rect(img0, w, rx, ry, i + 1, rh, color),
{
    let inner = spec_fill_rect(img0, w, rx, ry, i, rh, color);
    let target = spec_fill_rect(img0, w, rx, ry, i + 1, rh, color);
    assert forall|n: int| 0 <= n < cur.len() implies cur[n] == target[n] by {
        if w > 0 {
            vstd::arithmetic::div_mod::lemma_mod_bound(n, w);
        }
    };
    assert(cur =~= target);
}

/// The pixel count of in-range dimensions fits comfortably in `usize`.
proof fn lemma_fb_area(w: int, h: int)
    by (nonlinear_arith)
    requires
        0 <= w <= MAX_FB_DIM,
        0 <= h <= MAX_FB_DIM,
    ensures
        0 <= w * h <= 0x4000000,
{
}

/// For a row index below the height, the start of the row is below `w * h`.
proof fn lemma_fb_mul_bound(w: int, h: int, y: int)
    by (nonlinear_arith)
    requires
        0 < w,
        0 <= y < h,
    ensures
        0 <= y * w,
        y * w + w <= w * h,
{
}

} // verus!
