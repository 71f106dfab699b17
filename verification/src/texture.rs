//! Square-tile texture atlas: `count` tiles of `size` by `size` pixels packed
//! side by side in one pixel grid. Decoding the encoded image file is the
//! `image` crate's work; validating the packing and building the packed-color
//! grid is verified here.

use crate::utils::spec_pack;
use vstd::prelude::*;

verus! {

/// Largest accepted tile side, so that sampling positions stay small.
pub const MAX_TILE_SIZE: u32 = 1024;

/// Largest accepted tile count in one atlas.
pub const MAX_TILE_COUNT: u32 = 128;

#[derive(Debug, Clone, Copy, PartialEq, Eq, Structural)]
pub enum TextureError {
    /// The bytes are not a decodable image.
    Decode,
    /// The decoded image is not a row of square tiles: its width is not a
    /// positive exact multiple of its positive height.
    BadPacking,
    /// The decoded atlas exceeds the accepted tile size or tile count.
    TooLarge,
}

/// What `image::load_from_memory` decodes from the given encoded bytes, as
/// RGBA rows: the dimensions and the raw byte buffer, or nothing when the
/// bytes are not a decodable image. The decode depends on the bytes alone.
pub uninterp spec fn rgba_decoding(bytes: Seq<u8>) -> Option<(u32, u32, Seq<u8>)>;

#[derive(Debug)]
pub struct Texture {
    pub image_width: u32,
    pub image_height: u32,
    pub count: u32,
    pub size: u32,
    pub image: Vec<u32>,
}

/// An atlas width that is a positive exact multiple of a positive height.
pub open spec fn spec_packing_ok(w: int, h: int) -> bool {
    0 < h && 0 < w && w % h == 0
}

/// The tile dimensions the atlas implies stay within the accepted caps.
pub open spec fn spec_size_ok(w: int, h: int) -> bool {
    h <= MAX_TILE_SIZE && w / h <= MAX_TILE_COUNT
}

/// The packed-color grid holds, pixel for pixel, the RGBA quadruples of the
/// raw byte buffer.
pub open spec fn spec_packed_pixels(image: Seq<u32>, pixels: Seq<u8>, n_pixels: int) -> bool {
    &&& image.len() == n_pixels
    &&& forall|n: int|
        0 <= n < n_pixels ==> #[trigger] image[n] == spec_pack(
            pixels[4 * n],
            pixels[4 * n + 1],
            pixels[4 * n + 2],
            pixels[4 * n + 3],
        )
}

/// For `0 <= y < ch`, the product `y * size` stays under `ch * size`.
pub(crate) proof fn lemma_mul_strict_upper(y: int, size: int, ch: int)
    by (nonlinear_arith)
    requires
        0 <= y < ch,
        0 < size,
    ensures
        y * size < ch * size,
{
}

proof fn lemma_tex_area(size: int, count: int)
    by (nonlinear_arith)
    requires
        0 < size <= MAX_TILE_SIZE,
        0 < count <= MAX_TILE_COUNT,
    ensures
        0 < count * size <= 0x20000,
        0 < (count * size) * size <= 0x8000000,
{
}

impl Texture {
    pub open spec fn wf(&self) -> bool {
        &&& 0 < self.size <= MAX_TILE_SIZE
        &&& 0 < self.count <= MAX_TILE_COUNT
        &&& self.image_height == self.size
        &&& self.image_width == self.count * self.size
        &&& self.image@.len() == self.image_width * self.image_height
    }

    /// Where the sample `(i, j)` of tile `idx` sits in the pixel grid. The
    /// lookup does not bound `i` by the tile size: a larger `i` reads into
    /// the following tiles, exactly as the flat grid stores them.
    pub open spec fn spec_texel_pos(&self, i: int, j: int, idx: int) -> int {
        i + idx * self.size + j * self.image_width
    }

    /// The sample `(i, j)` of tile `idx`, or nothing when its flat position
    /// falls outside the grid.
    pub open spec fn spec_get(&self, i: int, j: int, idx: int) -> Option<u32> {
        if 0 <= self.spec_texel_pos(i, j, idx) < self.image@.len() {
            Some(self.image@[self.spec_texel_pos(i, j, idx)])
        } else {
            None
        }
    }

    /// Where output row `y` of a column rescaled to `ch` rows samples the
    /// grid: the nearest-neighbor source row is `y * size / ch`.
    pub open spec fn spec_col_pos(&self, coord: int, y: int, ch: int, id: int) -> int {
        self.spec_texel_pos(coord, y * self.size / ch, id)
    }

    /// Whether every row sample of a rescaled column lands inside the grid.
    pub open spec fn spec_column_ok(&self, id: int, coord: int, ch: int) -> bool {
        forall|y: int|
            0 <= y < ch ==> 0 <= #[trigger] self.spec_col_pos(coord, y, ch, id)
                < self.image@.len()
    }

    /// Sample one pixel of the atlas.
    pub fn get(&self, i: u32, j: u32, idx: u32) -> (r: Option<u32>)
        requires
            self.wf(),
        ensures
            r == self.spec_get(i as int, j as int, idx as int),
    {
        proof {
            lemma_tex_area(self.size as int, self.count as int);
            vstd::arithmetic::mul::lemma_mul_upper_bound(
                idx as int,
                0xffffffff,
                self.size as int,
                MAX_TILE_SIZE as int,
            );
            vstd::arithmetic::mul::lemma_mul_upper_bound(
                j as int,
                0xffffffff,
                self.image_width as int,
                0x20000,
            );
        }
        let pos: u64 = i as u64 + idx as u64 * self.size as u64 + j as u64
            * self.image_width as u64;
        if pos < self.image.len() as u64 {
            Some(self.image[pos as usize])
        } else {
            None
        }
    }

    /// Resample the column `texture_coord` of tile `texture_id` to
    /// `column_height` rows by nearest-neighbor vertical rescale: output row
    /// `y` samples tile row `y * size / column_height`. Returns nothing as
    /// soon as a sample position falls outside the grid.
    pub fn get_scaled_column(&self, texture_id: u32, texture_coord: u32, column_height: u32) -> (r:
        Option<Vec<u32>>)
        requires
            self.wf(),
        ensures
            r is Some <==> self.spec_column_ok(
                texture_id as int,
                texture_coord as int,
                column_height as int,
            ),
            r matches Some(col) ==> {
                &&& col@.len() == column_height
                &&& forall|y: int|
                    0 <= y < column_height ==> #[trigger] col@[y] == self.image@[self.spec_col_pos(
                        texture_coord as int,
                        y,
                        column_height as int,
                        texture_id as int,
                    )]
            },
    {
        let mut column: Vec<u32> = Vec::new();
        let mut y: u32 = 0;
        while y < column_height
            invariant
                self.wf(),
                y <= column_height,
                column@.len() == y,
                forall|y0: int|
                    0 <= y0 < y ==> 0 <= #[trigger] self.spec_col_pos(
                        texture_coord as int,
                        y0,
                        column_height as int,
                        texture_id as int,
                    ) < self.image@.len(),
                forall|y0: int|
                    0 <= y0 < y ==> #[trigger] column@[y0] == self.image@[self.spec_col_pos(
                        texture_coord as int,
                        y0,
                        column_height as int,
                        texture_id as int,
                    )],
            decreases column_height - y,
        {
            proof {
                vstd::arithmetic::mul::lemma_mul_upper_bound(
                    y as int,
                    0xffffffff,
                    self.size as int,
                    MAX_TILE_SIZE as int,
                );
                lemma_mul_strict_upper(y as int, self.size as int, column_height as int);
                vstd::arithmetic::div_mod::lemma_multiply_divide_lt(
                    y * self.size,
                    column_height as int,
                    self.size as int,
                );
                vstd::arithmetic::div_mod::lemma_div_pos_is_pos(
                    y * self.size,
                    column_height as int,
                );
            }
            let row = (y as u64 * self.size as u64 / column_height as u64) as u32;
            assert(row == y * self.size / column_height as int);
            assert(self.spec_texel_pos(texture_coord as int, row as int, texture_id as int)
                == self.spec_col_pos(texture_coord as int, y as int, column_height as int,
                    texture_id as int));
            match self.get(texture_coord, row, texture_id) {
                Some(pixel) => column.push(pixel),
                None => {
                    proof {
                        assert(!self.spec_column_ok(
                            texture_id as int,
                            texture_coord as int,
                            column_height as int,
                        ));
                    }
                    return None;
                },
            }
            y += 1;
        }
        Some(column)
    }

    /// Validate the decoded atlas dimensions and pack the raw RGBA bytes
    /// into the grid of packed colors.
    pub fn from_rgba(width: u32, height: u32, pixels: &Vec<u8>) -> (r: Result<Texture, TextureError>)
        requires
            pixels@.len() == 4 * width * height,
        ensures
            r is Ok <==> spec_packing_ok(width as int, height as int) && spec_size_ok(
                width as int,
                height as int,
            ),
            r == Err::<Texture, TextureError>(TextureError::BadPacking) <==> !spec_packing_ok(
                width as int,
                height as int,
            ),
            r matches Ok(t) ==> {
                &&& t.wf()
                &&& t.image_width == width
                &&& t.image_height == height
                &&& t.size == height
                &&& t.count == width as int / height as int
                &&& spec_packed_pixels(t.image@, pixels@, width * height)
            },
    {
        if height == 0 || width == 0 || width % height != 0 {
            return Err(TextureError::BadPacking);
        }
        let count = width / height;
        if height > MAX_TILE_SIZE || count > MAX_TILE_COUNT {
            return Err(TextureError::TooLarge);
        }
        proof {
            if width < height {
                vstd::arithmetic::div_mod::lemma_small_mod(width as nat, height as nat);
            }
            vstd::arithmetic::div_mod::lemma_div_by_self(height as int);
            vstd::arithmetic::div_mod::lemma_div_is_ordered(
                height as int,
                width as int,
                height as int,
            );
            lemma_tex_area(height as int, count as int);
            vstd::arithmetic::div_mod::lemma_fundamental_div_mod(width as int, height as int);
            vstd::arithmetic::mul::lemma_mul_is_commutative(height as int, count as int);
            assert(width == count * height);
        }
        let n_pixels = (width * height) as usize;
        proof {
            vstd::arithmetic::mul::lemma_mul_is_associative(4, width as int, height as int);
        }
        let mut image: Vec<u32> = Vec::new();
        let mut n: usize = 0;
        while n < n_pixels
            invariant
                n <= n_pixels,
                n_pixels == width * height,
                n_pixels <= 0x8000000,
                pixels@.len() == 4 * n_pixels,
                image@.len() == n,
                forall|k: int|
                    0 <= k < n ==> #[trigger] image@[k] == spec_pack(
                        pixels@[4 * k],
                        pixels@[4 * k + 1],
                        pixels@[4 * k + 2],
                        pixels@[4 * k + 3],
                    ),
            decreases n_pixels - n,
        {
            let c = crate::utils::pack_color(
                pixels[4 * n],
                pixels[4 * n + 1],
                pixels[4 * n + 2],
                Some(pixels[4 * n + 3]),
            );
            image.push(c);
            n += 1;
        }
        Ok(
            Texture {
                image_width: width,
                image_height: height,
                count,
                size: height,
                image,
            },
        )
    }

    /// Decode an encoded image and build the atlas from it.
    pub fn new(bytes: &[u8]) -> (r: Result<Texture, TextureError>)
        ensures
            match rgba_decoding(bytes@) {
                None => r == Err::<Texture, TextureError>(TextureError::Decode),
                Some((w, h, p)) => {
                    &&& (r is Ok <==> spec_packing_ok(w as int, h as int) && spec_size_ok(
                        w as int,
                        h as int,
                    ))
                    &&& (r == Err::<Texture, TextureError>(TextureError::BadPacking)
                        <==> !spec_packing_ok(w as int, h as int))
                    &&& (r matches Ok(t) ==> {
                        &&& t.wf()
                        &&& t.image_width == w
                        &&& t.image_height == h
                        &&& t.size == h
                        &&& t.count == w as int / h as int
                        &&& spec_packed_pixels(t.image@, p, w * h)
                    })
                },
            },
    {
        match decode_rgba(bytes) {
            None => Err(TextureError::Decode),
            Some((w, h, pix)) => Self::from_rgba(w, h, &pix),
        }
    }
}

/// Relies on `image::load_from_memory` together with `RgbaImage`: the decode
/// is a function of the encoded bytes alone, and a decoded image's raw RGBA
/// buffer holds exactly `4 * width * height` bytes, row-major.
#[verifier::external_body]
fn decode_rgba(bytes: &[u8]) -> (r: Option<(u32, u32, Vec<u8>)>)
    ensures
        match r {
            Some((w, h, pix)) => rgba_decoding(bytes@) == Some((w, h, pix@)) && pix@.len() == 4 * w
                * h,
            None => rgba_decoding(bytes@) is None,
        },
{
    let img = match image::load_from_memory(bytes) {
        Ok(decoded) => decoded.to_rgba8(),
        Err(_) => return None,
    };
    let (w, h) = img.dimensions();
    Some((w, h, img.into_raw()))
}

} // verus!
