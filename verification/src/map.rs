//! Read-only 2-D grid of cell codes. A cell is either walkable (the space
//! marker) or occupied by a wall whose type is a decimal digit code. The
//! layout text is configuration the caller supplies; construction validates
//! it once and the grid is immutable thereafter.

use vstd::prelude::*;
use vstd::string::StringSliceAdditionalSpecFns;

verus! {

/// Largest accepted side length of a grid, so that every index computation
/// stays well inside `i32`.
pub const MAX_MAP_DIM: i32 = 4096;

/// The byte that marks a walkable cell in a layout.
pub const EMPTY_CELL: u8 = 32;

#[derive(Debug, Clone, Copy, PartialEq, Eq, Structural)]
pub enum MapError {
    /// The layout byte count does not match `width * height`, or a
    /// dimension is zero, negative, or above `MAX_MAP_DIM`.
    WrongLength,
    /// A layout byte is neither the space marker nor a decimal digit.
    InvalidCell,
}

pub open spec fn cell_walkable(c: u8) -> bool {
    c == EMPTY_CELL
}

pub open spec fn cell_code_valid(c: u8) -> bool {
    c == EMPTY_CELL || (48 <= c <= 57)
}

#[derive(Debug)]
pub struct GridMap {
    pub width: i32,
    pub height: i32,
    pub cells: Vec<u8>,
}

proof fn lemma_grid_index(w: int, h: int, i: int, j: int)
    by (nonlinear_arith)
    requires
        0 < w <= MAX_MAP_DIM,
        0 < h <= MAX_MAP_DIM,
        0 <= i < w,
        0 <= j < h,
    ensures
        0 <= i + j * w < w * h,
        w * h <= 0x1000000,
{
}

impl GridMap {
    /// The grid contents, row-major: cell `(i, j)` sits at `i + j * width`.
    pub open spec fn grid(&self) -> Seq<u8> {
        self.cells@
    }

    pub open spec fn dims_ok(width: int, height: int) -> bool {
        0 < width <= MAX_MAP_DIM && 0 < height <= MAX_MAP_DIM
    }

    pub open spec fn wf(&self) -> bool {
        &&& Self::dims_ok(self.width as int, self.height as int)
        &&& self.grid().len() == self.width * self.height
        &&& forall|n: int|
            0 <= n < self.grid().len() ==> cell_code_valid(#[trigger] self.grid()[n])
    }

    pub open spec fn in_bounds(&self, i: int, j: int) -> bool {
        0 <= i < self.width && 0 <= j < self.height
    }

    /// Whether the in-bounds cell `(i, j)` holds a wall.
    pub open spec fn spec_occupied(&self, i: int, j: int) -> bool {
        !cell_walkable(self.grid()[i + j * self.width])
    }

    /// The wall-type code of an occupied cell: its digit's value.
    pub open spec fn spec_code(&self, i: int, j: int) -> u32 {
        (self.grid()[i + j * self.width] - 48) as u32
    }

    /// Validate a layout and build the grid from its bytes.
    pub fn new(width: i32, height: i32, layout: &str) -> (r: Result<GridMap, MapError>)
        ensures
            match r {
                Ok(m) => {
                    &&& m.wf()
                    &&& m.width == width
                    &&& m.height == height
                    &&& m.grid() == layout.spec_bytes()
                },
                Err(MapError::WrongLength) => !Self::dims_ok(width as int, height as int)
                    || layout.spec_bytes().len() != width * height,
                Err(MapError::InvalidCell) => exists|n: int|
                    0 <= n < layout.spec_bytes().len() && !cell_code_valid(
                        #[trigger] layout.spec_bytes()[n],
                    ),
            },
            r is Ok <==> {
                &&& Self::dims_ok(width as int, height as int)
                &&& layout.spec_bytes().len() == width * height
                &&& forall|n: int|
                    0 <= n < layout.spec_bytes().len() ==> cell_code_valid(
                        #[trigger] layout.spec_bytes()[n],
                    )
            },
    {
        if width <= 0 || width > MAX_MAP_DIM || height <= 0 || height > MAX_MAP_DIM {
            return Err(MapError::WrongLength);
        }
        proof {
            lemma_grid_index(width as int, height as int, 0, 0);
        }
        let bytes = layout.as_bytes();
        if bytes.len() != (width * height) as usize {
            return Err(MapError::WrongLength);
        }
        let mut k: usize = 0;
        while k < bytes.len()
            invariant
                bytes@ == layout.spec_bytes(),
                k <= bytes@.len(),
                forall|n: int| 0 <= n < k ==> cell_code_valid(#[trigger] bytes@[n]),
            decreases bytes@.len() - k,
        {
            let c = bytes[k];
            if !(c == EMPTY_CELL || (48 <= c && c <= 57)) {
                return Err(MapError::InvalidCell);
            }
            k += 1;
        }
        let cells = vstd::slice::slice_to_vec(bytes);
        Ok(GridMap { width, height, cells })
    }

    /// The wall-type code at an occupied in-bounds cell.
    pub fn get(&self, i: i32, j: i32) -> (code: u32)
        requires
            self.wf(),
            self.in_bounds(i as int, j as int),
            self.spec_occupied(i as int, j as int),
        ensures
            code == self.spec_code(i as int, j as int),
            code <= 9,
    {
        proof {
            lemma_grid_index(self.width as int, self.height as int, i as int, j as int);
        }
        let idx = (i + j * self.width) as usize;
        (self.cells[idx] - 48) as u32
    }

    /// Whether the in-bounds cell `(i, j)` is the walkable marker. Together
    /// with `get`, for every in-bounds cell this answers the opposite of
    /// occupancy: `is_empty(i, j) == !spec_occupied(i, j)`.
    pub fn is_empty(&self, i: i32, j: i32) -> (empty: bool)
        requires
            self.wf(),
            self.in_bounds(i as int, j as int),
        ensures
            empty == !self.spec_occupied(i as int, j as int),
    {
        proof {
            lemma_grid_index(self.width as int, self.height as int, i as int, j as int);
        }
        let idx = (i + j * self.width) as usize;
        self.cells[idx] == EMPTY_CELL
    }
}

} // verus!
