//! Camera pose in fixed-point map units, together with the per-column ray
//! directions the caller derived from its heading and field of view. The
//! engine works in thousandths of a map cell; the trigonometry that turns an
//! angle into a direction vector stays with the caller.

use vstd::prelude::*;

verus! {

/// Fixed-point units per map cell.
pub const FX_SCALE: i64 = 1000;

/// Half a map cell, in fixed-point units.
pub const FX_HALF: i64 = 500;

/// The direction of one screen column's ray: the cosine and sine of its
/// angle, and the cosine of its offset from the camera heading (the fisheye
/// correction), all scaled by `FX_SCALE`.
#[derive(Debug, Clone, Copy, PartialEq, Eq, Structural)]
pub struct RayDir {
    pub dir_x: i32,
    pub dir_y: i32,
    pub corr: i32,
}

impl RayDir {
    /// Scaled cosines and sines lie within one cell unit.
    pub open spec fn wf(&self) -> bool {
        &&& -FX_SCALE <= self.dir_x <= FX_SCALE
        &&& -FX_SCALE <= self.dir_y <= FX_SCALE
        &&& -FX_SCALE <= self.corr <= FX_SCALE
    }
}

/// Camera position in fixed-point map units and one ray direction per
/// screen column, spanning the field of view left to right.
#[derive(Debug, Clone)]
pub struct Camera {
    pub x: i32,
    pub y: i32,
    pub rays: Vec<RayDir>,
}

impl Camera {
    pub open spec fn wf(&self) -> bool {
        forall|n: int| 0 <= n < self.rays@.len() ==> (#[trigger] self.rays@[n]).wf()
    }
}

} // verus!
