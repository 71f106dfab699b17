//! A 2.5-D ray-casting renderer for tile-based grid maps. For each screen
//! column a ray marches through the grid to the first occupied cell; the
//! perspective-corrected hit distance gives the projected wall-slice height,
//! and the hit point's fractional offset selects the texture column to
//! sample. Frames are composed into a caller-provided pixel buffer and can
//! be serialized to a simple binary image format. All geometry runs in
//! fixed-point integer arithmetic of a thousandth of a map cell; the caller
//! supplies per-column ray directions in the same scale.

pub mod camera;
pub mod frame_buffer;
pub mod map;
pub mod ray;
pub mod render;
pub mod texture;
pub mod utils;
