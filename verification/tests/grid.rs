use raycaster::frame_buffer::FrameBuffer;
use raycaster::map::{GridMap, MapError};
use raycaster::utils::pack_color;

#[test]
fn map_new_accepts_valid_layout() {
    let m = GridMap::new(4, 2, "01  2  3").unwrap();
    assert_eq!(m.width, 4);
    assert_eq!(m.height, 2);
}

#[test]
fn map_new_rejects_wrong_length() {
    assert_eq!(GridMap::new(4, 2, "012").unwrap_err(), MapError::WrongLength);
    assert_eq!(GridMap::new(0, 2, "").unwrap_err(), MapError::WrongLength);
    assert_eq!(GridMap::new(-3, 2, "").unwrap_err(), MapError::WrongLength);
}

#[test]
fn map_new_rejects_invalid_cell() {
    assert_eq!(GridMap::new(2, 1, "0x").unwrap_err(), MapError::InvalidCell);
}

#[test]
fn map_emptiness_is_opposite_of_occupancy() {
    let m = GridMap::new(4, 2, "01  2  3").unwrap();
    // Row 0: '0', '1', ' ', ' '; row 1: '2', ' ', ' ', '3'.
    let occupied = [
        [true, true, false, false],
        [true, false, false, true],
    ];
    for j in 0..2i32 {
        for i in 0..4i32 {
            assert_eq!(m.is_empty(i, j), !occupied[j as usize][i as usize]);
        }
    }
}

#[test]
fn map_get_returns_configured_codes() {
    let m = GridMap::new(4, 2, "01  2  3").unwrap();
    assert_eq!(m.get(0, 0), 0);
    assert_eq!(m.get(1, 0), 1);
    assert_eq!(m.get(0, 1), 2);
    assert_eq!(m.get(3, 1), 3);
}

#[test]
fn set_pixel_writes_one_cell() {
    let mut fb = FrameBuffer::new(3, 2, vec![0u32; 6]);
    fb.set_pixel(2, 1, 7);
    assert_eq!(fb.image, vec![0, 0, 0, 0, 0, 7]);
}

#[test]
fn clear_fills_with_one_color() {
    let mut fb = FrameBuffer::new(2, 2, vec![0u32; 4]);
    let c = pack_color(9, 8, 7, None);
    fb.clear(c);
    assert_eq!(fb.image, vec![c; 4]);
}

#[test]
fn draw_rectangle_clips_to_bounds() {
    let mut fb = FrameBuffer::new(4, 4, vec![0u32; 16]);
    fb.draw_rectangle(2, 2, 5, 5, 1);
    for y in 0..4 {
        for x in 0..4 {
            let expect = if x >= 2 && y >= 2 { 1 } else { 0 };
            assert_eq!(fb.image[(x + y * 4) as usize], expect, "at ({x},{y})");
        }
    }
}

#[test]
fn draw_rectangle_with_empty_extent_is_a_no_op() {
    let mut fb = FrameBuffer::new(4, 4, vec![5u32; 16]);
    fb.draw_rectangle(1, 1, 0, 3, 9);
    fb.draw_rectangle(1, 1, -2, -2, 9);
    assert_eq!(fb.image, vec![5u32; 16]);
}

#[test]
fn draw_rectangle_fully_negative_origin_clips_silently() {
    let mut fb = FrameBuffer::new(4, 4, vec![0u32; 16]);
    fb.draw_rectangle(-2, -2, 3, 3, 1);
    for y in 0..4 {
        for x in 0..4 {
            let expect = if x <= 0 && y <= 0 { 1 } else { 0 };
            assert_eq!(fb.image[(x + y * 4) as usize], expect, "at ({x},{y})");
        }
    }
}
