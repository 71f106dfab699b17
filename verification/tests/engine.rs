use raycaster::camera::{Camera, RayDir};
use raycaster::frame_buffer::FrameBuffer;
use raycaster::map::GridMap;
use raycaster::ray::{cast_ray, column_height, wall_x_texcoord};
use raycaster::render::render;
use raycaster::texture::Texture;
use raycaster::utils::{pack_color, ppm_bytes, unpack_color};

/// A 16x16 map with one enclosed room: walls of type 1 on the border,
/// walkable interior.
fn room_16() -> GridMap {
    let mut layout = String::new();
    for j in 0..16 {
        for i in 0..16 {
            if i == 0 || i == 15 || j == 0 || j == 15 {
                layout.push('1');
            } else {
                layout.push(' ');
            }
        }
    }
    GridMap::new(16, 16, &layout).unwrap()
}

/// Two 1x1 tiles: tile 0 red, tile 1 blue.
fn two_tiles() -> Texture {
    Texture::from_rgba(2, 1, &vec![255, 0, 0, 255, 0, 0, 255, 255]).unwrap()
}

#[test]
fn pack_and_unpack_are_inverse_on_a_sample() {
    let c = pack_color(1, 2, 3, Some(4));
    assert_eq!(c, 1 + 2 * 0x100 + 3 * 0x10000 + 4 * 0x1000000);
    let (mut r, mut g, mut b, mut a) = (0, 0, 0, 0);
    unpack_color(&c, &mut r, &mut g, &mut b, &mut a);
    assert_eq!((r, g, b, a), (1, 2, 3, 4));
}

#[test]
fn pack_color_defaults_to_opaque_alpha() {
    assert_eq!(pack_color(255, 0, 0, None), 0xFF0000FF);
}

#[test]
fn texcoord_boundary_hit_is_zero() {
    assert_eq!(wall_x_texcoord(0, 0, 16), 0);
}

#[test]
fn texcoord_wraps_negative_offsets() {
    // A hit half a cell to the negative side lands mid-tile.
    assert_eq!(wall_x_texcoord(-500, 0, 16), 8);
    assert_eq!(wall_x_texcoord(0, -500, 16), 8);
}

#[test]
fn texcoord_picks_the_larger_offset() {
    // |hit_y| > |hit_x|: the y offset chooses the column.
    assert_eq!(wall_x_texcoord(100, -250, 16), 12);
    // On a tie the x offset stays in charge.
    assert_eq!(wall_x_texcoord(250, -250, 16), 4);
}

#[test]
fn texcoord_always_in_tile_range() {
    for hx in [-500i64, -499, -250, -1, 0, 1, 250, 499] {
        for hy in [-500i64, -499, -250, -1, 0, 1, 250, 499] {
            let t = wall_x_texcoord(hx, hy, 16);
            assert!(t < 16, "texcoord {t} out of range for ({hx},{hy})");
        }
    }
}

#[test]
fn column_height_matches_exact_formula() {
    // A wall four cells away, viewed head on, spans a quarter of the screen
    // at a 512-row buffer... 512 / 4 = 128.
    assert_eq!(column_height(512, 4000, 1000), 128);
}

#[test]
fn column_height_never_grows_with_distance() {
    assert_eq!(column_height(512, 1000, 1000), 512);
    assert_eq!(column_height(512, 2000, 1000), 256);
    let mut prev = u64::MAX;
    for k in 1..30 {
        let ch = column_height(512, k * 500, 866);
        assert!(ch <= prev);
        prev = ch;
    }
}

#[test]
fn cast_ray_finds_the_first_wall() {
    let m = room_16();
    // From the room center straight toward +x: the wall column at x = 15
    // starts at 15.0 cells, reached after 700 steps of 0.01 from 8.0.
    assert_eq!(cast_ray(&m, 8000, 8000, 1000, 0), Some(700));
    // Starting inside a wall hits at once.
    assert_eq!(cast_ray(&m, 500, 500, 1000, 0), Some(0));
    // Outside the grid pointing away: the budget runs out.
    assert_eq!(cast_ray(&m, -5000, -5000, -1000, 0), None);
}

#[test]
fn render_center_of_room_projects_expected_slice() {
    let m = room_16();
    let t = two_tiles();
    let mut fb = FrameBuffer::new(2, 64, vec![0u32; 128]);
    // One ray, facing +x head on. The wall is 7.0 cells away, so the
    // projected slice height is 64 * 1000000 / (7000 * 1000) = 9, close to
    // framebuffer_height / d = 64 / 7.
    let cam = Camera {
        x: 8000,
        y: 8000,
        rays: vec![RayDir { dir_x: 1000, dir_y: 0, corr: 1000 }],
    };
    render(&mut fb, &m, &cam, &t);
    assert_eq!(column_height(64, 7000, 1000), 9);
    let blue = pack_color(0, 0, 255, Some(255));
    // The slice occupies rows 28..37 of screen column 1, vertically
    // centered; all other right-half rows stay white.
    for y in 0..64usize {
        let px = fb.image[1 + y * 2];
        if (28..37).contains(&y) {
            assert_eq!(px, blue, "row {y} should be wall");
        } else {
            assert_eq!(px, pack_color(255, 255, 255, None), "row {y} should be background");
        }
    }
}

#[test]
fn render_twice_is_byte_identical() {
    let m = room_16();
    let t = two_tiles();
    let cam = Camera {
        x: 8250,
        y: 8750,
        rays: vec![
            RayDir { dir_x: 1000, dir_y: 0, corr: 1000 },
            RayDir { dir_x: 866, dir_y: 500, corr: 866 },
            RayDir { dir_x: -707, dir_y: 707, corr: 940 },
            RayDir { dir_x: 0, dir_y: -1000, corr: 1000 },
        ],
    };
    let mut fb1 = FrameBuffer::new(8, 32, vec![0u32; 256]);
    let mut fb2 = FrameBuffer::new(8, 32, vec![9u32; 256]);
    render(&mut fb1, &m, &cam, &t);
    render(&mut fb2, &m, &cam, &t);
    assert_eq!(fb1.image, fb2.image);
}

#[test]
fn render_survives_boundary_camera_and_flat_correction() {
    let m = room_16();
    let t = two_tiles();
    // Camera exactly on a cell boundary; one ray with a fisheye correction
    // rounded all the way to zero, as a field of view near a half turn
    // produces: the frame must still render, without a wall slice.
    let cam = Camera {
        x: 2000,
        y: 3000,
        rays: vec![
            RayDir { dir_x: 0, dir_y: 1000, corr: 0 },
            RayDir { dir_x: -1000, dir_y: 0, corr: 1 },
        ],
    };
    let mut fb = FrameBuffer::new(4, 16, vec![0u32; 64]);
    render(&mut fb, &m, &cam, &t);
    assert_eq!(fb.image.len(), 64);
}

#[test]
fn render_outside_camera_draws_no_walls() {
    let m = room_16();
    let t = two_tiles();
    let cam = Camera {
        x: -20000,
        y: -20000,
        rays: vec![RayDir { dir_x: -1000, dir_y: 0, corr: 1000 }],
    };
    let mut fb = FrameBuffer::new(2, 8, vec![0u32; 16]);
    render(&mut fb, &m, &cam, &t);
    let white = pack_color(255, 255, 255, None);
    // Right half: no slice was drawn anywhere.
    for y in 0..8usize {
        assert_eq!(fb.image[1 + y * 2], white);
    }
}

#[test]
fn ppm_bytes_of_red_square_is_exact() {
    let red = pack_color(255, 0, 0, None);
    let image = vec![red; 4];
    let bytes = ppm_bytes(&image, 2, 2);
    let mut expected: Vec<u8> = b"P6\n2 2\n255\n".to_vec();
    for _ in 0..4 {
        expected.extend_from_slice(&[255, 0, 0]);
    }
    assert_eq!(bytes, expected);
}

#[test]
fn ppm_bytes_header_prints_multi_digit_dimensions() {
    let image = vec![0u32; 1024 * 2];
    let bytes = ppm_bytes(&image, 1024, 2);
    assert!(bytes.starts_with(b"P6\n1024 2\n255\n"));
    assert_eq!(bytes.len(), b"P6\n1024 2\n255\n".len() + 3 * 2048);
}

#[test]
fn render_classic_layout_paints_minimap_path_and_slice() {
    let layout = "0000222222220000\
                  1              0\
                  1      11111   0\
                  1     0        0\
                  0     0  1110000\
                  0     3        0\
                  0   10000      0\
                  0   3   11100  0\
                  5   4   0      0\
                  5   4   1  00000\
                  0       1      0\
                  2       1      0\
                  0       0      0\
                  0 0000000      0\
                  0              0\
                  0002222222200000";
    let m = GridMap::new(16, 16, layout).unwrap();
    // Six 1x1 tiles with distinct recognizable colors.
    let mut pix: Vec<u8> = Vec::new();
    for c in 0..6u8 {
        pix.extend_from_slice(&[10 + c, 20 + c, 30 + c, 255]);
    }
    let t = Texture::from_rgba(6, 1, &pix).unwrap();
    let tile0 = pack_color(10, 20, 30, Some(255));
    // All 32 rays point straight down the grid (+y), head on.
    let cam = Camera {
        x: 3456,
        y: 2345,
        rays: vec![RayDir { dir_x: 0, dir_y: 1000, corr: 1000 }; 32],
    };
    let mut fb = FrameBuffer::new(64, 32, vec![0u32; 64 * 32]);
    render(&mut fb, &m, &cam, &t);
    // Minimap: cell (15, 15) holds wall type 0 and its 2x2 tile starts at
    // pixel (30, 30), untouched by any ray trace.
    assert_eq!(fb.image[30 + 30 * 64], tile0);
    // The traced rays run down minimap column 6.
    assert_eq!(fb.image[6 + 10 * 64], pack_color(160, 160, 160, None));
    // Each ray hits the wall at (3, 13), 10.66 cells away: the slice spans
    // rows 15..18 of its right-half column and samples tile 0.
    assert_eq!(fb.image[40 + 16 * 64], tile0);
    assert_eq!(fb.image[40 + 14 * 64], pack_color(255, 255, 255, None));
}
