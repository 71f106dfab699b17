use raycaster::texture::{Texture, TextureError};
use raycaster::utils::pack_color;

fn two_tile_rgba() -> (u32, u32, Vec<u8>) {
    // Two 1x1 tiles packed side by side: red, then green.
    (2, 1, vec![255, 0, 0, 255, 0, 255, 0, 255])
}

#[test]
fn from_rgba_packs_colors_red_in_low_byte() {
    let (w, h, pix) = two_tile_rgba();
    let t = Texture::from_rgba(w, h, &pix).unwrap();
    assert_eq!(t.count, 2);
    assert_eq!(t.size, 1);
    assert_eq!(t.get(0, 0, 0), Some(pack_color(255, 0, 0, Some(255))));
    assert_eq!(t.get(0, 0, 1), Some(pack_color(0, 255, 0, Some(255))));
}

#[test]
fn from_rgba_rejects_uneven_packing() {
    assert_eq!(
        Texture::from_rgba(3, 2, &vec![0u8; 24]).unwrap_err(),
        TextureError::BadPacking
    );
    assert_eq!(
        Texture::from_rgba(0, 0, &vec![]).unwrap_err(),
        TextureError::BadPacking
    );
}

#[test]
fn from_rgba_rejects_oversized_atlas() {
    // 129 one-pixel tiles exceed the accepted tile count.
    assert_eq!(
        Texture::from_rgba(129, 1, &vec![0u8; 4 * 129]).unwrap_err(),
        TextureError::TooLarge
    );
}

#[test]
fn get_out_of_range_is_none() {
    let (w, h, pix) = two_tile_rgba();
    let t = Texture::from_rgba(w, h, &pix).unwrap();
    assert_eq!(t.get(0, 0, 5), None);
    assert_eq!(t.get(9, 0, 0), None);
}

#[test]
fn get_scaled_column_repeats_single_row() {
    let (w, h, pix) = two_tile_rgba();
    let t = Texture::from_rgba(w, h, &pix).unwrap();
    let red = pack_color(255, 0, 0, Some(255));
    assert_eq!(t.get_scaled_column(0, 0, 4), Some(vec![red; 4]));
    assert_eq!(t.get_scaled_column(0, 0, 0), Some(vec![]));
    assert_eq!(t.get_scaled_column(0, 9, 4), None);
}

#[test]
fn get_scaled_column_rescales_rows() {
    // One 2x2 tile: top row blue, bottom row white.
    let pix: Vec<u8> = vec![
        0, 0, 255, 255, 0, 0, 255, 255, // row 0
        255, 255, 255, 255, 255, 255, 255, 255, // row 1
    ];
    let t = Texture::from_rgba(2, 2, &pix).unwrap();
    let blue = pack_color(0, 0, 255, Some(255));
    let white = pack_color(255, 255, 255, Some(255));
    // Four output rows sample tile rows 0, 0, 1, 1.
    assert_eq!(
        t.get_scaled_column(0, 0, 4),
        Some(vec![blue, blue, white, white])
    );
}

#[test]
fn new_decodes_an_encoded_atlas() {
    let (w, h, pix) = two_tile_rgba();
    let img: image::RgbaImage = image::ImageBuffer::from_raw(w, h, pix).unwrap();
    let mut bytes: Vec<u8> = Vec::new();
    img.write_to(
        &mut std::io::Cursor::new(&mut bytes),
        image::ImageFormat::Png,
    )
    .unwrap();
    let t = Texture::new(&bytes).unwrap();
    assert_eq!(t.count, 2);
    assert_eq!(t.size, 1);
    assert_eq!(t.get(0, 0, 0), Some(pack_color(255, 0, 0, Some(255))));
    assert_eq!(t.get(0, 0, 1), Some(pack_color(0, 255, 0, Some(255))));
}

#[test]
fn new_rejects_undecodable_bytes() {
    assert_eq!(
        Texture::new(&[1, 2, 3, 4]).unwrap_err(),
        TextureError::Decode
    );
}

#[test]
fn new_rejects_tall_image() {
    // A 1x2 image is not a row of square tiles.
    let img: image::RgbaImage = image::ImageBuffer::from_raw(1, 2, vec![0u8; 8]).unwrap();
    let mut bytes: Vec<u8> = Vec::new();
    img.write_to(
        &mut std::io::Cursor::new(&mut bytes),
        image::ImageFormat::Png,
    )
    .unwrap();
    assert_eq!(Texture::new(&bytes).unwrap_err(), TextureError::BadPacking);
}
