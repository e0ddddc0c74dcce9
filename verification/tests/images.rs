use neo_granseal::images::{decode_image, image_texture_id, white_image, DecodedImage};
use neo_granseal::managers::TextureManager;
use std::io::Cursor;

fn png_bytes(width: u32, height: u32, pixels: Vec<u8>) -> Vec<u8> {
    let img = image::RgbaImage::from_raw(width, height, pixels).unwrap();
    let mut out = Vec::new();
    image::DynamicImage::ImageRgba8(img)
        .write_to(&mut Cursor::new(&mut out), image::ImageOutputFormat::Png)
        .unwrap();
    out
}

#[test]
fn png_bytes_decode_to_their_rgba_pixels() {
    let data = png_bytes(2, 1, vec![1, 2, 3, 4, 5, 6, 7, 8]);
    let img = decode_image(&data).ok().unwrap();
    assert_eq!((img.width, img.height), (2, 1));
    assert_eq!(img.pixels, vec![1, 2, 3, 4, 5, 6, 7, 8]);
}

#[test]
fn bytes_that_are_no_image_fail_to_decode() {
    assert!(decode_image(b"not an image").is_err());
    assert!(decode_image(b"").is_err());
}

#[test]
fn white_image_is_opaque_white() {
    let img = white_image(2, 3);
    assert_eq!((img.width, img.height), (2, 3));
    assert_eq!(img.pixels, vec![255u8; 24]);
    assert!(white_image(0, 5).pixels.is_empty());
}

#[test]
fn atlas_wins_over_own_texture() {
    assert_eq!(image_texture_id(3, Some(7)), Some(7));
    assert_eq!(image_texture_id(3, None), Some(3));
}

#[test]
fn texture_from_bytes_is_added_only_when_they_decode() {
    let mut textures: TextureManager<(u32, u32)> = TextureManager::new();
    let mut uploads = 0;
    assert!(textures
        .add_texture_data(b"garbage", |img: DecodedImage| {
            uploads += 1;
            (img.width, img.height)
        })
        .is_none());
    assert_eq!(uploads, 0);
    assert_eq!(textures.len(), 0);
    let data = png_bytes(1, 2, vec![9; 8]);
    assert!(textures
        .add_texture_data(&data, |img: DecodedImage| (img.width, img.height))
        .is_none());
    assert_eq!(textures.len(), 1);
}
