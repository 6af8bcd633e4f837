use innovus::image::{decode_image, image_from_decoded, Image, ImageAtlas, ImageAtlasFlow};

fn solid(width: u32, height: u32, value: u8) -> Image {
    Image::from_rgba8(width, height, vec![value; (width * height * 4) as usize]).unwrap()
}

fn pixel(atlas: &ImageAtlas, x: u32, y: u32) -> [u8; 4] {
    let w = atlas.width() as usize;
    let i = (y as usize * w + x as usize) * 4;
    let d = atlas.data();
    [d[i], d[i + 1], d[i + 2], d[i + 3]]
}

#[test]
fn image_new_is_zeroed() {
    let image = Image::new(3, 2);
    assert_eq!(image.width(), 3);
    assert_eq!(image.height(), 2);
    assert_eq!(image.data().len(), 24);
    assert!(image.data().iter().all(|&b| b == 0));
}

#[test]
fn image_from_rgba8_checks_length() {
    assert!(Image::from_rgba8(2, 2, vec![0; 16]).is_some());
    assert!(Image::from_rgba8(2, 2, vec![0; 15]).is_none());
    assert!(Image::from_rgba8(0, 5, vec![]).is_some());
}

#[test]
fn atlas_top_to_bottom_stacks_images() {
    let mut atlas = ImageAtlas::new(ImageAtlasFlow::default());
    assert_eq!(atlas.width(), 0);
    let a = atlas.add_image(&solid(2, 2, 7));
    assert_eq!(a, (0, 0));
    let b = atlas.add_image(&solid(3, 1, 9));
    assert_eq!(b, (0, 2));
    assert_eq!(atlas.width(), 3);
    assert_eq!(atlas.height(), 3);
    assert_eq!(pixel(&atlas, 0, 0), [7; 4]);
    assert_eq!(pixel(&atlas, 1, 1), [7; 4]);
    assert_eq!(pixel(&atlas, 2, 0), [0; 4]);
    assert_eq!(pixel(&atlas, 2, 1), [0; 4]);
    assert_eq!(pixel(&atlas, 2, 2), [9; 4]);
    assert_eq!(atlas.data().len(), 3 * 3 * 4);
}

#[test]
fn atlas_left_to_right_places_side_by_side() {
    let mut atlas = ImageAtlas::new(ImageAtlasFlow::LeftToRight);
    let a = atlas.add_image(&solid(1, 2, 1));
    let b = atlas.add_image(&solid(2, 1, 2));
    assert_eq!(a, (0, 0));
    assert_eq!(b, (1, 0));
    assert_eq!(atlas.width(), 3);
    assert_eq!(atlas.height(), 2);
    assert_eq!(pixel(&atlas, 0, 1), [1; 4]);
    assert_eq!(pixel(&atlas, 2, 0), [2; 4]);
    assert_eq!(pixel(&atlas, 2, 1), [0; 4]);
    atlas.next_flow();
    let c = atlas.add_image(&solid(1, 1, 3));
    assert_eq!(c, (0, 2));
    assert_eq!(atlas.height(), 3);
    assert_eq!(pixel(&atlas, 0, 2), [3; 4]);
    assert_eq!(pixel(&atlas, 1, 2), [0; 4]);
}

#[test]
fn atlas_next_flow_top_to_bottom_starts_new_column() {
    let mut atlas = ImageAtlas::new(ImageAtlasFlow::TopToBottom);
    atlas.add_image(&solid(2, 2, 5));
    atlas.next_flow();
    let p = atlas.add_image(&solid(1, 3, 6));
    assert_eq!(p, (2, 0));
    assert_eq!(atlas.width(), 3);
    assert_eq!(atlas.height(), 3);
    assert_eq!(pixel(&atlas, 0, 2), [0; 4]);
    assert_eq!(pixel(&atlas, 2, 2), [6; 4]);
    assert_eq!(pixel(&atlas, 1, 1), [5; 4]);
    assert_eq!(atlas.image().width(), 3);
}

#[test]
fn atlas_keeps_pixel_channels_in_order() {
    let image = Image::from_rgba8(1, 1, vec![1, 2, 3, 4]).unwrap();
    let mut atlas = ImageAtlas::new(ImageAtlasFlow::LeftToRight);
    atlas.add_image(&image);
    atlas.add_image(&image);
    assert_eq!(atlas.data(), &[1, 2, 3, 4, 1, 2, 3, 4]);
}

#[test]
fn atlas_earlier_images_survive_later_placements() {
    let mut atlas = ImageAtlas::new(ImageAtlasFlow::LeftToRight);
    let a = atlas.add_image(&solid(2, 2, 1));
    let b = atlas.add_image(&solid(1, 3, 2));
    atlas.next_flow();
    let c = atlas.add_image(&solid(3, 1, 3));
    let d = atlas.add_image(&solid(1, 1, 4));
    assert_eq!(a, (0, 0));
    assert_eq!(b, (2, 0));
    assert_eq!(c, (0, 3));
    assert_eq!(d, (3, 3));
    assert_eq!(atlas.width(), 4);
    assert_eq!(atlas.height(), 4);
    assert_eq!(pixel(&atlas, 1, 1), [1; 4]);
    assert_eq!(pixel(&atlas, 2, 2), [2; 4]);
    assert_eq!(pixel(&atlas, 2, 3), [3; 4]);
    assert_eq!(pixel(&atlas, 3, 3), [4; 4]);
    assert_eq!(pixel(&atlas, 0, 2), [0; 4]);
}

fn encode_png(width: u32, height: u32, data: Vec<u8>) -> Vec<u8> {
    let buffer = image::RgbaImage::from_raw(width, height, data).unwrap();
    let mut bytes = std::io::Cursor::new(Vec::new());
    buffer.write_to(&mut bytes, image::ImageFormat::Png).unwrap();
    bytes.into_inner()
}

#[test]
fn decode_image_reads_png_pixels() {
    let pixels = vec![255, 0, 0, 255, 0, 255, 0, 128, 0, 0, 255, 0, 9, 8, 7, 6, 1, 2, 3, 4, 5, 6, 7, 8];
    let png = encode_png(3, 2, pixels.clone());
    let image = decode_image(&png).unwrap();
    assert_eq!(image.width(), 3);
    assert_eq!(image.height(), 2);
    assert_eq!(image.data(), &pixels[..]);
}

#[test]
fn decode_image_reports_decoder_errors() {
    let err = decode_image(&[1, 2, 3, 4]).err().unwrap();
    assert!(!err.is_empty());
    let mut png = encode_png(1, 1, vec![1, 2, 3, 4]);
    png.truncate(png.len() / 2);
    assert!(decode_image(&png).is_err());
}

#[test]
fn image_from_decoded_checks_pixel_count() {
    let image = image_from_decoded(Ok((1, 2, vec![0; 8]))).unwrap();
    assert_eq!((image.width(), image.height()), (1, 2));
    assert_eq!(
        image_from_decoded(Ok((2, 2, vec![0; 8]))).err(),
        Some("decoded image has an unexpected pixel count".to_string())
    );
    assert_eq!(image_from_decoded(Err("bad".to_string())).err(), Some("bad".to_string()));
}
