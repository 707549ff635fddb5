use std::io::Cursor;

use renderer::render::img_texture::{bytes_per_row, decode_image, texture_size_of_image};

fn png(width: u32, height: u32) -> Vec<u8> {
    let mut img = image::RgbaImage::new(width, height);
    img.put_pixel(1, 0, image::Rgba([10, 20, 30, 255]));
    let mut out = Cursor::new(Vec::new());
    img.write_to(&mut out, image::ImageOutputFormat::Png).unwrap();
    out.into_inner()
}

#[test]
fn a_png_decodes_to_rgba_rows() {
    let bytes = png(3, 2);
    let img = decode_image(&bytes).unwrap();
    assert_eq!((img.width, img.height), (3, 2));
    assert_eq!(img.rgba.len(), 24);
    assert_eq!(&img.rgba[4..8], &[10, 20, 30, 255]);
    let size = texture_size_of_image(&img);
    assert_eq!((size.width, size.height, size.depth_or_array_layers), (3, 2, 1));
    assert_eq!(bytes_per_row(&img), 12);
}

#[test]
fn bytes_that_are_no_image_decode_to_nothing() {
    assert!(decode_image(b"not an image").is_none());
    assert!(decode_image(&[]).is_none());
}
