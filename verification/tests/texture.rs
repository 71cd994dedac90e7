use soft_renderer::texture::Texture;

#[test]
fn test_new() {
    let texture = Texture::new(100, 100);
    assert_eq!(texture.width(), 100);
    assert_eq!(texture.height(), 100);
}

#[test]
fn test_set_get_pixel() {
    let mut texture = Texture::new(10, 10);
    texture.set_pixel(5, 5, 255, 128, 64, 255);
    let pixel = texture.get_pixel(5, 5).unwrap();
    assert_eq!(pixel, (255, 128, 64, 255));
}

#[test]
fn test_get_pixel_out_of_bounds() {
    let texture = Texture::new(10, 10);
    assert!(texture.get_pixel(10, 10).is_none());
    assert!(texture.get_pixel(100, 100).is_none());
}

#[test]
fn test_get_pixel_clamped() {
    let mut texture = Texture::new(10, 10);
    texture.set_pixel(9, 9, 255, 0, 0, 255);
    let pixel = texture.get_pixel_clamped(15, 15);
    assert_eq!(pixel, (255, 0, 0, 255));
}

#[test]
fn test_get_pixel_wrapped() {
    let mut texture = Texture::new(10, 10);
    texture.set_pixel(0, 0, 255, 0, 0, 255);
    let pixel = texture.get_pixel_wrapped(10, 10);
    assert_eq!(pixel, (255, 0, 0, 255));
}

#[test]
fn new_texture_is_blank_and_sized() {
    let texture = Texture::new(3, 2);
    assert_eq!(texture.get_raw_pixels().len(), 24);
    assert!(texture.get_raw_pixels().iter().all(|&b| b == 0));
    assert_eq!(texture.get_pixel(2, 1), Some((0, 0, 0, 0)));
}

#[test]
fn set_pixel_writes_row_major_rgba_bytes() {
    let mut texture = Texture::new(3, 2);
    texture.set_pixel(1, 1, 1, 2, 3, 4);
    // pixel (1, 1) starts at byte (1 * 3 + 1) * 4 = 16
    assert_eq!(&texture.get_raw_pixels()[16..20], &[1, 2, 3, 4]);
    assert_eq!(texture.get_pixel(0, 1), Some((0, 0, 0, 0)));
    assert_eq!(texture.get_pixel(2, 1), Some((0, 0, 0, 0)));
}

#[test]
fn set_pixel_outside_changes_nothing() {
    let mut texture = Texture::new(4, 4);
    texture.set_pixel(4, 0, 9, 9, 9, 9);
    texture.set_pixel(0, 4, 9, 9, 9, 9);
    assert!(texture.get_raw_pixels().iter().all(|&b| b == 0));
}

#[test]
fn get_pixel_outside_width_only() {
    let texture = Texture::new(4, 2);
    assert_eq!(texture.get_pixel(4, 0), None);
    assert_eq!(texture.get_pixel(0, 2), None);
    assert_eq!(texture.get_pixel(3, 1), Some((0, 0, 0, 0)));
}

#[test]
fn clamped_negative_coordinates_read_the_corner() {
    let mut texture = Texture::new(4, 3);
    texture.set_pixel(0, 0, 7, 8, 9, 10);
    texture.set_pixel(3, 0, 1, 1, 1, 1);
    assert_eq!(texture.get_pixel_clamped(-5, -1), (7, 8, 9, 10));
    assert_eq!(texture.get_pixel_clamped(100, -3), (1, 1, 1, 1));
    assert_eq!(texture.get_pixel_clamped(3, 0), (1, 1, 1, 1));
}

#[test]
fn wrapped_negative_coordinates_wrap_around() {
    let mut texture = Texture::new(4, 3);
    texture.set_pixel(3, 2, 5, 6, 7, 8);
    assert_eq!(texture.get_pixel_wrapped(-1, -1), (5, 6, 7, 8));
    assert_eq!(texture.get_pixel_wrapped(-5, 5), (5, 6, 7, 8));
    assert_eq!(texture.get_pixel_wrapped(7, -4), (5, 6, 7, 8));
    assert_eq!(texture.get_pixel_wrapped(0, 0), (0, 0, 0, 0));
}

#[test]
fn raw_pixels_mut_writes_through() {
    let mut texture = Texture::new(2, 2);
    {
        let raw = texture.get_raw_pixels_mut();
        raw[4] = 11;
        raw[5] = 12;
        raw[6] = 13;
        raw[7] = 14;
    }
    assert_eq!(texture.get_pixel(1, 0), Some((11, 12, 13, 14)));
    assert_eq!(texture.width(), 2);
}

#[test]
fn from_dynamic_image_converts_to_rgba8() {
    let mut rgb = image::RgbImage::new(2, 3);
    rgb.put_pixel(1, 2, image::Rgb([10, 20, 30]));
    let img = image::DynamicImage::ImageRgb8(rgb);
    let texture = Texture::from_dynamic_image(img).unwrap();
    assert_eq!(texture.width(), 2);
    assert_eq!(texture.height(), 3);
    assert_eq!(texture.get_raw_pixels().len(), 24);
    assert_eq!(texture.get_pixel(1, 2), Some((10, 20, 30, 255)));
    assert_eq!(texture.get_pixel(0, 0), Some((0, 0, 0, 255)));
}

#[test]
fn offsets_of_a_new_texture_fit() {
    let texture = Texture::new(16, 8);
    assert!(texture.offset_fits(15, 7));
    assert!(texture.offset_fits(16, 0));
    assert!(texture.offset_fits(u32::MAX, u32::MAX));
}

#[test]
fn from_raw_keeps_size_and_bytes() {
    let texture = Texture::from_raw(2, 1, vec![1, 2, 3, 4, 5, 6, 7, 8]);
    assert_eq!(texture.width(), 2);
    assert_eq!(texture.height(), 1);
    assert_eq!(texture.get_raw_pixels(), &[1, 2, 3, 4, 5, 6, 7, 8]);
    assert_eq!(texture.get_pixel(1, 0), Some((5, 6, 7, 8)));
}
