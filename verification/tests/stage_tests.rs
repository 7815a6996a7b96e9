use math_images_processor::config::ImageProcessorConfig;
use math_images_processor::contrast::enhance_contrast;
use math_images_processor::crop::{crop_white_borders, find_content_box, BoundingBox};
use math_images_processor::error::PreprocessError;
use math_images_processor::gray::Image;
use math_images_processor::polarity::{invert_colors, is_inverted, normalize_polarity};

fn filled(width: u32, height: u32, l: u8) -> Image {
    Image { width, height, pixels: vec![l; (width as usize) * (height as usize)] }
}

fn put(img: &mut Image, x: u32, y: u32, l: u8) {
    let w = img.width as usize;
    img.pixels[(y as usize) * w + (x as usize)] = l;
}

fn at(img: &Image, x: u32, y: u32) -> u8 {
    let w = img.width as usize;
    img.pixels[(y as usize) * w + (x as usize)]
}

#[test]
fn default_config_values() {
    let c = ImageProcessorConfig::default();
    assert_eq!(c.width, 300);
    assert_eq!(c.height, 100);
    assert_eq!(c.border, 5);
}

#[test]
fn classifier_inverted_when_dark_dominates() {
    // three dark samples against one light: 3 > 2 * 1
    let img = Image { width: 4, height: 1, pixels: vec![10, 20, 30, 255] };
    assert!(is_inverted(&img));
}

#[test]
fn classifier_boundary_exactly_double_is_normal() {
    // two dark samples against one light: 2 > 2 * 1 fails
    let img = Image { width: 3, height: 1, pixels: vec![10, 20, 255] };
    assert!(!is_inverted(&img));
}

#[test]
fn classifier_all_midtone_is_normal() {
    let img = filled(6, 4, 150);
    assert!(!is_inverted(&img));
}

#[test]
fn classifier_ignores_midband_samples() {
    // one dark, one light, many mid-band: 1 > 2 * 1 fails
    let mut img = filled(5, 1, 150);
    put(&mut img, 0, 0, 0);
    put(&mut img, 4, 0, 255);
    assert!(!is_inverted(&img));
}

#[test]
fn invert_colors_exact_values() {
    let img = Image { width: 4, height: 1, pixels: vec![0, 100, 200, 255] };
    let inv = invert_colors(&img);
    assert_eq!(inv.pixels, vec![255, 155, 55, 0]);
}

#[test]
fn invert_twice_restores_original() {
    let img = Image { width: 3, height: 2, pixels: vec![0, 17, 99, 128, 200, 255] };
    let back = invert_colors(&invert_colors(&img));
    assert_eq!(back.pixels, img.pixels);
    assert_eq!(back.width, img.width);
    assert_eq!(back.height, img.height);
}

#[test]
fn normalize_keeps_normal_image() {
    // dark ink on white: light samples dominate
    let mut img = filled(4, 4, 255);
    put(&mut img, 1, 1, 0);
    let pixels_before = img.pixels.clone();
    let out = normalize_polarity(img);
    assert_eq!(out.pixels, pixels_before);
}

#[test]
fn normalize_inverts_dark_background_image() {
    // light ink on black: dark samples dominate
    let mut img = filled(4, 4, 0);
    put(&mut img, 2, 2, 255);
    let out = normalize_polarity(img);
    assert_eq!(at(&out, 2, 2), 0);
    assert_eq!(at(&out, 0, 0), 255);
}

#[test]
fn enhance_exact_values() {
    let img = Image { width: 5, height: 1, pixels: vec![40, 200, 201, 255, 0] };
    let out = enhance_contrast(&img);
    assert_eq!(out.pixels, vec![20, 100, 255, 255, 0]);
}

#[test]
fn enhance_reapplication_halves_again() {
    // a mid-tone sample keeps halving: 40 -> 20 -> 10
    let img = Image { width: 1, height: 1, pixels: vec![40] };
    let once = enhance_contrast(&img);
    assert_eq!(once.pixels, vec![20]);
    let twice = enhance_contrast(&once);
    assert_eq!(twice.pixels, vec![10]);
}

#[test]
fn enhance_idempotent_on_settled_samples() {
    // every sample above the light threshold or at most 1
    let img = Image { width: 6, height: 1, pixels: vec![255, 201, 0, 1, 240, 255] };
    let once = enhance_contrast(&img);
    let twice = enhance_contrast(&once);
    assert_eq!(twice.pixels, once.pixels);
}

#[test]
fn crop_single_pixel_box() {
    // a lone ink pixel yields a one-pixel box
    let mut img = filled(10, 8, 255);
    put(&mut img, 3, 4, 0);
    let b = find_content_box(&img);
    assert_eq!(b, Some(BoundingBox { left: 3, top: 4, right: 3, bottom: 4 }));
    let out = crop_white_borders(&img).unwrap();
    assert_eq!(out.width, 1);
    assert_eq!(out.height, 1);
    assert_eq!(out.pixels, vec![0]);
}

#[test]
fn crop_all_background_fails_empty_content() {
    let img = filled(12, 7, 255);
    assert_eq!(find_content_box(&img), None);
    match crop_white_borders(&img) {
        Err(PreprocessError::EmptyContent) => {},
        other => panic!("expected EmptyContent, got {:?}", other.map(|i| (i.width, i.height))),
    }
}

#[test]
fn crop_two_pixels_spans_box() {
    let mut img = filled(8, 9, 255);
    put(&mut img, 1, 2, 0);
    put(&mut img, 5, 6, 0);
    let b = find_content_box(&img).unwrap();
    assert_eq!(b, BoundingBox { left: 1, top: 2, right: 5, bottom: 6 });
    let out = crop_white_borders(&img).unwrap();
    assert_eq!(out.width, 5);
    assert_eq!(out.height, 5);
    assert_eq!(at(&out, 0, 0), 0);
    assert_eq!(at(&out, 4, 4), 0);
    assert_eq!(at(&out, 2, 2), 255);
}

#[test]
fn crop_threshold_boundary() {
    // 249 is content, 250 is background
    let mut img = filled(5, 5, 250);
    put(&mut img, 2, 3, 249);
    let b = find_content_box(&img).unwrap();
    assert_eq!(b, BoundingBox { left: 2, top: 3, right: 2, bottom: 3 });
}
