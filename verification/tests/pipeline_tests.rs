use math_images_processor::canvas::fit_into_canvas;
use math_images_processor::config::ImageProcessorConfig;
use math_images_processor::error::PreprocessError;
use math_images_processor::gray::Image;
use math_images_processor::pipeline::preprocess_image;

fn filled(width: u32, height: u32, l: u8) -> Image {
    Image { width, height, pixels: vec![l; (width as usize) * (height as usize)] }
}

fn at(img: &Image, x: u32, y: u32) -> u8 {
    let w = img.width as usize;
    img.pixels[(y as usize) * w + (x as usize)]
}

#[test]
fn fit_dimensions_and_background() {
    // 100 by 50 content in a 300 by 100 canvas with border 5: the interior
    // is 290 by 90, the scale is min(2.9, 1.8) = 1.8, the pasted region is
    // 180 by 90 and starts at (60, 5)
    let img = filled(100, 50, 0);
    let out = fit_into_canvas(&img, 300, 100, 5).unwrap();
    assert_eq!(out.width, 300);
    assert_eq!(out.height, 100);
    assert_eq!(out.pixels.len(), 300 * 100);
    for y in 0..100u32 {
        for x in 0..300u32 {
            let inside = (60..240).contains(&x) && (5..95).contains(&y);
            if !inside {
                assert_eq!(at(&out, x, y), 255, "expected background at ({}, {})", x, y);
            }
        }
    }
    // the pasted region really holds the scaled dark content
    assert_eq!(at(&out, 150, 50), 0);
}

#[test]
fn fit_fails_when_border_eats_width() {
    let img = filled(10, 10, 0);
    assert_eq!(fit_into_canvas(&img, 300, 100, 150).err(), Some(PreprocessError::InvalidDimensions));
}

#[test]
fn fit_fails_when_border_eats_height() {
    let img = filled(10, 10, 0);
    assert_eq!(fit_into_canvas(&img, 300, 100, 50).err(), Some(PreprocessError::InvalidDimensions));
}

#[test]
fn fit_fails_on_zero_sized_source() {
    let img = Image { width: 0, height: 0, pixels: vec![] };
    assert_eq!(fit_into_canvas(&img, 300, 100, 5).err(), Some(PreprocessError::InvalidDimensions));
}

#[test]
fn fit_keeps_aspect_ratio_width_bound() {
    // 290 by 10 content: scale = min(1.0, 9.0) = 1.0, pasted region 290 by 10
    // starting at (5, 45)
    let img = filled(290, 10, 0);
    let out = fit_into_canvas(&img, 300, 100, 5).unwrap();
    assert_eq!(out.width, 300);
    assert_eq!(out.height, 100);
    assert_eq!(at(&out, 150, 50), 0);
    assert_eq!(at(&out, 150, 40), 255);
    assert_eq!(at(&out, 150, 60), 255);
    assert_eq!(at(&out, 4, 50), 255);
}

#[test]
fn preprocess_round_trip_within_border() {
    // dark ink on white, 50 by 20, default configuration: the output is
    // 300 by 100 and all ink stays inside the border
    let mut img = filled(50, 20, 255);
    for y in 5..15u32 {
        for x in 10..40u32 {
            img.pixels[(y as usize) * 50 + (x as usize)] = 0;
        }
    }
    let config = ImageProcessorConfig::default();
    let out = preprocess_image(img, &config).unwrap();
    assert_eq!(out.width, 300);
    assert_eq!(out.height, 100);
    for y in 0..100u32 {
        for x in 0..300u32 {
            if at(&out, x, y) < 255 {
                assert!(
                    (5..=295).contains(&x) && (5..=95).contains(&y),
                    "ink outside the border at ({}, {})",
                    x,
                    y
                );
            }
        }
    }
    // some ink must be present at all
    let has_ink = out.pixels.iter().any(|&l| l < 255);
    assert!(has_ink);
}

#[test]
fn preprocess_blank_image_fails_empty_content() {
    let img = filled(50, 20, 255);
    let config = ImageProcessorConfig::default();
    match preprocess_image(img, &config) {
        Err(PreprocessError::EmptyContent) => {},
        other => panic!("expected EmptyContent, got {:?}", other.map(|i| (i.width, i.height))),
    }
}

#[test]
fn preprocess_bad_config_fails_invalid_dimensions() {
    let mut img = filled(50, 20, 255);
    img.pixels[0] = 0;
    let config = ImageProcessorConfig { width: 10, height: 100, border: 5 };
    match preprocess_image(img, &config) {
        Err(PreprocessError::InvalidDimensions) => {},
        other => panic!("expected InvalidDimensions, got {:?}", other.map(|i| (i.width, i.height))),
    }
}

#[test]
fn preprocess_corrects_inverted_input() {
    // white ink on black: the classifier flags it and the pipeline flips it
    let mut img = filled(50, 20, 0);
    for y in 5..15u32 {
        for x in 10..40u32 {
            img.pixels[(y as usize) * 50 + (x as usize)] = 255;
        }
    }
    let config = ImageProcessorConfig::default();
    let out = preprocess_image(img, &config).unwrap();
    assert_eq!(out.width, 300);
    assert_eq!(out.height, 100);
    // corners of the canvas are background white, not black
    assert_eq!(at(&out, 0, 0), 255);
    assert_eq!(at(&out, 299, 99), 255);
}

#[test]
fn fit_single_pixel_source() {
    // a 1 by 1 source in a 290 by 90 interior: scale 90, pasted region
    // 90 by 90 starting at (105, 5)
    let img = filled(1, 1, 0);
    let out = fit_into_canvas(&img, 300, 100, 5).unwrap();
    assert_eq!(out.width, 300);
    assert_eq!(out.height, 100);
    assert_eq!(at(&out, 150, 50), 0);
    assert_eq!(at(&out, 104, 50), 255);
    assert_eq!(at(&out, 195, 50), 255);
}

#[test]
fn preprocess_blank_image_reports_empty_before_bad_config() {
    // cropping runs before compositing, so a blank image wins over a
    // broken configuration
    let img = filled(20, 20, 255);
    let config = ImageProcessorConfig { width: 10, height: 100, border: 5 };
    match preprocess_image(img, &config) {
        Err(PreprocessError::EmptyContent) => {},
        other => panic!("expected EmptyContent, got {:?}", other.map(|i| (i.width, i.height))),
    }
}

#[test]
fn preprocess_mid_gray_ink_is_kept_as_content() {
    // a mid-gray stroke halves to a dark value and is cropped, not dropped
    let mut img = filled(30, 30, 255);
    img.pixels[15 * 30 + 15] = 100;
    let config = ImageProcessorConfig::default();
    let out = preprocess_image(img, &config).unwrap();
    assert_eq!(out.width, 300);
    assert_eq!(out.height, 100);
    let has_ink = out.pixels.iter().any(|&l| l < 255);
    assert!(has_ink);
}
