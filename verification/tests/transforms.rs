use txtool::error::{FailureScope, ToolError};
use txtool::menu::ToolKind;
use txtool::raster::{Image, Pixel};
use txtool::tools::apply_opacity_mask::{apply_opacity_mask, get_new_pixel};
use txtool::tools::naive_crop::{crop_origin, naive_crop};
use txtool::tools::pixelate::{average_pixels, pixelate};
use txtool::batch::failure_scope;

fn uniform(width: u32, height: u32, p: Pixel) -> Image {
    let pixels = vec![p; (width * height) as usize];
    Image::from_pixels(width, height, pixels)
}

/// Every pixel encodes its own coordinates: red is the column, green the row.
fn coords(width: u32, height: u32) -> Image {
    let mut pixels = Vec::new();
    for y in 0..height {
        for x in 0..width {
            pixels.push(Pixel { r: x as u8, g: y as u8, b: 0, a: 255 });
        }
    }
    Image::from_pixels(width, height, pixels)
}

#[test]
fn pixelate_output_dimensions() {
    let img = uniform(12, 8, Pixel { r: 5, g: 6, b: 7, a: 8 });
    let out = pixelate(&img, 4).unwrap();
    assert_eq!(out.width(), 3);
    assert_eq!(out.height(), 2);
}

#[test]
fn pixelate_uniform_image_is_lossless() {
    let c = Pixel { r: 17, g: 200, b: 3, a: 255 };
    let img = uniform(8, 8, c);
    let out = pixelate(&img, 2).unwrap();
    for y in 0..4 {
        for x in 0..4 {
            assert_eq!(out.get_pixel(x, y), c);
        }
    }
}

#[test]
fn average_truncates_toward_zero() {
    // Channel values [1, 1, 1, 2] sum to 5 over 4 pixels: the mean is 1,
    // not 1.25 rounded up.
    let block = vec![
        Pixel { r: 1, g: 3, b: 0, a: 255 },
        Pixel { r: 1, g: 3, b: 0, a: 255 },
        Pixel { r: 1, g: 3, b: 0, a: 255 },
        Pixel { r: 2, g: 5, b: 0, a: 255 },
    ];
    let avg = average_pixels(&block);
    assert_eq!(avg, Pixel { r: 1, g: 3, b: 0, a: 255 });
}

#[test]
fn pixelate_block_average_exact() {
    let pixels = vec![
        Pixel { r: 1, g: 0, b: 10, a: 0 },
        Pixel { r: 1, g: 0, b: 20, a: 85 },
        Pixel { r: 1, g: 0, b: 30, a: 85 },
        Pixel { r: 2, g: 0, b: 40, a: 85 },
    ];
    let img = Image::from_pixels(2, 2, pixels);
    let out = pixelate(&img, 2).unwrap();
    assert_eq!(out.width(), 1);
    assert_eq!(out.height(), 1);
    // Sums 5, 0, 100, 255 over four pixels truncate to 1, 0, 25, 63.
    assert_eq!(out.get_pixel(0, 0), Pixel { r: 1, g: 0, b: 25, a: 63 });
}

#[test]
fn average_is_order_independent() {
    let block = vec![
        Pixel { r: 9, g: 1, b: 7, a: 200 },
        Pixel { r: 3, g: 250, b: 0, a: 10 },
        Pixel { r: 200, g: 44, b: 13, a: 99 },
        Pixel { r: 1, g: 2, b: 3, a: 4 },
    ];
    let mut permuted = block.clone();
    permuted.reverse();
    permuted.swap(1, 2);
    assert_eq!(average_pixels(&block), average_pixels(&permuted));
}

#[test]
fn pixelate_rejects_non_divisible_dimensions() {
    // Width 10 is not divisible by scale 3 (height 9 is): the whole batch
    // must be rejected before any file is written.
    let img = uniform(10, 9, Pixel { r: 0, g: 0, b: 0, a: 0 });
    assert!(matches!(pixelate(&img, 3), Err(ToolError::PreconditionViolation)));
}

#[test]
fn pixelate_scale_bounds_are_inclusive() {
    let img = uniform(16, 16, Pixel { r: 1, g: 2, b: 3, a: 4 });
    assert!(matches!(pixelate(&img, 0), Err(ToolError::InvalidParameter)));
    assert!(matches!(pixelate(&img, 1), Err(ToolError::InvalidParameter)));
    assert!(matches!(pixelate(&img, 17), Err(ToolError::InvalidParameter)));
    let out2 = pixelate(&img, 2).unwrap();
    assert_eq!(out2.width(), 8);
    let out16 = pixelate(&img, 16).unwrap();
    assert_eq!(out16.width(), 1);
    assert_eq!(out16.height(), 1);
}

#[test]
fn mask_takes_colour_from_texture_and_alpha_from_mask_red() {
    let mut mask_pixels = Vec::new();
    let mut texture_pixels = Vec::new();
    for k in 0..4u32 {
        // The mask's own alpha and the texture's own alpha are noise that
        // must not reach the output.
        mask_pixels.push(Pixel { r: (10 + k) as u8, g: 90, b: 91, a: 92 });
        texture_pixels.push(Pixel { r: (100 + k) as u8, g: (110 + k) as u8, b: (120 + k) as u8, a: 93 });
    }
    let mask = Image::from_pixels(2, 2, mask_pixels);
    let texture = Image::from_pixels(2, 2, texture_pixels);
    let out = apply_opacity_mask(&mask, &texture).unwrap();
    assert_eq!(out.width(), 2);
    assert_eq!(out.height(), 2);
    for y in 0..2 {
        for x in 0..2 {
            let k = (y * 2 + x) as u8;
            assert_eq!(
                out.get_pixel(x, y),
                Pixel { r: 100 + k, g: 110 + k, b: 120 + k, a: 10 + k }
            );
        }
    }
}

#[test]
fn mask_composite_pixel() {
    let m = Pixel { r: 77, g: 1, b: 2, a: 3 };
    let t = Pixel { r: 50, g: 60, b: 70, a: 80 };
    assert_eq!(get_new_pixel(m, t), Pixel { r: 50, g: 60, b: 70, a: 77 });
}

#[test]
fn mask_rejects_dimension_mismatch() {
    let mask = uniform(2, 2, Pixel { r: 0, g: 0, b: 0, a: 0 });
    let texture = uniform(2, 3, Pixel { r: 0, g: 0, b: 0, a: 0 });
    assert!(matches!(
        apply_opacity_mask(&mask, &texture),
        Err(ToolError::PreconditionViolation)
    ));
}

#[test]
fn crop_origin_is_zero_when_not_centred() {
    assert_eq!(crop_origin(false, 10, 4), 0);
    assert_eq!(crop_origin(false, 7, 7), 0);
}

#[test]
fn crop_centred_ten_by_ten_to_four_by_four() {
    // (10 - 4) / 2 = 3: the region is [3, 7) on both axes.
    assert_eq!(crop_origin(true, 10, 4), 3);
    let img = coords(10, 10);
    let out = naive_crop(&img, 4, 4, true).unwrap();
    assert_eq!(out.width(), 4);
    assert_eq!(out.height(), 4);
    for y in 0..4 {
        for x in 0..4 {
            let p = out.get_pixel(x, y);
            assert_eq!(p.r as u32, 3 + x);
            assert_eq!(p.g as u32, 3 + y);
        }
    }
}

#[test]
fn crop_anchored_keeps_top_left_region() {
    let img = coords(10, 10);
    let out = naive_crop(&img, 4, 3, false).unwrap();
    assert_eq!(out.width(), 4);
    assert_eq!(out.height(), 3);
    for y in 0..3 {
        for x in 0..4 {
            let p = out.get_pixel(x, y);
            assert_eq!(p.r as u32, x);
            assert_eq!(p.g as u32, y);
        }
    }
}

#[test]
fn crop_centred_odd_difference_biases_top_left() {
    // (10 - 5) / 2 = 2 with floor division.
    assert_eq!(crop_origin(true, 10, 5), 2);
}

#[test]
fn crop_rejects_undersized_source() {
    let img = uniform(3, 3, Pixel { r: 0, g: 0, b: 0, a: 0 });
    assert!(matches!(naive_crop(&img, 4, 2, false), Err(ToolError::PreconditionViolation)));
    assert!(matches!(naive_crop(&img, 2, 4, true), Err(ToolError::PreconditionViolation)));
}

#[test]
fn failure_scopes_differ_per_tool() {
    // The crop transform skips the offending file; the other two end the
    // whole batch.
    assert_eq!(failure_scope(ToolKind::Pixelate), FailureScope::BatchFatal);
    assert_eq!(failure_scope(ToolKind::ApplyOpacityMask), FailureScope::BatchFatal);
    assert_eq!(failure_scope(ToolKind::NaiveCrop), FailureScope::PerFileSkip);
}
