use image_effects::colour::{distance, quantize, Color};
use image_effects::error::DitherError;
use image_effects::pixel::{two_bit, MonoPixel, RgbPixel};

fn black() -> RgbPixel {
    RgbPixel::new(0, 0, 0)
}

fn white() -> RgbPixel {
    RgbPixel::new(255, 255, 255)
}

#[test]
fn distance_uses_bright_weights_above_midpoint() {
    let a = Color::new(128, 0, 0);
    let b = Color::new(127, 1, 2);
    // weights (3, 4, 2): 3*1 + 4*1 + 2*4
    assert_eq!(distance(&a, &b), 15);
}

#[test]
fn distance_uses_dark_weights_at_midpoint() {
    let a = Color::new(127, 0, 0);
    let b = Color::new(126, 1, 2);
    // weights (2, 4, 3): 2*1 + 4*1 + 3*4
    assert_eq!(distance(&a, &b), 18);
}

#[test]
fn distance_is_asymmetric() {
    let dark = Color::new(0, 0, 0);
    let bright = Color::new(255, 0, 10);
    assert_eq!(distance(&dark, &bright), 2 * 255 * 255 + 3 * 100);
    assert_eq!(distance(&bright, &dark), 3 * 255 * 255 + 2 * 100);
}

#[test]
fn distance_of_far_out_of_domain_colours() {
    let limit: i64 = 1 << 60;
    let a = Color::new(limit, limit, limit);
    let b = Color::new(-limit, -limit, -limit);
    let side: u128 = 1u128 << 61;
    assert_eq!(distance(&a, &b), 9 * side * side);
}

#[test]
fn quantize_empty_palette_fails() {
    let palette: Vec<RgbPixel> = Vec::new();
    assert_eq!(quantize(Color::new(1, 2, 3), &palette), Err(DitherError::EmptyPalette));
}

#[test]
fn quantize_returns_member_and_residual() {
    let palette = vec![black(), white(), RgbPixel::new(255, 0, 0)];
    let q = quantize(Color::new(250, 10, 20), &palette).unwrap();
    assert_eq!(q.quantized_color, RgbPixel::new(255, 0, 0));
    assert_eq!(q.error, Color::new(-5, 10, 20));
    assert!(palette.contains(&q.quantized_color));
}

#[test]
fn quantize_residual_is_not_clamped() {
    let palette = vec![black(), white()];
    let q = quantize(Color::new(300, 310, -5), &palette).unwrap();
    assert_eq!(q.quantized_color, white());
    assert_eq!(q.error, Color::new(45, 55, -260));
    let q = quantize(Color::new(-40, -50, -60), &palette).unwrap();
    assert_eq!(q.quantized_color, black());
    assert_eq!(q.error, Color::new(-40, -50, -60));
}

#[test]
fn quantize_is_nearest_for_every_entry() {
    let palette = vec![
        RgbPixel::new(10, 200, 30),
        RgbPixel::new(90, 90, 90),
        RgbPixel::new(200, 10, 250),
        RgbPixel::new(0, 0, 0),
    ];
    let colors = [Color::new(100, 100, 100), Color::new(0, 255, 0), Color::new(199, 0, 255)];
    for color in colors.iter() {
        let q = quantize(*color, &palette).unwrap();
        let chosen = distance(color, &Color::from_pixel(q.quantized_color));
        for entry in palette.iter() {
            assert!(chosen <= distance(color, &Color::from_pixel(*entry)));
        }
    }
}

#[test]
fn quantize_tie_goes_to_first_entry() {
    // 127 is as far from 126 as from 128
    let palette = vec![RgbPixel::new(128, 0, 0), RgbPixel::new(126, 0, 0)];
    let q = quantize(Color::new(127, 0, 0), &palette).unwrap();
    assert_eq!(q.quantized_color, RgbPixel::new(128, 0, 0));
    let reversed = vec![RgbPixel::new(126, 0, 0), RgbPixel::new(128, 0, 0)];
    let q = quantize(Color::new(127, 0, 0), &reversed).unwrap();
    assert_eq!(q.quantized_color, RgbPixel::new(126, 0, 0));
}

#[test]
fn quantize_duplicate_entries_keep_first() {
    let palette = vec![white(), black(), white()];
    let q = quantize(Color::new(255, 255, 255), &palette).unwrap();
    assert_eq!(q.quantized_color, white());
    assert_eq!(q.error, Color::new(0, 0, 0));
}

#[test]
fn quantize_mid_gray_splits_at_128() {
    let palette = vec![black(), white()];
    assert_eq!(quantize(Color::new(127, 127, 127), &palette).unwrap().quantized_color, black());
    assert_eq!(quantize(Color::new(128, 128, 128), &palette).unwrap().quantized_color, white());
}

#[test]
fn rgb_pixel_accessors() {
    let p = RgbPixel::new(1, 2, 3);
    assert_eq!(p.get(), (1, 2, 3));
    assert_eq!(RgbPixel::rgb_from(&[9, 8, 7]).get(), (9, 8, 7));
}

#[test]
fn rgb_pixel_add_error_clamps() {
    let p = RgbPixel::new(250, 5, 100);
    assert_eq!(p.add_error((10, -10, 7)).get(), (255, 0, 107));
    assert_eq!(p.add_error((i32::MAX, i32::MIN, 0)).get(), (255, 0, 100));
}

#[test]
fn rgb_pixel_get_error_is_signed() {
    let a = RgbPixel::new(0, 255, 10);
    let b = RgbPixel::new(255, 0, 10);
    assert_eq!(a.get_error(&b), (-255, 255, 0));
}

#[test]
fn rgb_pixel_quantize() {
    let palette = vec![black(), white()];
    assert_eq!(RgbPixel::new(200, 210, 190).quantize(&palette), Ok(white()));
    assert_eq!(RgbPixel::new(20, 21, 19).quantize(&palette), Ok(black()));
    let empty: Vec<RgbPixel> = Vec::new();
    assert_eq!(RgbPixel::new(20, 21, 19).quantize(&empty), Err(DitherError::EmptyPalette));
}

#[test]
fn mono_pixel_from_rgb() {
    assert_eq!(MonoPixel::mono_from(&RgbPixel::new(10, 20, 31)).get(), 20);
    assert_eq!(MonoPixel::mono_from(&RgbPixel::new(255, 255, 255)).get(), 255);
    assert_eq!(MonoPixel::lightness_from(&RgbPixel::new(10, 20, 31)).get(), 20);
    assert_eq!(MonoPixel::lightness_from(&RgbPixel::new(0, 200, 255)).get(), 127);
}

#[test]
fn mono_pixel_add_error_clamps() {
    assert_eq!(MonoPixel(250).add_error(10).get(), 255);
    assert_eq!(MonoPixel(5).add_error(-10).get(), 0);
    assert_eq!(MonoPixel(5).add_error(10).get(), 15);
}

#[test]
fn mono_pixel_quantize_two_bit() {
    let palette = two_bit();
    assert_eq!(palette, vec![MonoPixel(0), MonoPixel(255)]);
    assert_eq!(MonoPixel(127).quantize(&palette), Ok(MonoPixel(0)));
    assert_eq!(MonoPixel(128).quantize(&palette), Ok(MonoPixel(255)));
    let empty: Vec<MonoPixel> = Vec::new();
    assert_eq!(MonoPixel(128).quantize(&empty), Err(DitherError::EmptyPalette));
}

#[test]
fn mono_pixel_quantize_tie_goes_to_first() {
    assert_eq!(MonoPixel(10).quantize(&[MonoPixel(12), MonoPixel(8)]), Ok(MonoPixel(12)));
    assert_eq!(MonoPixel(10).quantize(&[MonoPixel(8), MonoPixel(12)]), Ok(MonoPixel(8)));
}

#[test]
fn mono_pixel_get_error() {
    assert_eq!(MonoPixel(10).get_error(&MonoPixel(255)), -245);
    assert_eq!(MonoPixel(255).get_error(&MonoPixel(0)), 255);
}

#[test]
fn error_descriptions_differ() {
    let a = DitherError::EmptyPalette.describe();
    let b = DitherError::InvalidKernel.describe();
    let c = DitherError::InvalidMatrixSize.describe();
    assert!(a != b && b != c && a != c);
    assert!(a.contains("palette"));
    assert!(b.contains("kernel"));
    assert!(c.contains("matrix"));
}

#[test]
fn rgb_pixel_get_difference() {
    let a = RgbPixel::new(200, 10, 10);
    let b = RgbPixel::new(100, 20, 40);
    // a is bright: 3 * 100^2 + 4 * 10^2 + 2 * 30^2
    assert_eq!(a.get_difference(&b), 32200);
    // b is dark: 2 * 100^2 + 4 * 10^2 + 3 * 30^2
    assert_eq!(b.get_difference(&a), 23100);
    assert_eq!(black().get_difference(&white()), 9 * 255 * 255);
    assert_eq!(a.get_difference(&a), 0);
}
