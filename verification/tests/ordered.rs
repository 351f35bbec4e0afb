use image_effects::bayer::{
    build_bayer_matrix, check_power_of_two, ordered_dither, ordered_dither_pixel,
    ordered_dither_with, try_ordered_dither, Bayer,
};
use image_effects::error::DitherError;
use image_effects::image::RgbImage;
use image_effects::pixel::RgbPixel;

const BLACK: RgbPixel = RgbPixel(0, 0, 0);
const WHITE: RgbPixel = RgbPixel(255, 255, 255);

fn thresholds(size: usize) -> Vec<Vec<f64>> {
    let matrix = build_bayer_matrix(size).unwrap();
    let d = matrix.denominator() as f64;
    (0..size)
        .map(|r| (0..size).map(|c| matrix.numerator(r, c).unwrap() as f64 / d).collect())
        .collect()
}

#[test]
fn bayer_matrix_of_size_one() {
    assert_eq!(thresholds(1), vec![vec![0.0]]);
}

#[test]
fn bayer_matrix_of_size_two() {
    assert_eq!(thresholds(2), vec![vec![0.0, 0.5], vec![0.75, 0.25]]);
}

#[test]
fn bayer_matrix_of_size_four() {
    let matrix = build_bayer_matrix(4).unwrap();
    assert_eq!(matrix.denominator(), 16);
    let rows: Vec<Vec<u64>> =
        (0..4).map(|r| (0..4).map(|c| matrix.numerator(r, c).unwrap()).collect()).collect();
    assert_eq!(
        rows,
        vec![vec![0, 8, 2, 10], vec![12, 4, 14, 6], vec![3, 11, 1, 9], vec![15, 7, 13, 5]]
    );
    assert_eq!(matrix.numerator(4, 0), None);
    assert_eq!(matrix.numerator(0, 4), None);
}

#[test]
fn bayer_matrix_is_idempotent() {
    for size in [1usize, 2, 4, 8, 16, 32] {
        assert_eq!(thresholds(size), thresholds(size));
    }
}

#[test]
fn bayer_thresholds_lie_in_unit_interval_and_differ() {
    let t = thresholds(8);
    let mut seen: Vec<f64> = t.iter().flatten().copied().collect();
    assert!(seen.iter().all(|v| 0.0 <= *v && *v < 1.0));
    seen.sort_by(|a, b| a.partial_cmp(b).unwrap());
    seen.dedup();
    assert_eq!(seen.len(), 64);
}

#[test]
fn bayer_matrix_rejects_bad_sizes() {
    for size in [0usize, 3, 6, 33, 100] {
        assert!(!check_power_of_two(size));
        assert_eq!(build_bayer_matrix(size).err(), Some(DitherError::InvalidMatrixSize));
        assert_eq!(Bayer::dither_matrix(size).err(), Some(DitherError::InvalidMatrixSize));
    }
    assert!(check_power_of_two(1));
    assert!(check_power_of_two(1024));
}

#[test]
fn ordered_dither_on_mid_gray_two_by_two() {
    // offsets with amplitude 85 over the 2x2 matrix: -42, 0, 21, -21
    let image = RgbImage::new(2, 2, RgbPixel(128, 128, 128)).unwrap();
    let out = ordered_dither(&image, 2, &[BLACK, WHITE], 85).unwrap();
    // (0,0): 86 -> B; (1,0): row 1, column 0 of the matrix: 149 -> W; (0,1): 128 -> W; (1,1): 107 -> B
    assert_eq!(out.pixels(), &vec![BLACK, WHITE, WHITE, BLACK]);
}

#[test]
fn ordered_dither_with_zero_amplitude_only_quantizes() {
    let pixels = vec![RgbPixel(127, 127, 127), RgbPixel(128, 128, 128)];
    let image = RgbImage::from_pixels(2, 1, pixels).unwrap();
    let out = ordered_dither(&image, 4, &[BLACK, WHITE], 0).unwrap();
    assert_eq!(out.pixels(), &vec![BLACK, WHITE]);
}

#[test]
fn ordered_dither_with_size_one_lowers_by_half_the_amplitude() {
    // threshold 0: offset = -amplitude / 2
    let image = RgbImage::new(1, 1, RgbPixel(170, 170, 170)).unwrap();
    assert_eq!(ordered_dither(&image, 1, &[BLACK, WHITE], 84).unwrap().pixels(), &vec![WHITE]);
    assert_eq!(ordered_dither(&image, 1, &[BLACK, WHITE], 86).unwrap().pixels(), &vec![BLACK]);
}

#[test]
fn ordered_dither_errors() {
    let image = RgbImage::new(2, 2, RgbPixel(128, 128, 128)).unwrap();
    assert_eq!(
        ordered_dither(&image, 3, &[BLACK, WHITE], 85).err(),
        Some(DitherError::InvalidMatrixSize)
    );
    assert_eq!(
        ordered_dither(&image, 0, &[BLACK, WHITE], 85).err(),
        Some(DitherError::InvalidMatrixSize)
    );
    assert_eq!(ordered_dither(&image, 2, &[], 85).err(), Some(DitherError::EmptyPalette));
    assert_eq!(ordered_dither(&image, 3, &[], 85).err(), Some(DitherError::InvalidMatrixSize));
}

#[test]
fn ordered_dither_does_not_depend_on_processing_order() {
    let width = 7usize;
    let height = 5usize;
    let pixels: Vec<RgbPixel> = (0..(width * height) as u32)
        .map(|i| RgbPixel((i * 7) as u8, (i * 5 + 40) as u8, (250 - i * 3) as u8))
        .collect();
    let image = RgbImage::from_pixels(width, height, pixels.clone()).unwrap();
    let palette = vec![BLACK, WHITE, RgbPixel(255, 0, 0), RgbPixel(0, 255, 0)];
    let whole = ordered_dither(&image, 4, &palette, 85).unwrap();
    let matrix = build_bayer_matrix(4).unwrap();
    let mut k = width * height;
    while k > 0 {
        k -= 1;
        let alone =
            ordered_dither_pixel(&matrix, pixels[k], k % width, k / width, 85, &palette).unwrap();
        assert_eq!(alone, whole.pixels()[k]);
        assert!(palette.contains(&alone));
    }
}

#[test]
fn bayer_effect() {
    let image = RgbImage::new(2, 2, RgbPixel(128, 128, 128)).unwrap();
    let bayer = Bayer::new(2, vec![BLACK, WHITE]);
    assert_eq!(bayer.amplitude, 85);
    assert_eq!(bayer.affect(image).unwrap().pixels(), &vec![BLACK, WHITE, WHITE, BLACK]);
    let other = bayer.with_matrix_size(33);
    assert_eq!(other.matrix_size, 33);
    assert_eq!(other.palette, vec![BLACK, WHITE]);
    let image = RgbImage::new(2, 2, RgbPixel(128, 128, 128)).unwrap();
    assert_eq!(other.affect(image).err(), Some(DitherError::InvalidMatrixSize));
}

#[test]
fn try_ordered_dither_checks_the_size() {
    let image = RgbImage::new(2, 2, RgbPixel(128, 128, 128)).unwrap();
    let out = try_ordered_dither(&image, 2, &[BLACK, WHITE], 85).unwrap().unwrap();
    assert_eq!(out.pixels(), &vec![BLACK, WHITE, WHITE, BLACK]);
    assert!(try_ordered_dither(&image, 1 << 20, &[BLACK, WHITE], 85).is_none());
    assert_eq!(
        try_ordered_dither(&image, 12, &[BLACK, WHITE], 85).unwrap().err(),
        Some(DitherError::InvalidMatrixSize)
    );
}

#[test]
fn one_matrix_serves_many_images() {
    let matrix = build_bayer_matrix(2).unwrap();
    assert_eq!(matrix.size(), 2);
    for value in [0u8, 60, 128, 200, 255] {
        let image = RgbImage::new(3, 3, RgbPixel(value, value, value)).unwrap();
        let with = ordered_dither_with(&image, &matrix, &[BLACK, WHITE], 85).unwrap();
        let fresh = ordered_dither(&image, 2, &[BLACK, WHITE], 85).unwrap();
        assert_eq!(with.pixels(), fresh.pixels());
    }
    let image = RgbImage::new(1, 1, BLACK).unwrap();
    assert_eq!(
        ordered_dither_with(&image, &matrix, &[], 85).err(),
        Some(DitherError::EmptyPalette)
    );
}
