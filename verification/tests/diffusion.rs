use image_effects::diffusion::{diffuse, share_of, try_diffuse};
use image_effects::dither::{
    atkinson_mono_dither, basic_dither, burkes_mono_dither, error_propagate_through_pixels,
    error_propagate_through_pixels_rgb, floyd_steinberg_mono_dither,
    jarvis_judice_ninke_mono_dither, sierra_lite_mono_dither, sierra_mono_dither,
    stucki_mono_dither, two_row_sierra_mono_dither,
};
use image_effects::error::DitherError;
use image_effects::image::RgbImage;
use image_effects::kernel::{can_diffuse, sum_weights, validate_kernel};
use image_effects::pixel::RgbPixel;
use image_effects::table::{
    atkinson, basic, burkes, floyd_steinberg, jarvis_judice_ninke, sierra, sierra_lite,
    sierra_two_row, stucki,
};

const BLACK: RgbPixel = RgbPixel(0, 0, 0);
const WHITE: RgbPixel = RgbPixel(255, 255, 255);

fn gray_image(width: usize, height: usize, value: u8) -> RgbImage {
    RgbImage::new(width, height, RgbPixel(value, value, value)).unwrap()
}

#[test]
fn floyd_steinberg_on_mid_gray_two_by_two() {
    let image = gray_image(2, 2, 128);
    let kernel = floyd_steinberg();
    let palette = vec![BLACK, WHITE];
    assert!(can_diffuse(&kernel.matrix, kernel.portions, 4));
    let out = diffuse(&image, &kernel.matrix, kernel.portions, &palette).unwrap();
    assert_eq!(out.width(), 2);
    assert_eq!(out.height(), 2);
    assert_eq!(out.pixels(), &vec![WHITE, BLACK, BLACK, WHITE]);
}

#[test]
fn floyd_steinberg_on_dark_mid_gray_two_by_two() {
    let image = gray_image(2, 2, 127);
    let kernel = floyd_steinberg();
    let out = diffuse(&image, &kernel.matrix, kernel.portions, &[BLACK, WHITE]).unwrap();
    assert_eq!(out.pixels(), &vec![BLACK, WHITE, WHITE, BLACK]);
}

#[test]
fn diffusion_is_deterministic() {
    let pixels: Vec<RgbPixel> =
        (0..48u32).map(|i| RgbPixel((i * 5) as u8, (i * 3) as u8, (255 - i * 4) as u8)).collect();
    let image = RgbImage::from_pixels(8, 6, pixels).unwrap();
    let palette = vec![BLACK, WHITE, RgbPixel(255, 0, 0), RgbPixel(0, 0, 255)];
    let kernel = stucki();
    let a = diffuse(&image, &kernel.matrix, kernel.portions, &palette).unwrap();
    let b = diffuse(&image, &kernel.matrix, kernel.portions, &palette).unwrap();
    assert_eq!(a.pixels(), b.pixels());
    for p in a.pixels().iter() {
        assert!(palette.contains(p));
    }
}

#[test]
fn uniform_member_image_is_a_fixed_point() {
    let c = RgbPixel(12, 200, 77);
    let image = RgbImage::new(7, 5, c).unwrap();
    let palette = vec![BLACK, c, WHITE];
    for kernel in [floyd_steinberg(), jarvis_judice_ninke(), atkinson(), burkes(), stucki(),
        sierra(), sierra_two_row(), sierra_lite(), basic()]
    {
        let out = diffuse(&image, &kernel.matrix, kernel.portions, &palette).unwrap();
        assert_eq!(out.pixels(), image.pixels());
    }
}

#[test]
fn error_is_carried_to_the_right_neighbour() {
    // basic kernel: the whole error goes right; 100 -> black (err 100), 100 + 100 -> white
    let image = gray_image(4, 1, 100);
    let kernel = basic();
    let out = diffuse(&image, &kernel.matrix, kernel.portions, &[BLACK, WHITE]).unwrap();
    // 100 -> B (e=100); 200 -> W (e=-55); 45 -> B (e=45); 145 -> W
    assert_eq!(out.pixels(), &vec![BLACK, WHITE, BLACK, WHITE]);
}

#[test]
fn error_is_dropped_at_the_row_end() {
    // with the basic kernel no error crosses into the next row
    let image = gray_image(1, 4, 100);
    let kernel = basic();
    let out = diffuse(&image, &kernel.matrix, kernel.portions, &[BLACK, WHITE]).unwrap();
    assert_eq!(out.pixels(), &vec![BLACK, BLACK, BLACK, BLACK]);
}

#[test]
fn atkinson_discards_a_quarter_of_the_error() {
    // 1x3 column of 100: taps (0,1,1) and (0,2,1) reach below, each 1/8
    let image = gray_image(1, 3, 100);
    let kernel = atkinson();
    let out = diffuse(&image, &kernel.matrix, kernel.portions, &[BLACK, WHITE]).unwrap();
    // 100 -> B, e=100, 12 to row 1 and 12 to row 2; 112 -> B, e=112, 14 to row 2; 126 -> B
    assert_eq!(out.pixels(), &vec![BLACK, BLACK, BLACK]);
    let image = gray_image(1, 3, 104);
    let out = diffuse(&image, &kernel.matrix, kernel.portions, &[BLACK, WHITE]).unwrap();
    // 104 -> B, e=104, 13 each; 117 -> B, e=117, 14; 104 + 13 + 14 = 131 -> W
    assert_eq!(out.pixels(), &vec![BLACK, BLACK, WHITE]);
}

#[test]
fn negative_error_rounds_toward_zero() {
    // 1x2, sierra lite: tap (0,1,1) of 4. 200 -> W, e=-55, -55/4 = -13 (not -14)
    // 141 - 13 = 128 -> W; with -14 it would be 127 -> B
    let pixels = vec![RgbPixel(200, 200, 200), RgbPixel(141, 141, 141)];
    let image = RgbImage::from_pixels(1, 2, pixels).unwrap();
    let kernel = sierra_lite();
    let out = diffuse(&image, &kernel.matrix, kernel.portions, &[BLACK, WHITE]).unwrap();
    assert_eq!(out.pixels(), &vec![WHITE, WHITE]);
}

#[test]
fn diffuse_rejects_zero_divisor() {
    let image = gray_image(2, 2, 10);
    assert_eq!(
        diffuse(&image, &[(1, 0, 1)], 0, &[BLACK, WHITE]).err(),
        Some(DitherError::InvalidKernel)
    );
}

#[test]
fn diffuse_rejects_acausal_taps() {
    let image = gray_image(2, 2, 10);
    for tap in [(0i8, 0i8, 1u8), (-1, 0, 1), (0, -1, 1), (5, -1, 1)] {
        assert!(!validate_kernel(&[(1, 0, 1), tap], 4));
        assert_eq!(
            diffuse(&image, &[(1, 0, 1), tap], 4, &[BLACK, WHITE]).err(),
            Some(DitherError::InvalidKernel)
        );
    }
}

#[test]
fn diffuse_rejects_empty_palette() {
    let image = gray_image(2, 2, 10);
    let kernel = burkes();
    assert_eq!(
        diffuse(&image, &kernel.matrix, kernel.portions, &[]).err(),
        Some(DitherError::EmptyPalette)
    );
}

#[test]
fn invalid_kernel_is_reported_before_empty_palette() {
    let image = gray_image(2, 2, 10);
    assert_eq!(diffuse(&image, &[(1, 0, 1)], 0, &[]).err(), Some(DitherError::InvalidKernel));
}

#[test]
fn diffuse_accepts_an_empty_image() {
    let image = RgbImage::new(0, 0, BLACK).unwrap();
    let kernel = sierra();
    let out = diffuse(&image, &kernel.matrix, kernel.portions, &[BLACK]).unwrap();
    assert_eq!(out.pixels().len(), 0);
}

#[test]
fn kernel_table_is_exact() {
    let fs = floyd_steinberg();
    assert_eq!(fs.name, "floyd-steinberg");
    assert_eq!(fs.matrix, vec![(1, 0, 7), (-1, 1, 5), (0, 1, 3), (1, 1, 1)]);
    assert_eq!(fs.portions, 16);
    let jjn = jarvis_judice_ninke();
    assert_eq!(jjn.name, "jarvis-judice-ninke");
    assert_eq!(
        jjn.matrix,
        vec![
            (1, 0, 7), (2, 0, 5), (-2, 1, 3), (-1, 1, 5), (0, 1, 7), (1, 1, 5), (2, 1, 3),
            (-2, 2, 1), (-1, 2, 3), (0, 2, 5), (1, 2, 3), (2, 2, 1)
        ]
    );
    assert_eq!(jjn.portions, 48);
    let at = atkinson();
    assert_eq!(at.name, "atkinson");
    assert_eq!(at.matrix, vec![(1, 0, 1), (2, 0, 1), (-1, 1, 1), (0, 1, 1), (1, 1, 1), (0, 2, 1)]);
    assert_eq!(at.portions, 8);
    let bu = burkes();
    assert_eq!(bu.name, "burkes");
    assert_eq!(
        bu.matrix,
        vec![(1, 0, 8), (2, 0, 4), (-2, 1, 2), (-1, 1, 4), (0, 1, 8), (1, 1, 4), (2, 1, 2)]
    );
    assert_eq!(bu.portions, 32);
    let st = stucki();
    assert_eq!(st.name, "stucki");
    assert_eq!(
        st.matrix,
        vec![
            (1, 0, 8), (2, 0, 4), (-2, 1, 2), (-1, 1, 4), (0, 1, 8), (1, 1, 4), (2, 1, 2),
            (-2, 2, 1), (-1, 2, 2), (0, 2, 4), (1, 2, 2), (2, 2, 1)
        ]
    );
    assert_eq!(st.portions, 42);
    let si = sierra();
    assert_eq!(si.name, "sierra");
    assert_eq!(
        si.matrix,
        vec![
            (1, 0, 5), (2, 0, 3), (-2, 1, 2), (-1, 1, 4), (0, 1, 5), (1, 1, 4), (2, 1, 2),
            (-1, 2, 2), (0, 2, 3), (1, 2, 2)
        ]
    );
    assert_eq!(si.portions, 32);
    let s2 = sierra_two_row();
    assert_eq!(s2.name, "sierra-two-row");
    assert_eq!(
        s2.matrix,
        vec![(1, 0, 4), (2, 0, 3), (-2, 1, 1), (-1, 1, 2), (0, 1, 3), (1, 1, 2), (2, 1, 1)]
    );
    assert_eq!(s2.portions, 16);
    let sl = sierra_lite();
    assert_eq!(sl.name, "sierra-lite");
    assert_eq!(sl.matrix, vec![(1, 0, 2), (-1, 1, 1), (0, 1, 1)]);
    assert_eq!(sl.portions, 4);
    let ba = basic();
    assert_eq!(ba.name, "basic");
    assert_eq!(ba.matrix, vec![(1, 0, 1)]);
    assert_eq!(ba.portions, 1);
}

#[test]
fn kernel_table_weights() {
    assert_eq!(sum_weights(&floyd_steinberg().matrix), 16);
    assert_eq!(sum_weights(&jarvis_judice_ninke().matrix), 48);
    assert_eq!(sum_weights(&atkinson().matrix), 6);
    assert_eq!(sum_weights(&burkes().matrix), 32);
    assert_eq!(sum_weights(&stucki().matrix), 42);
    assert_eq!(sum_weights(&sierra().matrix), 32);
    assert_eq!(sum_weights(&sierra_two_row().matrix), 16);
    assert_eq!(sum_weights(&sierra_lite().matrix), 4);
    assert_eq!(sum_weights(&basic().matrix), 1);
    for kernel in [floyd_steinberg(), jarvis_judice_ninke(), atkinson(), burkes(), stucki(),
        sierra(), sierra_two_row(), sierra_lite(), basic()]
    {
        assert!(validate_kernel(&kernel.matrix, kernel.portions));
    }
}

#[test]
fn share_rounds_toward_zero() {
    assert_eq!(share_of(100, 7, 16), 43);
    assert_eq!(share_of(-100, 7, 16), -43);
    assert_eq!(share_of(15, 1, 16), 0);
    assert_eq!(share_of(-15, 1, 16), 0);
    assert_eq!(share_of(-127, 7, 16), -55);
    assert_eq!(share_of(32, 5, 16), 10);
    assert_eq!(share_of(0, 255, 1), 0);
}

#[test]
fn taps_of_a_full_kernel_restore_the_error() {
    for kernel in [floyd_steinberg(), jarvis_judice_ninke(), burkes(), stucki(), sierra(),
        sierra_two_row(), sierra_lite(), basic()]
    {
        let taps = kernel.matrix.len() as i64;
        for error in [-510i64, -255, -127, -48, -16, -1, 0, 1, 15, 16, 42, 100, 255, 336] {
            let sent: i64 =
                kernel.matrix.iter().map(|tap| share_of(error, tap.2, kernel.portions)).sum();
            assert!((error - sent).abs() < taps);
            assert!(sent.abs() <= error.abs());
            assert!(sent == 0 || (sent > 0) == (error > 0));
            if error % kernel.portions as i64 == 0 {
                assert_eq!(sent, error);
            }
        }
    }
}

#[test]
fn atkinson_sends_three_quarters_of_the_error() {
    let kernel = atkinson();
    let sent: i64 = kernel.matrix.iter().map(|tap| share_of(80, tap.2, kernel.portions)).sum();
    assert_eq!(sent, 60);
}

#[test]
fn can_diffuse_limits() {
    let fs = floyd_steinberg();
    assert!(can_diffuse(&fs.matrix, fs.portions, 0));
    assert!(can_diffuse(&fs.matrix, fs.portions, 1 << 40));
    // 255 * pixels <= 2^54
    let most: usize = ((1u64 << 54) / 255) as usize;
    assert!(can_diffuse(&fs.matrix, fs.portions, most));
    assert!(!can_diffuse(&fs.matrix, fs.portions, most + 1));
    // a kernel that doubles the error outgrows the range after a few dozen pixels
    assert!(can_diffuse(&[(1, 0, 2)], 1, 10));
    assert!(!can_diffuse(&[(1, 0, 2)], 1, 64));
    // an invalid kernel is refused by diffuse itself
    assert!(can_diffuse(&[(1, 0, 2)], 0, 64));
}

#[test]
fn over_propagating_kernel_still_runs() {
    let image = gray_image(3, 1, 100);
    // the error is doubled on its way right
    let out = diffuse(&image, &[(1, 0, 2)], 1, &[BLACK, WHITE]).unwrap();
    // 100 -> B (e=100); 100 + 200 = 300 -> W (e=45); 100 + 90 = 190 -> W
    assert_eq!(out.pixels(), &vec![BLACK, WHITE, WHITE]);
}

#[test]
fn configured_propagator_dithers() {
    let image = gray_image(2, 2, 128);
    let configured = floyd_steinberg().with_palette(vec![BLACK, WHITE]);
    assert_eq!(configured.name, "floyd-steinberg");
    let out = configured.affect(image).unwrap();
    assert_eq!(out.pixels(), &vec![WHITE, BLACK, BLACK, WHITE]);
}

#[test]
fn configured_propagator_with_empty_palette_fails() {
    let image = gray_image(2, 2, 128);
    let configured = floyd_steinberg().with_palette(vec![]);
    assert_eq!(configured.affect(image).err(), Some(DitherError::EmptyPalette));
}

#[test]
fn mono_dither_reduces_to_the_channel_mean() {
    // (255, 128, 0) has mean 127: black; (255, 129, 0) has mean 128: white
    let image = RgbImage::from_pixels(1, 1, vec![RgbPixel(255, 128, 0)]).unwrap();
    assert_eq!(floyd_steinberg_mono_dither(image).pixels(), &vec![BLACK]);
    let image = RgbImage::from_pixels(1, 1, vec![RgbPixel(255, 129, 0)]).unwrap();
    assert_eq!(floyd_steinberg_mono_dither(image).pixels(), &vec![WHITE]);
}

#[test]
fn mono_dithers_on_mid_gray() {
    assert_eq!(
        floyd_steinberg_mono_dither(gray_image(2, 2, 128)).pixels(),
        &vec![WHITE, BLACK, BLACK, WHITE]
    );
    // Atkinson, 3x1 of 100: 100 -> B (e=100, 12 right, 12 two right); 112 -> B (e=112, 14);
    // 100 + 12 + 14 = 126 -> B
    assert_eq!(atkinson_mono_dither(gray_image(3, 1, 100)).pixels(), &vec![BLACK, BLACK, BLACK]);
    // Burkes, 3x1 of 100: 8/32 right, 4/32 two right: 25, 12; 125 -> B (e=125: 31); 143 -> W
    assert_eq!(burkes_mono_dither(gray_image(3, 1, 100)).pixels(), &vec![BLACK, BLACK, WHITE]);
    // Stucki, 3x1 of 100: 8/42, 4/42: 19, 9; 119 -> B (e=119: 22); 131 -> W
    assert_eq!(stucki_mono_dither(gray_image(3, 1, 100)).pixels(), &vec![BLACK, BLACK, WHITE]);
    // Jarvis-Judice-Ninke, 3x1 of 100: 7/48, 5/48: 14, 10; 114 -> B (e=114: 16); 126 -> B
    assert_eq!(
        jarvis_judice_ninke_mono_dither(gray_image(3, 1, 100)).pixels(),
        &vec![BLACK, BLACK, BLACK]
    );
    // Sierra, 3x1 of 100: 5/32, 3/32: 15, 9; 115 -> B (e=115: 17); 126 -> B
    assert_eq!(sierra_mono_dither(gray_image(3, 1, 100)).pixels(), &vec![BLACK, BLACK, BLACK]);
    // two-row Sierra, 3x1 of 100: 4/16, 3/16: 25, 18; 125 -> B (e=125: 31); 149 -> W
    assert_eq!(
        two_row_sierra_mono_dither(gray_image(3, 1, 100)).pixels(),
        &vec![BLACK, BLACK, WHITE]
    );
    // Sierra Lite, 3x1 of 100: 2/4 right: 50; 150 -> W (e=-105: -52); 48 -> B
    assert_eq!(
        sierra_lite_mono_dither(gray_image(3, 1, 100)).pixels(),
        &vec![BLACK, WHITE, BLACK]
    );
}

#[test]
fn error_propagate_through_pixels_uses_lightness() {
    // (0, 200, 255): lightness 127 -> black, though the mean is 151
    let mut image = RgbImage::from_pixels(1, 1, vec![RgbPixel(0, 200, 255)]).unwrap();
    assert_eq!(error_propagate_through_pixels(&mut image, &[(1, 0, 7)], 16), Ok(()));
    assert_eq!(image.pixels(), &vec![BLACK]);
    let mut image = gray_image(2, 2, 128);
    let fs = floyd_steinberg();
    assert_eq!(error_propagate_through_pixels(&mut image, &fs.matrix, fs.portions), Ok(()));
    assert_eq!(image.pixels(), &vec![WHITE, BLACK, BLACK, WHITE]);
}

#[test]
fn error_propagate_through_pixels_leaves_image_on_error() {
    let mut image = gray_image(2, 2, 128);
    assert_eq!(
        error_propagate_through_pixels(&mut image, &[(-1, 0, 7)], 16),
        Err(DitherError::InvalidKernel)
    );
    assert_eq!(image.pixels(), gray_image(2, 2, 128).pixels());
    assert_eq!(
        error_propagate_through_pixels_rgb(&mut image, &[(1, 0, 7)], 16, &[]),
        Err(DitherError::EmptyPalette)
    );
    assert_eq!(image.pixels(), gray_image(2, 2, 128).pixels());
}

#[test]
fn error_propagate_through_pixels_rgb_dithers_in_place() {
    let mut image = gray_image(2, 2, 128);
    let fs = floyd_steinberg();
    assert_eq!(
        error_propagate_through_pixels_rgb(&mut image, &fs.matrix, fs.portions, &[BLACK, WHITE]),
        Ok(())
    );
    assert_eq!(image.pixels(), &vec![WHITE, BLACK, BLACK, WHITE]);
}

#[test]
fn basic_dither_in_place() {
    let mut image = gray_image(4, 1, 100);
    assert_eq!(basic_dither(&mut image, &[BLACK, WHITE]), Ok(()));
    assert_eq!(image.pixels(), &vec![BLACK, WHITE, BLACK, WHITE]);
    assert_eq!(basic_dither(&mut image, &[]), Err(DitherError::EmptyPalette));
}

#[test]
fn image_grid_accessors() {
    let mut image = RgbImage::new(3, 2, BLACK).unwrap();
    assert_eq!(image.width(), 3);
    assert_eq!(image.height(), 2);
    assert_eq!(image.get(2, 1), Some(BLACK));
    assert_eq!(image.get(3, 1), None);
    assert_eq!(image.get(2, 2), None);
    assert!(image.set(2, 1, WHITE));
    assert!(!image.set(3, 0, WHITE));
    assert_eq!(image.get(2, 1), Some(WHITE));
    assert_eq!(image.pixels()[5], WHITE);
    assert!(RgbImage::from_pixels(2, 2, vec![BLACK; 3]).is_none());
    assert!(RgbImage::new(usize::MAX, 2, BLACK).is_none());
}

#[test]
fn try_diffuse_checks_the_limits() {
    let image = gray_image(2, 2, 128);
    let fs = floyd_steinberg();
    let out = try_diffuse(&image, &fs.matrix, fs.portions, &[BLACK, WHITE]).unwrap().unwrap();
    assert_eq!(out.pixels(), &vec![WHITE, BLACK, BLACK, WHITE]);
    // a kernel that doubles the error cannot be trusted over 64 pixels
    let image = gray_image(8, 8, 128);
    assert!(try_diffuse(&image, &[(1, 0, 2)], 1, &[BLACK, WHITE]).is_none());
    assert!(try_diffuse(&image, &fs.matrix, fs.portions, &[BLACK, WHITE]).is_some());
    assert_eq!(
        try_diffuse(&image, &fs.matrix, fs.portions, &[]).unwrap().err(),
        Some(DitherError::EmptyPalette)
    );
}
