use img_corroder::buffer::{Image, Pixel};
use img_corroder::colorfx;
use img_corroder::color_utils;
use img_corroder::dispatch::{self, Outcome};
use img_corroder::edgesfx;
use img_corroder::errors::FxError;
use img_corroder::fx;
use img_corroder::glitchfx;
use img_corroder::hsv;
use img_corroder::params::{ParamValue, Params};

fn gradient(width: usize, height: usize) -> Image {
    let mut img = Image::new(width, height, 4);
    for y in 0..height {
        for x in 0..width {
            img.put_rgba(x, y, Pixel { r: x as u8, g: y as u8, b: 128, a: 255 });
        }
    }
    img
}

#[test]
fn contrast_unit_factor_is_identity() {
    let img = gradient(40, 25);
    let out = colorfx::contrast(&img, 1000);
    for y in 0..25 {
        for x in 0..40 {
            assert_eq!(img.get_rgba(x, y), out.get_rgba(x, y));
        }
    }
}

#[test]
fn contrast_gradient_corners() {
    // The 100x100 gradient through a factor of 1.5, checked at both corners.
    let img = gradient(100, 100);
    let out = colorfx::contrast(&img, 1500);
    // (0,0): r = clamp(128 + 1.5*(0-128)) = 0, g = 0, b = 128 + 1.5*0 = 128.
    assert_eq!(out.get_rgba(0, 0), Pixel { r: 0, g: 0, b: 128, a: 255 });
    // (99,99): 128 + 1.5*(99-128) = 84.5, floored to 84 per channel.
    assert_eq!(out.get_rgba(99, 99), Pixel { r: 84, g: 84, b: 128, a: 255 });
}

#[test]
fn brightness_never_exceeds_white() {
    let img = gradient(64, 64);
    let out = colorfx::brightness(&img, 2000).unwrap();
    for i in 0..out.data.len() {
        assert!(out.data[i] <= 255);
    }
    // A channel that would overflow is clamped at white.
    let mut bright = Image::new(2, 1, 4);
    bright.put_rgba(0, 0, Pixel { r: 200, g: 200, b: 200, a: 255 });
    let res = colorfx::brightness(&bright, 2000).unwrap();
    assert_eq!(res.get_rgba(0, 0).r, 255);
}

#[test]
fn brightness_rejects_out_of_range_factor() {
    let img = gradient(4, 4);
    assert_eq!(colorfx::brightness(&img, 2001).err(), Some(FxError::BrightnessFactorOutOfRange));
    assert_eq!(colorfx::brightness(&img, -1).err(), Some(FxError::BrightnessFactorOutOfRange));
}

#[test]
fn saturation_rejects_negative_factor() {
    let img = gradient(4, 4);
    assert_eq!(
        colorfx::saturation(&img, -5).err(),
        Some(FxError::SaturationFactorNegative)
    );
}

#[test]
fn add_noise_rejects_out_of_range_intensity() {
    let img = gradient(4, 4);
    let mut rng = rand::thread_rng();
    assert_eq!(
        colorfx::add_noise(&img, 1001, &mut rng).err(),
        Some(FxError::NoiseIntensityOutOfRange)
    );
}

#[test]
fn noise_stays_within_band() {
    let img = gradient(32, 32);
    let mut rng = rand::thread_rng();
    let out = colorfx::add_noise(&img, 1000, &mut rng).unwrap();
    for y in 0..32 {
        for x in 0..32 {
            let p = img.get_rgba(x, y);
            let q = out.get_rgba(x, y);
            assert!(q.r as i32 >= p.r as i32 - 50 && q.r as i32 <= p.r as i32 + 50);
            assert_eq!(q.a, p.a);
        }
    }
}

#[test]
fn sepia_exact_weights() {
    let mut img = Image::new(1, 1, 4);
    img.put_rgba(0, 0, Pixel { r: 10, g: 20, b: 30, a: 9 });
    let out = colorfx::sepia(&img).unwrap();
    // (393*10 + 769*20 + 189*30)/1000 = 24, and so on per channel.
    assert_eq!(out.get_rgba(0, 0), Pixel { r: 24, g: 22, b: 17, a: 9 });
}

#[test]
fn hsv_round_trip_samples() {
    for &(r, g, b) in [
        (0u8, 0u8, 0u8),
        (255, 255, 255),
        (255, 0, 0),
        (12, 200, 33),
        (1, 2, 3),
        (200, 200, 10),
        (77, 12, 240),
        (128, 128, 128),
        (254, 1, 1),
    ]
    .iter()
    {
        let c = hsv::rgb_to_hsv(r, g, b);
        let back = hsv::hsv_to_rgb(c);
        assert_eq!((back.r, back.g, back.b), (r, g, b));
    }
}

#[test]
fn color_distance_is_mean_of_differences() {
    let a = color_utils::Rgb { r: 255, g: 0, b: 0 };
    let b = color_utils::Rgb { r: 0, g: 255, b: 255 };
    assert_eq!(color_utils::color_distance(a, b), 255);
    let c = color_utils::Rgb { r: 10, g: 20, b: 30 };
    let d = color_utils::Rgb { r: 13, g: 14, b: 30 };
    assert_eq!(color_utils::color_distance(c, d), 3);
}

#[test]
fn color_replacer_exact_match_only_at_zero_tolerance() {
    let mut img = Image::new(2, 1, 4);
    img.put_rgba(0, 0, Pixel { r: 255, g: 0, b: 0, a: 255 });
    img.put_rgba(1, 0, Pixel { r: 254, g: 1, b: 1, a: 255 });
    let out = colorfx::color_replacer(&img, "red", "blue", 0).unwrap();
    let exact = out.get_rgba(0, 0);
    let near = out.get_rgba(1, 0);
    assert_eq!((exact.r, exact.g, exact.b), (0, 0, 255));
    assert_eq!((near.r, near.g, near.b), (254, 1, 1));
}

#[test]
fn color_replacer_rejects_unknown_names() {
    let img = gradient(2, 2);
    assert_eq!(
        colorfx::color_replacer(&img, "chartreuse", "blue", 0).err(),
        Some(FxError::UnknownTargetColor)
    );
    assert_eq!(
        colorfx::color_replacer(&img, "red", "chartreuse", 0).err(),
        Some(FxError::UnknownReplacementColor)
    );
}

#[test]
fn dither_two_levels_is_binary() {
    let img = gradient(50, 50);
    let out = colorfx::dither(&img, 2, None, None, None).unwrap();
    for y in 0..50 {
        for x in 0..50 {
            let p = out.get_rgba(x, y);
            assert!(p.r == 0 || p.r == 255);
            assert!(p.g == 0 || p.g == 255);
            assert!(p.b == 0 || p.b == 255);
        }
    }
}

#[test]
fn dither_rejects_single_level() {
    let img = gradient(4, 4);
    assert_eq!(
        colorfx::dither(&img, 1, None, None, None).err(),
        Some(FxError::DitherLevelsTooSmall)
    );
}

#[test]
fn bayer_matrix_of_four_is_the_classic_one() {
    let m = colorfx::generate_bayer_matrix(4);
    let expected: [[u64; 4]; 4] = [[0, 8, 2, 10], [12, 4, 14, 6], [3, 11, 1, 9], [15, 7, 13, 5]];
    for i in 0..4 {
        for j in 0..4 {
            assert_eq!(m[i][j], expected[i][j]);
        }
    }
}

fn brightness_key(p: Pixel, lo: u8, hi: u8) -> i32 {
    let b = ((p.r as u32 + p.g as u32 + p.b as u32) / 3) as u8;
    if lo <= b && b <= hi {
        b as i32
    } else if b < lo {
        lo as i32 - 1
    } else {
        255
    }
}

#[test]
fn full_row_sort_orders_each_row() {
    let img = gradient(64, 8);
    let out = glitchfx::sort_pixels(&img, 60, 180, 0);
    for y in 0..8 {
        for x in 0..63 {
            let a = brightness_key(out.get_rgba(x, y), 60, 180);
            let b = brightness_key(out.get_rgba(x + 1, y), 60, 180);
            assert!(a <= b);
        }
    }
}

#[test]
fn rotate_quarter_turns_round_trip() {
    let img = gradient(31, 17);
    let turned = glitchfx::rotate(&img, 90_000).unwrap();
    assert_eq!((turned.width, turned.height), (17, 31));
    let back = glitchfx::rotate(&turned, 270_000).unwrap();
    assert_eq!((back.width, back.height), (31, 17));
    assert_eq!(back.data, img.data);
}

#[test]
fn rotate_rejects_other_angles() {
    let img = gradient(4, 4);
    assert_eq!(glitchfx::rotate(&img, 45_000).err(), Some(FxError::InvalidRotationAngle));
}

#[test]
fn glitch_with_zero_bands_is_identity() {
    let img = gradient(30, 30);
    let mut rng = rand::thread_rng();
    let out = glitchfx::glitch(&img, 0, 10, "vertical", true, &mut rng).unwrap();
    assert_eq!(out.data, img.data);
}

#[test]
fn glitch_rejects_unknown_direction() {
    let img = gradient(4, 4);
    let mut rng = rand::thread_rng();
    assert_eq!(
        glitchfx::glitch(&img, 1, 2, "diagonal", false, &mut rng).err(),
        Some(FxError::InvalidGlitchDirection)
    );
}

#[test]
fn wind_rejects_zero_strength() {
    let img = gradient(4, 4);
    assert_eq!(glitchfx::wind(&img, "left", 0).err(), Some(FxError::WindStrengthZero));
}

#[test]
fn pixelate_uses_block_anchors() {
    let img = gradient(8, 8);
    let out = glitchfx::pixelate(&img, 4);
    for y in 0..8 {
        for x in 0..8 {
            assert_eq!(out.get_rgba(x, y), img.get_rgba(x - x % 4, y - y % 4));
        }
    }
}

#[test]
fn desync_shifts_red_against_blue() {
    let img = gradient(16, 16);
    let out = glitchfx::desync(&img, 3, 0).unwrap();
    // Red is sampled with the shift added, green stays in place, blue is
    // sampled with the shift subtracted.
    let p = out.get_rgba(10, 5);
    assert_eq!(p.r, img.get_rgba(13, 5).r);
    assert_eq!(p.g, img.get_rgba(10, 5).g);
    assert_eq!(p.b, img.get_rgba(7, 5).b);
    assert_eq!(p.a, 255);
}

#[test]
fn desync_zero_shift_keeps_colors() {
    let img = gradient(9, 9);
    let out = glitchfx::desync(&img, 0, 0).unwrap();
    for y in 0..9 {
        for x in 0..9 {
            let p = img.get_rgba(x, y);
            let q = out.get_rgba(x, y);
            assert_eq!((q.r, q.g, q.b), (p.r, p.g, p.b));
        }
    }
}

#[test]
fn glitch_with_zero_bands_ignores_the_direction() {
    let img = gradient(12, 12);
    let mut rng = rand::thread_rng();
    // The direction string is only examined when a band is drawn.
    let out = glitchfx::glitch(&img, 0, -5, "diagonal", false, &mut rng).unwrap();
    assert_eq!(out.data, img.data);
}

#[test]
fn deep_fry_errors_follow_the_failing_stage() {
    let img = gradient(8, 8);
    let mut rng = rand::thread_rng();
    // factor 6: the derived brightness 1.5 + 0.6 leaves [0, 2].
    assert_eq!(
        colorfx::deep_fry(&img, 6000, &mut rng).err(),
        Some(FxError::BrightnessFactorOutOfRange)
    );
    // factor -0.2: brightness stays in range, saturation turns negative.
    assert_eq!(
        colorfx::deep_fry(&img, -200, &mut rng).err(),
        Some(FxError::SaturationFactorNegative)
    );
    // A factor inside every stage's range succeeds.
    assert!(colorfx::deep_fry(&img, 2000, &mut rng).is_ok());
}

#[test]
fn add_noise_zero_intensity_is_identity() {
    let img = gradient(14, 14);
    let mut rng = rand::thread_rng();
    let out = colorfx::add_noise(&img, 0, &mut rng).unwrap();
    assert_eq!(out.data, img.data);
}

#[test]
fn full_row_sort_is_stable_on_equal_keys() {
    // Five pixels, four below the threshold band (their keys collapse to
    // one value) and one above; the dark pixels must keep their original
    // order at the front.
    let mut img = Image::new(5, 1, 4);
    img.put_rgba(0, 0, Pixel { r: 10, g: 0, b: 0, a: 255 });
    img.put_rgba(1, 0, Pixel { r: 250, g: 250, b: 250, a: 255 });
    img.put_rgba(2, 0, Pixel { r: 0, g: 20, b: 0, a: 255 });
    img.put_rgba(3, 0, Pixel { r: 0, g: 0, b: 30, a: 255 });
    img.put_rgba(4, 0, Pixel { r: 40, g: 40, b: 40, a: 255 });
    let out = glitchfx::sort_pixels(&img, 100, 200, 0);
    let expect = [(10, 0, 0), (0, 20, 0), (0, 0, 30), (40, 40, 40), (250, 250, 250)];
    for (x, e) in expect.iter().enumerate() {
        let p = out.get_rgba(x, 0);
        assert_eq!((p.r, p.g, p.b), *e);
    }
}

#[test]
fn convolve_identity_kernel_keeps_interior() {
    let img = gradient(10, 10);
    let k = edgesfx::Kernel3 {
        w00: 0,
        w01: 0,
        w02: 0,
        w10: 0,
        w11: 1,
        w12: 0,
        w20: 0,
        w21: 0,
        w22: 0,
        den: 1,
    };
    let out = edgesfx::convolve(&img, k);
    // Interior pixels pass through; the border is black.
    let inner = out.get_rgba(5, 5);
    let source = img.get_rgba(5, 5);
    assert_eq!((inner.r, inner.g, inner.b), (source.r, source.g, source.b));
    let border = out.get_rgba(0, 0);
    assert_eq!((border.r, border.g, border.b), (0, 0, 0));
}

#[test]
fn canny_flat_image_has_no_interior_edges() {
    // The blur stage leaves a black border, so gradients appear near the
    // rim; away from it a flat image has no edges.
    let mut img = Image::new(12, 12, 4);
    for y in 0..12 {
        for x in 0..12 {
            img.put_rgba(x, y, Pixel { r: 90, g: 90, b: 90, a: 255 });
        }
    }
    let mask = edgesfx::canny_edge_detection(&img, 80_000);
    assert_eq!(mask.channels, 1);
    for y in 3..9 {
        for x in 3..9 {
            assert_eq!(mask.get(x, y, 0), 0);
        }
    }
}

#[test]
fn extrusion_with_zero_depth_is_identity() {
    let img = gradient(12, 12);
    let out = edgesfx::edge_extrusion(&img, 2000, 0, 100_000).unwrap();
    assert_eq!(out.data, img.data);
}

#[test]
fn sort_pixel_keeps_dimensions_and_goes_rgb() {
    let img = gradient(20, 10);
    let out = fx::sort_pixel(&img, &String::from("brightness"), &String::from("row"), Some(50));
    assert_eq!((out.width, out.height, out.channels), (20, 10, 3));
}

#[test]
fn dispatcher_passes_unknown_names_through() {
    let img = gradient(9, 9);
    let params = Params::new();
    let mut rng = rand::thread_rng();
    match dispatch::apply_transformation(&img, "solarize", &params, &mut rng).unwrap() {
        Outcome::Done(out) => assert_eq!(out.data, img.data),
        _ => panic!("expected a finished image"),
    }
}

#[test]
fn dispatcher_resolves_contrast_with_default_factor() {
    let img = gradient(9, 9);
    let params = Params::new();
    let mut rng = rand::thread_rng();
    match dispatch::apply_transformation(&img, "contrast", &params, &mut rng).unwrap() {
        Outcome::Done(out) => {
            for y in 0..9 {
                for x in 0..9 {
                    assert_eq!(out.get_rgba(x, y), img.get_rgba(x, y));
                }
            }
        },
        _ => panic!("expected a finished image"),
    }
}

#[test]
fn dispatcher_reads_fractional_factors() {
    let img = gradient(9, 9);
    let mut params = Params::new();
    params.push(String::from("factor"), ParamValue::Milli(2500));
    let mut rng = rand::thread_rng();
    assert_eq!(
        match dispatch::apply_transformation(&img, "brightness", &params, &mut rng) {
            Err(e) => Some(e),
            Ok(_) => None,
        },
        Some(FxError::BrightnessFactorOutOfRange)
    );
}

#[test]
fn dispatcher_grayscale_uses_the_decoder() {
    let img = gradient(9, 9);
    let params = Params::new();
    let mut rng = rand::thread_rng();
    match dispatch::apply_transformation(&img, "grayscale", &params, &mut rng).unwrap() {
        Outcome::Done(out) => {
            assert_eq!(out.channels, 1);
            assert_eq!((out.width, out.height), (9, 9));
        },
        _ => panic!("expected a finished image"),
    }
}

#[test]
fn dispatcher_hands_blur_back_with_its_sigma() {
    let img = gradient(9, 9);
    let mut params = Params::new();
    params.push(String::from("sigma"), ParamValue::Milli(3500));
    let mut rng = rand::thread_rng();
    match dispatch::apply_transformation(&img, "blur", &params, &mut rng).unwrap() {
        Outcome::NeedsBlur { sigma_milli } => assert_eq!(sigma_milli, 3500),
        _ => panic!("expected a blur request"),
    }
}

#[test]
fn invert_flips_color_channels() {
    let mut img = Image::new(1, 1, 4);
    img.put_rgba(0, 0, Pixel { r: 1, g: 2, b: 3, a: 77 });
    let out = dispatch::invert(&img);
    assert_eq!(out.get_rgba(0, 0), Pixel { r: 254, g: 253, b: 252, a: 77 });
}

#[test]
fn scan_lines_darken_only_lines() {
    let img = gradient(20, 20);
    let mut rng = rand::thread_rng();
    // Horizontal lines: angle 90 degrees, cos 0, sin 1000.
    let out = glitchfx::scan_lines(&img, Some(1), Some(3), 0, 1000, Some(500), &mut rng).unwrap();
    // Row 0 lies on a line; its blue channel 128 is halved to 64.
    assert_eq!(out.get_rgba(4, 0).b, 64);
    // Row 1 is off the line grid and keeps its color.
    assert_eq!(out.get_rgba(4, 1).b, 128);
}
