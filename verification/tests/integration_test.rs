use img_corroder::buffer::{Image, Pixel};
use img_corroder::colorfx;
use img_corroder::edgesfx;
use img_corroder::glitchfx;

fn create_test_image() -> Image {
    let width = 100;
    let height = 100;
    let mut img = Image::new(width, height, 4);
    // Create a gradient image for testing.
    for y in 0..height {
        for x in 0..width {
            img.put_rgba(
                x,
                y,
                Pixel { r: x as u8, g: y as u8, b: 128, a: 255 },
            );
        }
    }
    img
}

fn dimensions(img: &Image) -> (usize, usize) {
    (img.width, img.height)
}

#[test]
fn test_brightness() {
    let img = create_test_image();
    let processed = colorfx::brightness(&img, 1200).expect("Brightness failed");
    assert_eq!(dimensions(&img), dimensions(&processed));
}

#[test]
fn test_contrast() {
    let img = create_test_image();
    let processed = colorfx::contrast(&img, 1500);
    assert_eq!(dimensions(&img), dimensions(&processed));
}

#[test]
fn test_saturation() {
    let img = create_test_image();
    let processed = colorfx::saturation(&img, 1500).expect("Saturation failed");
    assert_eq!(dimensions(&img), dimensions(&processed));
}

#[test]
fn test_add_noise() {
    let img = create_test_image();
    let mut rng = rand::thread_rng();
    let processed = colorfx::add_noise(&img, 200, &mut rng).expect("Add noise failed");
    assert_eq!(dimensions(&img), dimensions(&processed));
}

#[test]
fn test_sepia() {
    let img = create_test_image();
    let processed = colorfx::sepia(&img).expect("Sepia failed");
    assert_eq!(dimensions(&img), dimensions(&processed));
}

#[test]
fn test_color_replacer() {
    let img = create_test_image();
    // assuming our color map has keys "red" and "blue"
    let processed = colorfx::color_replacer(&img, "red", "blue", 50).expect("Color replacer failed");
    assert_eq!(dimensions(&img), dimensions(&processed));
}

#[test]
fn test_vaporwave() {
    let img = create_test_image();
    let processed = colorfx::vaporwave(&img).expect("Vaporwave failed");
    assert_eq!(dimensions(&img), dimensions(&processed));
}

#[test]
fn test_deep_fry() {
    let img = create_test_image();
    let mut rng = rand::thread_rng();
    let processed = colorfx::deep_fry(&img, 1000, &mut rng).expect("Deep fry failed");
    assert_eq!(dimensions(&img), dimensions(&processed));
}

#[test]
fn test_hue_rotate() {
    let img = create_test_image();
    let processed = colorfx::hue_rotate(&img, 45000).expect("Hue rotate failed");
    assert_eq!(dimensions(&img), dimensions(&processed));
}

#[test]
fn test_neon_edge() {
    let img = create_test_image();
    let processed = edgesfx::neon_edge(&img, 1000, 0, 1000).expect("Neon edge failed");
    assert_eq!(dimensions(&img), dimensions(&processed));
}

#[test]
fn test_sketch() {
    let img = create_test_image();
    let processed = edgesfx::sketch(&img, 10000, 1000, false).expect("Sketch failed");
    assert_eq!(dimensions(&img), dimensions(&processed));
}

#[test]
fn test_emboss() {
    let img = create_test_image();
    let angle: f64 = (45.0f64).to_radians();
    let dx = (angle.sin() * 1000.0).round() as i64;
    let dy = (angle.cos() * 1000.0).round() as i64;
    let processed = edgesfx::emboss(&img, 100_000_000, dx, dy).expect("Emboss failed");
    assert_eq!(dimensions(&img), dimensions(&processed));
}

#[test]
fn test_pixelate() {
    let img = create_test_image();
    let processed = glitchfx::pixelate(&img, 10);
    assert_eq!(dimensions(&img), dimensions(&processed));
}

#[test]
fn test_oil_painting() {
    let img = create_test_image();
    let processed = glitchfx::oil_painting(&img, 4, 30);
    assert_eq!(dimensions(&img), dimensions(&processed));
}

#[test]
fn test_glitch() {
    let img = create_test_image();
    let mut rng = rand::thread_rng();
    let processed = glitchfx::glitch(&img, 10, 5, "vertical", false, &mut rng).unwrap();
    assert_eq!(dimensions(&img), dimensions(&processed));
}

#[test]
fn test_pixel_sort() {
    let img = create_test_image();
    let processed = glitchfx::pixel_sort(&img, "horizontal", 150, 200, 100);
    assert_eq!(dimensions(&img), dimensions(&processed));
}

#[test]
fn test_rotate() {
    let img = create_test_image();
    let processed = glitchfx::rotate(&img, 90_000).expect("Rotate failed");
    assert_eq!(dimensions(&img), dimensions(&processed));
}

#[test]
fn test_desync() {
    let img = create_test_image();
    let processed = glitchfx::desync(&img, 10, 10).expect("Desync failed");
    assert_eq!(dimensions(&img), dimensions(&processed));
}

#[test]
fn test_wind() {
    let img = create_test_image();
    let processed = glitchfx::wind(&img, "right", 10).expect("Wind failed");
    assert_eq!(dimensions(&img), dimensions(&processed));
}

#[test]
fn test_scan_lines() {
    let img = create_test_image();
    let mut rng = rand::thread_rng();
    let processed =
        glitchfx::scan_lines(&img, Some(2), Some(10), 1000, 0, Some(500), &mut rng)
            .expect("Scan lines failed");
    assert_eq!(dimensions(&img), dimensions(&processed));
}

#[test]
fn test_dither() {
    let img = create_test_image();
    let processed =
        img_corroder::colorfx::dither(&img, 4, None, None, None).expect("Dither filter failed");
    assert_eq!(dimensions(&img), dimensions(&processed));
}
