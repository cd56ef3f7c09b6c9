//! The pixel-sorting effect backed by the `asdf-pixel-sort` crate, and
//! re-exports of the structural filters it sits beside.

pub use crate::glitchfx::{
    apply_horizontal_glitch, apply_vertical_glitch, desync, glitch, noisy_pixels, oil_painting,
    pixelate, rotate, scan_lines, wind,
};

use asdf_pixel_sort::{sort_with_options, Direction, Mode, Options, PColor};
use image::RgbImage;
use vstd::prelude::*;
use vstd::string::StringSliceAdditionalSpecFns;

use crate::buffer::{map_coords, Image, Pixel};
use crate::colorfx::fits_rgba;
use crate::text::{bytes_eq, clean_bytes, clean_token};

verus! {

/// The sorting mode handed to the outside sorter, with its threshold
/// color or brightness.
#[derive(Clone, Copy, PartialEq, Eq, Structural, Debug)]
pub enum SortMode {
    Black(u8, u8, u8),
    White(u8, u8, u8),
    Brightness(u8),
}

#[derive(Clone, Copy, PartialEq, Eq, Structural, Debug)]
pub enum SortDirection {
    Row,
    Column,
    Both,
}


/// The sorting mode a cleaned token selects; anything unrecognized falls
/// back to black mode with the default color.
pub open spec fn spec_parse_sort_mode(s: Seq<u8>, threshold: Option<u8>) -> SortMode {
    if clean_bytes(s) == "black".spec_bytes() {
        SortMode::Black(0, 62, 214)
    } else if clean_bytes(s) == "white".spec_bytes() {
        SortMode::White(0, 62, 214)
    } else if clean_bytes(s) == "brightness".spec_bytes() {
        SortMode::Brightness(
            match threshold {
                Some(t) => t,
                None => 50u8,
            },
        )
    } else {
        SortMode::Black(0, 62, 214)
    }
}

/// The direction a cleaned token selects; anything unrecognized falls
/// back to both.
pub open spec fn spec_parse_sort_direction(s: Seq<u8>) -> SortDirection {
    if clean_bytes(s) == "row".spec_bytes() {
        SortDirection::Row
    } else if clean_bytes(s) == "column".spec_bytes() {
        SortDirection::Column
    } else if clean_bytes(s) == "both".spec_bytes() {
        SortDirection::Both
    } else {
        SortDirection::Both
    }
}

pub fn parse_sort_mode(mode: &str, threshold: Option<u8>) -> (m: SortMode)
    ensures
        m == spec_parse_sort_mode(mode.spec_bytes(), threshold),
{
    let cleaned = clean_token(mode);
    if bytes_eq(cleaned.as_slice(), "black".as_bytes()) {
        SortMode::Black(0, 62, 214)
    } else if bytes_eq(cleaned.as_slice(), "white".as_bytes()) {
        SortMode::White(0, 62, 214)
    } else if bytes_eq(cleaned.as_slice(), "brightness".as_bytes()) {
        SortMode::Brightness(
            match threshold {
                Some(t) => t,
                None => 50,
            },
        )
    } else {
        SortMode::Black(0, 62, 214)
    }
}

pub fn parse_sort_direction(direction: &str) -> (d: SortDirection)
    ensures
        d == spec_parse_sort_direction(direction.spec_bytes()),
{
    let cleaned = clean_token(direction);
    if bytes_eq(cleaned.as_slice(), "row".as_bytes()) {
        SortDirection::Row
    } else if bytes_eq(cleaned.as_slice(), "column".as_bytes()) {
        SortDirection::Column
    } else {
        SortDirection::Both
    }
}

/// The pixels of an image in row-major order, alpha widened to opaque:
/// the content a pixel permutation preserves.
pub open spec fn pixel_field(img: Image) -> Seq<Pixel> {
    Seq::new(
        (img.width * img.height) as nat,
        |k: int|
            Pixel {
                r: img.rgba_at(k % (img.width as int), k / (img.width as int)).r,
                g: img.rgba_at(k % (img.width as int), k / (img.width as int)).g,
                b: img.rgba_at(k % (img.width as int), k / (img.width as int)).b,
                a: 255u8,
            },
    )
}

/// Relies on asdf_pixel_sort::sort_with_options: it rearranges the pixels
/// of the buffer along rows and/or columns according to the mode, reading
/// runs with `get_pixel`, sorting them, and writing them back to the same
/// positions with `put_pixel`, so the dimensions and channel count are
/// unchanged and the pixels are only permuted.  Its line scans step to
/// `width - 1` and `height - 1`, so the buffer must not be empty.
#[verifier::external_body]
fn sort_buffer(img: &Image, mode: &SortMode, direction: &SortDirection) -> (out: Image)
    requires
        img.wf(),
        img.channels == 3,
        1 <= img.width < 0x1_0000_0000,
        1 <= img.height < 0x1_0000_0000,
    ensures
        out.wf(),
        out.width == img.width,
        out.height == img.height,
        out.channels == 3,
        pixel_field(out).to_multiset() == pixel_field(*img).to_multiset(),
{
    let m = match *mode {
        SortMode::Black(r, g, b) => Mode::Black(PColor::new(r, g, b)),
        SortMode::White(r, g, b) => Mode::White(PColor::new(r, g, b)),
        SortMode::Brightness(t) => Mode::Brightness(t),
    };
    let dir = match *direction {
        SortDirection::Row => Direction::Row,
        SortDirection::Column => Direction::Column,
        SortDirection::Both => Direction::Both,
    };
    let mut buf = RgbImage::from_raw(img.width as u32, img.height as u32, img.data.clone()).unwrap();
    sort_with_options(&mut buf, &Options { mode: m, direction: dir });
    Image { width: img.width, height: img.height, channels: 3, data: buf.into_raw() }
}

/// The image normalized to RGB, the form the sorter works on.
pub fn to_rgb(img: &Image) -> (out: Image)
    requires
        img.wf(),
        fits_rgba(*img),
    ensures
        out.wf(),
        out.width == img.width,
        out.height == img.height,
        out.channels == 3,
        forall|x: int, y: int|
            0 <= x < img.width && 0 <= y < img.height ==> #[trigger] out.rgba_at(x, y) == (Pixel {
                r: img.rgba_at(x, y).r,
                g: img.rgba_at(x, y).g,
                b: img.rgba_at(x, y).b,
                a: 255u8,
            }),
{
    let w = img.width;
    let h = img.height;
    proof {
        assert(w * h * 3 <= w * h * 4) by (nonlinear_arith)
            requires
                w >= 0,
                h >= 0,
        ;
    }
    let (out, results) = map_coords(
        w,
        h,
        3,
        (|x: usize, y: usize| -> (p: Pixel)
            requires
                (x < img.width) && (y < img.height) && img.wf(),
            ensures
                (p == img.rgba_at(x as int, y as int)),
            {
                img.get_rgba(x, y)
            }),
    );
    proof {
        assert forall|x: int, y: int| 0 <= x < img.width && 0 <= y < img.height implies #[trigger] out.rgba_at(
            x,
            y,
        ) == (Pixel {
            r: img.rgba_at(x, y).r,
            g: img.rgba_at(x, y).g,
            b: img.rgba_at(x, y).b,
            a: 255u8,
        }) by {
            let xu = x as usize;
            let yu = y as usize;
            let pp = results@[yu as int * w as int + xu as int];
            assert(out.at(x, y, 0) == pp.r && out.at(x, y, 1) == pp.g && out.at(x, y, 2) == pp.b);
        }
    }
    out
}

/// Sort pixel runs with the outside sorter: the mode and direction
/// strings are cleaned and matched with warn-and-default fallbacks, the
/// image normalized to RGB, and the sorter run over it.  The sorter
/// decides the pixel arrangement; the dimensions are preserved.
pub fn sort_pixel(img: &Image, mode: &String, direction: &String, threshold: Option<u8>) -> (out:
    Image)
    requires
        img.wf(),
        fits_rgba(*img),
        img.width < 0x1_0000_0000,
        img.height < 0x1_0000_0000,
    ensures
        out.wf(),
        out.width == img.width,
        out.height == img.height,
        out.channels == 3,
        pixel_field(out).to_multiset() == pixel_field(*img).to_multiset(),
{
    let m = parse_sort_mode(mode.as_str(), threshold);
    let d = parse_sort_direction(direction.as_str());
    let rgb = to_rgb(img);
    proof {
        lemma_pixel_field_same(*img, rgb);
    }
    if rgb.width == 0 || rgb.height == 0 {
        return rgb;
    }
    sort_buffer(&rgb, &m, &d)
}

/// Two images of the same size whose pixels agree up to opaque alpha
/// carry the same pixel field.
proof fn lemma_pixel_field_same(a: Image, b: Image)
    requires
        a.width == b.width,
        a.height == b.height,
        forall|x: int, y: int|
            0 <= x < a.width && 0 <= y < a.height ==> #[trigger] b.rgba_at(x, y) == (Pixel {
                r: a.rgba_at(x, y).r,
                g: a.rgba_at(x, y).g,
                b: a.rgba_at(x, y).b,
                a: 255u8,
            }),
    ensures
        pixel_field(a) == pixel_field(b),
{
    assert(0 <= (a.width as int) * (a.height as int)) by (nonlinear_arith)
        requires
            a.width >= 0,
            a.height >= 0,
    ;
    assert(pixel_field(a).len() == (a.width as int) * (a.height as int));
    assert forall|k: int| 0 <= k < pixel_field(a).len() implies pixel_field(a)[k] == pixel_field(
        b,
    )[k] by {
        let w = a.width as int;
        let h = a.height as int;
        if a.width == 0 {
            assert(w * h == 0) by (nonlinear_arith)
                requires
                    w == 0,
            ;
        }
        assert(w >= 1);
        vstd::arithmetic::div_mod::lemma_fundamental_div_mod(k, w);
        vstd::arithmetic::div_mod::lemma_mod_bound(k, w);
        let x = k % w;
        let y = k / w;
        assert(0 <= y && y < h) by (nonlinear_arith)
            requires
                k == w * (k / w) + k % w,
                0 <= k % w < w,
                0 <= k < w * h,
                y == k / w,
                w >= 1,
        ;
        assert(b.rgba_at(x, y) == (Pixel {
            r: a.rgba_at(x, y).r,
            g: a.rgba_at(x, y).g,
            b: a.rgba_at(x, y).b,
            a: 255u8,
        }));
    }
    assert(pixel_field(a) =~= pixel_field(b));
}

} // verus!