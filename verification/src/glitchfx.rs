//! Glitch and structural filters: quarter-turn rotation, pixel sorting,
//! channel desynchronization, directional smear, block pixelation, the
//! oil-painting mode filter, scan lines and band glitching.

use vstd::prelude::*;
use vstd::multiset::Multiset;
use vstd::string::StringSliceAdditionalSpecFns;

use crate::arith::{clamp255, euclid_mod_i64, lemma_pix_idx_lt, pix_idx};
use crate::buffer::{map_coords, Image, Pixel};
use crate::colorfx::fits_rgba;
use crate::errors::FxError;
use crate::rng::rng_range;

verus! {

/// A quarter turn clockwise: the output is as tall as the input is wide,
/// and reads the source column bottom-up.
pub open spec fn rotate90_rel(inp: Image, out: Image) -> bool {
    &&& out.wf()
    &&& out.width == inp.height
    &&& out.height == inp.width
    &&& out.channels == inp.channels
    &&& forall|x: int, y: int|
        0 <= x < out.width && 0 <= y < out.height ==> #[trigger] out.rgba_at(x, y) == inp.rgba_at(
            y,
            inp.height - 1 - x,
        )
}

/// A half turn: both coordinates mirrored.
pub open spec fn rotate180_rel(inp: Image, out: Image) -> bool {
    &&& out.wf()
    &&& out.width == inp.width
    &&& out.height == inp.height
    &&& out.channels == inp.channels
    &&& forall|x: int, y: int|
        0 <= x < out.width && 0 <= y < out.height ==> #[trigger] out.rgba_at(x, y) == inp.rgba_at(
            inp.width - 1 - x,
            inp.height - 1 - y,
        )
}

/// A quarter turn counterclockwise.
pub open spec fn rotate270_rel(inp: Image, out: Image) -> bool {
    &&& out.wf()
    &&& out.width == inp.height
    &&& out.height == inp.width
    &&& out.channels == inp.channels
    &&& forall|x: int, y: int|
        0 <= x < out.width && 0 <= y < out.height ==> #[trigger] out.rgba_at(x, y) == inp.rgba_at(
            inp.width - 1 - y,
            x,
        )
}

pub fn rotate90(img: &Image) -> (out: Image)
    requires
        img.wf(),
        fits_rgba(*img),
        img.channels == 3 || img.channels == 4,
    ensures
        rotate90_rel(*img, out),
{
    let w = img.height;
    let h = img.width;
    let ch = img.channels;
    proof {
        assert(w * h * ch <= img.width * img.height * 4 && img.width * img.height * ch == w * h
            * ch) by (nonlinear_arith)
            requires
                w == img.height,
                h == img.width,
                ch <= 4,
                w >= 0,
                h >= 0,
        ;
    }
    let (out, results) = map_coords(
        w,
        h,
        ch,
        (|x: usize, y: usize| -> (p: Pixel)
            requires
                (x < img.height) && (y < img.width) && img.wf(),
            ensures
                (p == img.rgba_at(y as int, img.height - 1 - x as int)),
            {
                img.get_rgba(y, img.height - 1 - x)
            }),
    );
    proof {
        assert forall|x: int, y: int| 0 <= x < out.width && 0 <= y < out.height implies #[trigger] out.rgba_at(
            x,
            y,
        ) == img.rgba_at(y, img.height - 1 - x) by {
            let xu = x as usize;
            let yu = y as usize;
            let pp = results@[yu as int * w as int + xu as int];
            assert(out.at(x, y, 0) == pp.r && out.at(x, y, 1) == pp.g && out.at(x, y, 2) == pp.b
                && (out.channels == 4 ==> out.at(x, y, 3) == pp.a));
            if out.channels == 3 {
                assert(out.rgba_at(x, y).a == 255 && img.rgba_at(y, img.height - 1 - x).a == 255);
            }
        }
    }
    out
}

pub fn rotate180(img: &Image) -> (out: Image)
    requires
        img.wf(),
        fits_rgba(*img),
        img.channels == 3 || img.channels == 4,
    ensures
        rotate180_rel(*img, out),
{
    let w = img.width;
    let h = img.height;
    let ch = img.channels;
    proof {
        assert(w * h * ch <= w * h * 4) by (nonlinear_arith)
            requires
                ch <= 4,
                w >= 0,
                h >= 0,
        ;
    }
    let (out, results) = map_coords(
        w,
        h,
        ch,
        (|x: usize, y: usize| -> (p: Pixel)
            requires
                (x < img.width) && (y < img.height) && img.wf(),
            ensures
                (p == img.rgba_at(img.width - 1 - x as int, img.height - 1 - y as int)),
            {
                img.get_rgba(img.width - 1 - x, img.height - 1 - y)
            }),
    );
    proof {
        assert forall|x: int, y: int| 0 <= x < out.width && 0 <= y < out.height implies #[trigger] out.rgba_at(
            x,
            y,
        ) == img.rgba_at(img.width - 1 - x, img.height - 1 - y) by {
            let xu = x as usize;
            let yu = y as usize;
            let pp = results@[yu as int * w as int + xu as int];
            assert(out.at(x, y, 0) == pp.r && out.at(x, y, 1) == pp.g && out.at(x, y, 2) == pp.b
                && (out.channels == 4 ==> out.at(x, y, 3) == pp.a));
            if out.channels == 3 {
                assert(out.rgba_at(x, y).a == 255 && img.rgba_at(
                    img.width - 1 - x,
                    img.height - 1 - y,
                ).a == 255);
            }
        }
    }
    out
}

pub fn rotate270(img: &Image) -> (out: Image)
    requires
        img.wf(),
        fits_rgba(*img),
        img.channels == 3 || img.channels == 4,
    ensures
        rotate270_rel(*img, out),
{
    let w = img.height;
    let h = img.width;
    let ch = img.channels;
    proof {
        assert(w * h * ch <= img.width * img.height * 4 && img.width * img.height * ch == w * h
            * ch) by (nonlinear_arith)
            requires
                w == img.height,
                h == img.width,
                ch <= 4,
                w >= 0,
                h >= 0,
        ;
    }
    let (out, results) = map_coords(
        w,
        h,
        ch,
        (|x: usize, y: usize| -> (p: Pixel)
            requires
                (x < img.height) && (y < img.width) && img.wf(),
            ensures
                (p == img.rgba_at(img.width - 1 - y as int, x as int)),
            {
                img.get_rgba(img.width - 1 - y, x)
            }),
    );
    proof {
        assert forall|x: int, y: int| 0 <= x < out.width && 0 <= y < out.height implies #[trigger] out.rgba_at(
            x,
            y,
        ) == img.rgba_at(img.width - 1 - y, x) by {
            let xu = x as usize;
            let yu = y as usize;
            let pp = results@[yu as int * w as int + xu as int];
            assert(out.at(x, y, 0) == pp.r && out.at(x, y, 1) == pp.g && out.at(x, y, 2) == pp.b
                && (out.channels == 4 ==> out.at(x, y, 3) == pp.a));
            if out.channels == 3 {
                assert(out.rgba_at(x, y).a == 255 && img.rgba_at(img.width - 1 - y, x).a == 255);
            }
        }
    }
    out
}

/// A quarter turn clockwise followed by a quarter turn counterclockwise
/// reproduces the original image exactly.
pub proof fn lemma_rotate_round_trip(a: Image, b: Image, c: Image)
    requires
        rotate90_rel(a, b),
        rotate270_rel(b, c),
    ensures
        c.width == a.width,
        c.height == a.height,
        c.channels == a.channels,
        forall|x: int, y: int|
            0 <= x < a.width && 0 <= y < a.height ==> #[trigger] c.rgba_at(x, y) == a.rgba_at(x, y),
{
    assert forall|x: int, y: int| 0 <= x < a.width && 0 <= y < a.height implies #[trigger] c.rgba_at(
        x,
        y,
    ) == a.rgba_at(x, y) by {
        assert(c.rgba_at(x, y) == b.rgba_at(b.width - 1 - y, x));
        assert(b.rgba_at(b.width - 1 - y, x) == a.rgba_at(x, a.height - 1 - (b.width - 1 - y)));
        assert(a.height - 1 - (b.width - 1 - y) == y);
    }
}

/// Copy an image sample for sample.
pub fn clone_image(img: &Image) -> (out: Image)
    requires
        img.wf(),
    ensures
        out.wf(),
        out.same_image(*img),
{
    let data = crate::text::bytes_to_vec(img.data.as_slice());
    Image { width: img.width, height: img.height, channels: img.channels, data }
}

/// Only quarter turns are valid rotations; any other angle, taken modulo a
/// full turn in thousandths of a degree, is rejected.
pub fn rotate(img: &Image, angle_milli: i64) -> (r: Result<Image, FxError>)
    requires
        img.wf(),
        fits_rgba(*img),
        img.channels == 3 || img.channels == 4,
        -(i64::MAX) <= angle_milli,
    ensures
        ({
            let a = (angle_milli as int) % 360000;
            &&& (a == 0 || a == 90000 || a == 180000 || a == 270000) <==> r is Ok
            &&& r is Err ==> r == Result::<Image, FxError>::Err(FxError::InvalidRotationAngle)
            &&& a == 0 ==> (r matches Ok(out) && out.same_image(*img))
            &&& a == 90000 ==> (r matches Ok(out) && rotate90_rel(*img, out))
            &&& a == 180000 ==> (r matches Ok(out) && rotate180_rel(*img, out))
            &&& a == 270000 ==> (r matches Ok(out) && rotate270_rel(*img, out))
        }),
{
    let a = euclid_mod_i64(angle_milli, 360000);
    if a == 0 {
        Ok(clone_image(img))
    } else if a == 90000 {
        Ok(rotate90(img))
    } else if a == 180000 {
        Ok(rotate180(img))
    } else if a == 270000 {
        Ok(rotate270(img))
    } else {
        Err(FxError::InvalidRotationAngle)
    }
}

/// Every pixel of a block takes the color of the block's top-left source
/// pixel; blocks are anchored at multiples of the block size.
pub open spec fn pixelate_rel(inp: Image, out: Image, bs: int) -> bool {
    &&& out.wf()
    &&& out.width == inp.width
    &&& out.height == inp.height
    &&& out.channels == 4
    &&& forall|x: int, y: int|
        0 <= x < inp.width && 0 <= y < inp.height ==> #[trigger] out.rgba_at(x, y) == inp.rgba_at(
            x - x % bs,
            y - y % bs,
        )
}

/// Tile the image into `block_size` by `block_size` blocks, each filled
/// with its top-left source pixel.
pub fn pixelate(img: &Image, block_size: u32) -> (out: Image)
    requires
        img.wf(),
        fits_rgba(*img),
        block_size >= 1,
    ensures
        pixelate_rel(*img, out, block_size as int),
{
    let w = img.width;
    let h = img.height;
    let (out, results) = map_coords(
        w,
        h,
        4,
        (|x: usize, y: usize| -> (p: Pixel)
            requires
                (x < img.width) && (y < img.height) && img.wf() && (block_size >= 1),
            ensures
                (p == img.rgba_at(
                    x as int - (x as int) % (block_size as int),
                    y as int - (y as int) % (block_size as int),
                )),
            {
                let bs = block_size as usize;
                proof {
                    vstd::arithmetic::div_mod::lemma_mod_bound(x as int, bs as int);
                    vstd::arithmetic::div_mod::lemma_mod_bound(y as int, bs as int);
                    if (x as int) < bs as int {
                        vstd::arithmetic::div_mod::lemma_small_mod(x as nat, bs as nat);
                    }
                    if (y as int) < bs as int {
                        vstd::arithmetic::div_mod::lemma_small_mod(y as nat, bs as nat);
                    }
                }
                let ax = x - x % bs;
                let ay = y - y % bs;
                img.get_rgba(ax, ay)
            }),
    );
    proof {
        assert forall|x: int, y: int| 0 <= x < img.width && 0 <= y < img.height implies #[trigger] out.rgba_at(
            x,
            y,
        ) == img.rgba_at(x - x % (block_size as int), y - y % (block_size as int)) by {
            let xu = x as usize;
            let yu = y as usize;
            let pp = results@[yu as int * w as int + xu as int];
            assert(out.at(x, y, 0) == pp.r && out.at(x, y, 1) == pp.g && out.at(x, y, 2) == pp.b
                && out.at(x, y, 3) == pp.a);
        }
    }
    out
}

/// The desynchronized pixel at `(x, y)`: the red channel sampled from
/// `(x + x_shift, y + y_shift)`, green kept in place, the blue channel
/// sampled from `(x - x_shift, y - y_shift)`, both wrapped around the
/// image; alpha is fixed at 255.
pub open spec fn desync_pixel(inp: Image, x: int, y: int, xs: int, ys: int) -> Pixel {
    let w = inp.width as int;
    let h = inp.height as int;
    Pixel {
        r: inp.rgba_at((x + xs) % w, (y + ys) % h).r,
        g: inp.rgba_at(x, y).g,
        b: inp.rgba_at((x - xs) % w, (y - ys) % h).b,
        a: 255u8,
    }
}

pub open spec fn desync_rel(inp: Image, out: Image, xs: int, ys: int) -> bool {
    &&& out.wf()
    &&& out.width == inp.width
    &&& out.height == inp.height
    &&& out.channels == 4
    &&& forall|x: int, y: int|
        0 <= x < inp.width && 0 <= y < inp.height ==> #[trigger] out.rgba_at(x, y) == desync_pixel(
            inp,
            x,
            y,
            xs,
            ys,
        )
}

/// The chromatic-aberration glitch: the red channel is sampled with the
/// shift added, green stays in place, the blue channel is sampled with
/// the shift subtracted, wrapping around the image.  With both shifts
/// zero the RGB channels pass through unchanged.
pub fn desync(img: &Image, x_shift: i32, y_shift: i32) -> (r: Result<Image, FxError>)
    requires
        img.wf(),
        fits_rgba(*img),
        img.width < 0x1_0000_0000,
        img.height < 0x1_0000_0000,
    ensures
        r is Ok,
        r matches Ok(out) ==> desync_rel(*img, out, x_shift as int, y_shift as int),
        r matches Ok(out) ==> ((x_shift == 0 && y_shift == 0) ==> forall|x: int, y: int|
            0 <= x < img.width && 0 <= y < img.height ==> #[trigger] out.rgba_at(x, y) == (Pixel {
                r: img.rgba_at(x, y).r,
                g: img.rgba_at(x, y).g,
                b: img.rgba_at(x, y).b,
                a: 255u8,
            })),
{
    let w = img.width;
    let h = img.height;
    let (out, results) = map_coords(
        w,
        h,
        4,
        (|x: usize, y: usize| -> (p: Pixel)
            requires
                (x < img.width) && (y < img.height) && img.wf() && (img.width < 0x1_0000_0000) && (
                img.height < 0x1_0000_0000),
            ensures
                (p == desync_pixel(*img, x as int, y as int, x_shift as int, y_shift as int)),
            {
                let wi = img.width as i64;
                let hi = img.height as i64;
                let rx = euclid_mod_i64(x as i64 + x_shift as i64, wi) as usize;
                let ry = euclid_mod_i64(y as i64 + y_shift as i64, hi) as usize;
                let bx = euclid_mod_i64(x as i64 - x_shift as i64, wi) as usize;
                let by = euclid_mod_i64(y as i64 - y_shift as i64, hi) as usize;
                let red = img.get_rgba(rx, ry);
                let here = img.get_rgba(x, y);
                let blue = img.get_rgba(bx, by);
                Pixel { r: red.r, g: here.g, b: blue.b, a: 255 }
            }),
    );
    proof {
        assert forall|x: int, y: int| 0 <= x < img.width && 0 <= y < img.height implies #[trigger] out.rgba_at(
            x,
            y,
        ) == desync_pixel(*img, x, y, x_shift as int, y_shift as int) by {
            let xu = x as usize;
            let yu = y as usize;
            let pp = results@[yu as int * w as int + xu as int];
            assert(out.at(x, y, 0) == pp.r && out.at(x, y, 1) == pp.g && out.at(x, y, 2) == pp.b
                && out.at(x, y, 3) == pp.a);
        }
        if x_shift == 0 && y_shift == 0 {
            assert forall|x: int, y: int|
                0 <= x < img.width && 0 <= y < img.height implies #[trigger] out.rgba_at(x, y)
                == (Pixel {
                r: img.rgba_at(x, y).r,
                g: img.rgba_at(x, y).g,
                b: img.rgba_at(x, y).b,
                a: 255u8,
            }) by {
                vstd::arithmetic::div_mod::lemma_small_mod(x as nat, img.width as nat);
                vstd::arithmetic::div_mod::lemma_small_mod(y as nat, img.height as nat);
            }
        }
    }
    Ok(out)
}

/// One channel of a pixel by index: 0 red, 1 green, 2 blue, 3 alpha.
pub open spec fn px_ch(p: Pixel, c: int) -> u8 {
    if c == 0 {
        p.r
    } else if c == 1 {
        p.g
    } else if c == 2 {
        p.b
    } else {
        p.a
    }
}

#[derive(Clone, Copy, PartialEq, Eq, Structural, Debug)]
pub enum WindDir {
    Up,
    Down,
    Left,
    Right,
    /// Any other string: the smear degenerates to sampling the pixel
    /// itself, leaving the image unchanged.
    Other,
}

pub open spec fn spec_parse_wind(s: Seq<u8>) -> WindDir {
    if s == "up".spec_bytes() {
        WindDir::Up
    } else if s == "down".spec_bytes() {
        WindDir::Down
    } else if s == "left".spec_bytes() {
        WindDir::Left
    } else if s == "right".spec_bytes() {
        WindDir::Right
    } else {
        WindDir::Other
    }
}

/// The wind direction as the filter reads it: the exact string, with no
/// trimming or case folding.
pub fn parse_wind_direction(dir: &str) -> (d: WindDir)
    ensures
        d == spec_parse_wind(dir.spec_bytes()),
{
    let b = dir.as_bytes();
    if crate::text::bytes_eq(b, "up".as_bytes()) {
        WindDir::Up
    } else if crate::text::bytes_eq(b, "down".as_bytes()) {
        WindDir::Down
    } else if crate::text::bytes_eq(b, "left".as_bytes()) {
        WindDir::Left
    } else if crate::text::bytes_eq(b, "right".as_bytes()) {
        WindDir::Right
    } else {
        WindDir::Other
    }
}

/// The column sampled `i` steps into the wind from `x`, clamped at the
/// image edge.
pub open spec fn wind_sx(d: WindDir, x: int, i: int, w: int) -> int {
    match d {
        WindDir::Left => if x + i <= w - 1 {
            x + i
        } else {
            w - 1
        },
        WindDir::Right => if x >= i {
            x - i
        } else {
            0
        },
        _ => x,
    }
}

pub open spec fn wind_sy(d: WindDir, y: int, i: int, h: int) -> int {
    match d {
        WindDir::Up => if y + i <= h - 1 {
            y + i
        } else {
            h - 1
        },
        WindDir::Down => if y >= i {
            y - i
        } else {
            0
        },
        _ => y,
    }
}

/// The sum of channel `c` over the first `k` wind samples.
pub open spec fn wind_sum(inp: Image, d: WindDir, x: int, y: int, c: int, k: int) -> int
    decreases k,
{
    if k <= 0 {
        0
    } else {
        wind_sum(inp, d, x, y, c, k - 1) + px_ch(
            inp.rgba_at(
                wind_sx(d, x, k - 1, inp.width as int),
                wind_sy(d, y, k - 1, inp.height as int),
            ),
            c,
        )
    }
}

proof fn lemma_wind_sum_bound(inp: Image, d: WindDir, x: int, y: int, c: int, k: int)
    requires
        k >= 0,
    ensures
        0 <= wind_sum(inp, d, x, y, c, k) <= 255 * k,
    decreases k,
{
    if k > 0 {
        lemma_wind_sum_bound(inp, d, x, y, c, k - 1);
    }
}

/// The smeared pixel: each channel averages `strength` samples stepping
/// into the wind, division truncating.
pub open spec fn wind_pixel(inp: Image, d: WindDir, x: int, y: int, strength: int) -> Pixel {
    Pixel {
        r: (wind_sum(inp, d, x, y, 0, strength) / strength) as u8,
        g: (wind_sum(inp, d, x, y, 1, strength) / strength) as u8,
        b: (wind_sum(inp, d, x, y, 2, strength) / strength) as u8,
        a: (wind_sum(inp, d, x, y, 3, strength) / strength) as u8,
    }
}

pub open spec fn wind_rel(inp: Image, out: Image, d: WindDir, strength: int) -> bool {
    &&& out.wf()
    &&& out.width == inp.width
    &&& out.height == inp.height
    &&& out.channels == 4
    &&& forall|x: int, y: int|
        0 <= x < inp.width && 0 <= y < inp.height ==> #[trigger] out.rgba_at(x, y) == wind_pixel(
            inp,
            d,
            x,
            y,
            strength,
        )
}

/// The directional smear: each output pixel is the average of `strength`
/// samples taken stepping in the given direction, clamped at the image
/// bounds.  An unrecognized direction samples the pixel itself.  A
/// strength of zero has nothing to average and is rejected.
pub fn wind(img: &Image, direction: &str, strength: u32) -> (r: Result<Image, FxError>)
    requires
        img.wf(),
        fits_rgba(*img),
        img.width < 0x1_0000_0000,
        img.height < 0x1_0000_0000,
    ensures
        strength == 0 <==> r is Err,
        r is Err ==> r == Result::<Image, FxError>::Err(FxError::WindStrengthZero),
        r matches Ok(out) ==> wind_rel(
            *img,
            out,
            spec_parse_wind(direction.spec_bytes()),
            strength as int,
        ),
{
    if strength == 0 {
        return Err(FxError::WindStrengthZero);
    }
    let d = parse_wind_direction(direction);
    let w = img.width;
    let h = img.height;
    let (out, results) = map_coords(
        w,
        h,
        4,
        (|x: usize, y: usize| -> (p: Pixel)
            requires
                (x < img.width) && (y < img.height) && img.wf() && (strength >= 1) && (img.width
                    < 0x1_0000_0000) && (img.height < 0x1_0000_0000),
            ensures
                (p == wind_pixel(*img, d, x as int, y as int, strength as int)),
            {
                let mut sr: u64 = 0;
                let mut sg: u64 = 0;
                let mut sb: u64 = 0;
                let mut sa: u64 = 0;
                let mut i: u32 = 0;
                while i < strength
                    invariant
                        i <= strength,
                        x < img.width,
                        y < img.height,
                        img.wf(),
                        img.width < 0x1_0000_0000,
                        img.height < 0x1_0000_0000,
                        sr == wind_sum(*img, d, x as int, y as int, 0, i as int),
                        sg == wind_sum(*img, d, x as int, y as int, 1, i as int),
                        sb == wind_sum(*img, d, x as int, y as int, 2, i as int),
                        sa == wind_sum(*img, d, x as int, y as int, 3, i as int),
                        sr <= 255 * (i as u64),
                        sg <= 255 * (i as u64),
                        sb <= 255 * (i as u64),
                        sa <= 255 * (i as u64),
                    decreases strength - i,
                {
                    let (sx, sy): (usize, usize) = match d {
                        WindDir::Left => {
                            let t = (x as u64) + (i as u64);
                            if t < img.width as u64 {
                                (t as usize, y)
                            } else {
                                (img.width - 1, y)
                            }
                        },
                        WindDir::Right => {
                            if x >= (i as usize) {
                                (x - (i as usize), y)
                            } else {
                                (0, y)
                            }
                        },
                        WindDir::Up => {
                            let t = (y as u64) + (i as u64);
                            if t < img.height as u64 {
                                (x, t as usize)
                            } else {
                                (x, img.height - 1)
                            }
                        },
                        WindDir::Down => {
                            if y >= (i as usize) {
                                (x, y - (i as usize))
                            } else {
                                (x, 0)
                            }
                        },
                        WindDir::Other => (x, y),
                    };
                    proof {
                        assert(sx as int == wind_sx(d, x as int, i as int, img.width as int)
                            && sy as int == wind_sy(d, y as int, i as int, img.height as int));
                    }
                    let q = img.get_rgba(sx, sy);
                    sr = sr + (q.r as u64);
                    sg = sg + (q.g as u64);
                    sb = sb + (q.b as u64);
                    sa = sa + (q.a as u64);
                    i = i + 1;
                }
                proof {
                    assert(sr / (strength as u64) <= 255 && sg / (strength as u64) <= 255 && sb / (
                    strength as u64) <= 255 && sa / (strength as u64) <= 255) by (nonlinear_arith)
                        requires
                            strength >= 1,
                            sr <= 255 * (strength as u64),
                            sg <= 255 * (strength as u64),
                            sb <= 255 * (strength as u64),
                            sa <= 255 * (strength as u64),
                    ;
                }
                Pixel {
                    r: (sr / (strength as u64)) as u8,
                    g: (sg / (strength as u64)) as u8,
                    b: (sb / (strength as u64)) as u8,
                    a: (sa / (strength as u64)) as u8,
                }
            }),
    );
    proof {
        assert forall|x: int, y: int| 0 <= x < img.width && 0 <= y < img.height implies #[trigger] out.rgba_at(
            x,
            y,
        ) == wind_pixel(*img, d, x, y, strength as int) by {
            let xu = x as usize;
            let yu = y as usize;
            let pp = results@[yu as int * w as int + xu as int];
            assert(out.at(x, y, 0) == pp.r && out.at(x, y, 1) == pp.g && out.at(x, y, 2) == pp.b
                && out.at(x, y, 3) == pp.a);
        }
    }
    Ok(out)
}

/// Truncating division, the rounding a cast to an integer applies to a
/// real-valued position; meaningful for `b > 0`.
pub open spec fn trunc_div(a: int, b: int) -> int {
    if a >= 0 {
        a / b
    } else {
        -((-a) / b)
    }
}

fn trunc_div_i64(a: i64, b: i64) -> (q: i64)
    requires
        1 <= b,
        -(i64::MAX) <= a,
    ensures
        q == trunc_div(a as int, b as int),
{
    if a >= 0 {
        ((a as u64) / (b as u64)) as i64
    } else {
        -((((-a) as u64) / (b as u64)) as i64)
    }
}

/// Whether `(x, y)` lies on a scan line: the position along the line
/// direction, on the thousandths grid, truncated and taken modulo the
/// period, falls within the line thickness.
pub open spec fn on_scan_line(x: int, y: int, cm: int, sm: int, th: int, sp: int) -> bool {
    trunc_div(x * cm + y * sm, 1000) % (th + sp) < th
}

/// A scan-line pixel has its RGB scaled by one minus the opacity; other
/// pixels pass through.
pub open spec fn scan_pixel(p: Pixel, on: bool, om: int) -> Pixel {
    if on {
        Pixel {
            r: clamp255(trunc_div((1000 - om) * p.r, 1000)),
            g: clamp255(trunc_div((1000 - om) * p.g, 1000)),
            b: clamp255(trunc_div((1000 - om) * p.b, 1000)),
            a: p.a,
        }
    } else {
        p
    }
}

pub open spec fn scan_rel(
    inp: Image,
    out: Image,
    cm: int,
    sm: int,
    th: int,
    sp: int,
    om: int,
) -> bool {
    &&& out.wf()
    &&& out.width == inp.width
    &&& out.height == inp.height
    &&& out.channels == 4
    &&& forall|x: int, y: int|
        0 <= x < inp.width && 0 <= y < inp.height ==> #[trigger] out.rgba_at(x, y) == scan_pixel(
            inp.rgba_at(x, y),
            on_scan_line(x, y, cm, sm, th, sp),
            om,
        )
}

pub open spec fn resolved_in(o: Option<u32>, v: int, lo: int, hi: int) -> bool {
    match o {
        Some(t) => v == t,
        None => lo <= v <= hi,
    }
}

pub open spec fn resolved_opacity(o: Option<i64>, v: int) -> bool {
    match o {
        Some(t) => v == t,
        None => 300 <= v <= 700,
    }
}

/// Darken pixels lying on evenly spaced lines across the image.  The line
/// direction comes in as the cosine and sine of the angle, in
/// thousandths; an absent thickness, spacing or opacity is drawn at
/// random from its documented range.  A zero period, which only explicit
/// zero thickness and spacing produce, is rejected.
pub fn scan_lines(
    img: &Image,
    line_thickness: Option<u32>,
    line_spacing: Option<u32>,
    cos_milli: i64,
    sin_milli: i64,
    opacity_milli: Option<i64>,
    rng: &mut rand::rngs::ThreadRng,
) -> (r: Result<Image, FxError>)
    requires
        img.wf(),
        fits_rgba(*img),
        img.width < 0x1_0000_0000,
        img.height < 0x1_0000_0000,
        -2000 <= cos_milli <= 2000,
        -2000 <= sin_milli <= 2000,
    ensures
        (line_thickness == Some(0u32) && line_spacing == Some(0u32)) <==> r is Err,
        r is Err ==> r == Result::<Image, FxError>::Err(FxError::ScanLinePeriodZero),
        r matches Ok(out) ==> exists|th: int, sp: int, om: int|
            #![trigger resolved_in(line_thickness, th, 1, 5), resolved_in(line_spacing, sp, 5, 20), resolved_opacity(opacity_milli, om)]
            resolved_in(line_thickness, th, 1, 5) && resolved_in(line_spacing, sp, 5, 20)
                && resolved_opacity(opacity_milli, om) && th + sp >= 1 && scan_rel(
                *img,
                out,
                cos_milli as int,
                sin_milli as int,
                th,
                sp,
                om,
            ),
{
    let th: u32 = match line_thickness {
        Some(t) => t,
        None => rng_range(rng, 1, 6) as u32,
    };
    let sp: u32 = match line_spacing {
        Some(t) => t,
        None => rng_range(rng, 5, 21) as u32,
    };
    let om: i64 = match opacity_milli {
        Some(t) => t,
        None => rng_range(rng, 300, 701),
    };
    if th == 0 && sp == 0 {
        return Err(FxError::ScanLinePeriodZero);
    }
    let w = img.width;
    let h = img.height;
    let (out, results) = map_coords(
        w,
        h,
        4,
        (|x: usize, y: usize| -> (p: Pixel)
            requires
                (x < img.width) && (y < img.height) && img.wf() && (img.width < 0x1_0000_0000) && (
                img.height < 0x1_0000_0000) && (-2000 <= cos_milli <= 2000) && (-2000 <= sin_milli
                    <= 2000) && ((th as int) + (sp as int) >= 1),
            ensures
                (p == scan_pixel(
                    img.rgba_at(x as int, y as int),
                    on_scan_line(
                        x as int,
                        y as int,
                        cos_milli as int,
                        sin_milli as int,
                        th as int,
                        sp as int,
                    ),
                    om as int,
                )),
            {
                proof {
                    assert(-(0x1_0000_0000 * 2000) <= (x as int) * (cos_milli as int) <= 0x1_0000_0000
                        * 2000 && -(0x1_0000_0000 * 2000) <= (y as int) * (sin_milli as int)
                        <= 0x1_0000_0000 * 2000) by (nonlinear_arith)
                        requires
                            0 <= x < 0x1_0000_0000,
                            0 <= y < 0x1_0000_0000,
                            -2000 <= cos_milli <= 2000,
                            -2000 <= sin_milli <= 2000,
                    ;
                }
                let pos = trunc_div_i64(
                    (x as i64) * cos_milli + (y as i64) * sin_milli,
                    1000,
                );
                let m = euclid_mod_i64(pos, (th as i64) + (sp as i64));
                let q = img.get_rgba(x, y);
                if m < th as i64 {
                    Pixel {
                        r: scan_channel(q.r, om),
                        g: scan_channel(q.g, om),
                        b: scan_channel(q.b, om),
                        a: q.a,
                    }
                } else {
                    q
                }
            }),
    );
    proof {
        assert forall|x: int, y: int| 0 <= x < img.width && 0 <= y < img.height implies #[trigger] out.rgba_at(
            x,
            y,
        ) == scan_pixel(
            img.rgba_at(x, y),
            on_scan_line(x, y, cos_milli as int, sin_milli as int, th as int, sp as int),
            om as int,
        ) by {
            let xu = x as usize;
            let yu = y as usize;
            let pp = results@[yu as int * w as int + xu as int];
            assert(out.at(x, y, 0) == pp.r && out.at(x, y, 1) == pp.g && out.at(x, y, 2) == pp.b
                && out.at(x, y, 3) == pp.a);
        }
        assert(scan_rel(
            *img,
            out,
            cos_milli as int,
            sin_milli as int,
            th as int,
            sp as int,
            om as int,
        ));
        assert(resolved_in(line_thickness, th as int, 1, 5) && resolved_in(
            line_spacing,
            sp as int,
            5,
            20,
        ) && resolved_opacity(opacity_milli, om as int) && th as int + sp as int >= 1);
    }
    Ok(out)
}

fn scan_channel(v: u8, om: i64) -> (r: u8)
    ensures
        r == clamp255(trunc_div((1000 - om as int) * v, 1000)),
{
    proof {
        assert(-(0x8000_0000_0000_0000 * 256) <= (1000 - om as int) * (v as int) && (1000
            - om as int) * (v as int) <= 0x8000_0000_0000_0000 * 256 + 255000) by (nonlinear_arith)
            requires
                -0x8000_0000_0000_0000 <= om as int <= 0x7FFF_FFFF_FFFF_FFFF,
                0 <= v <= 255,
        ;
    }
    let t: i128 = ((1000 - (om as i128))) * (v as i128);
    let q: i128 = if t >= 0 {
        ((t as u128) / 1000) as i128
    } else {
        -((((-t) as u128) / 1000) as i128)
    };
    crate::arith::clamp_i128(q)
}

/// A fully random color with opaque alpha stands in for a copied pixel
/// when the glitch is noisy; nothing is assumed of the channels drawn.
pub fn noisy_pixels(_pixel: Pixel, rng: &mut rand::rngs::ThreadRng) -> (p: Pixel)
    ensures
        p.a == 255,
{
    Pixel {
        r: rng_range(rng, 0, 256) as u8,
        g: rng_range(rng, 0, 256) as u8,
        b: rng_range(rng, 0, 256) as u8,
        a: 255,
    }
}

/// How one pixel of a glitched band relates to its sources: inside the
/// band a copy of the source image shifted along the band with wraparound
/// (or, when noisy, an arbitrary color with opaque alpha); outside the
/// band the previous value.
pub open spec fn band_px(
    img: Image,
    prev: Image,
    vert: bool,
    start: int,
    len: int,
    off: int,
    noisy: bool,
    x: int,
    y: int,
    q: Pixel,
) -> bool {
    let inb = if vert {
        start <= x < start + len
    } else {
        start <= y < start + len
    };
    if inb {
        if noisy {
            q.a == 255
        } else {
            if vert {
                q == img.rgba_at(x, (y + off) % (img.height as int))
            } else {
                q == img.rgba_at((x + off) % (img.width as int), y)
            }
        }
    } else {
        q == prev.rgba_at(x, y)
    }
}

/// Rebuild an image with one glitch band applied; every other pixel keeps
/// the previous value.
fn rebuild_band(
    prev: &Image,
    img: &Image,
    vert: bool,
    start: u32,
    len: u32,
    off: i64,
    noisy: bool,
    rng: &mut rand::rngs::ThreadRng,
) -> (out: Image)
    requires
        img.wf(),
        prev.wf(),
        prev.width == img.width,
        prev.height == img.height,
        prev.channels == img.channels,
        img.channels == 3 || img.channels == 4,
        img.width < 0x1_0000_0000,
        img.height < 0x1_0000_0000,
        -0x8000_0000_0000 <= off <= 0x8000_0000_0000,
    ensures
        out.wf(),
        out.width == img.width,
        out.height == img.height,
        out.channels == img.channels,
        forall|x: int, y: int|
            0 <= x < img.width && 0 <= y < img.height ==> band_px(
                *img,
                *prev,
                vert,
                start as int,
                len as int,
                off as int,
                noisy,
                x,
                y,
                #[trigger] out.rgba_at(x, y),
            ),
{
    let width = img.width;
    let height = img.height;
    let ch = img.channels;
    let mut data: Vec<u8> = Vec::new();
    let mut y: usize = 0;
    while y < height
        invariant
            y <= height,
            img.wf(),
            prev.wf(),
            prev.width == img.width,
            prev.height == img.height,
            prev.channels == img.channels,
            width == img.width,
            height == img.height,
            ch == img.channels,
            ch == 3 || ch == 4,
            img.width < 0x1_0000_0000,
            img.height < 0x1_0000_0000,
            -0x8000_0000_0000 <= off <= 0x8000_0000_0000,
            data@.len() == (y * width) * ch,
            forall|xx: usize, yy: usize|
                #![trigger pix_idx(width as int, ch as int, xx as int, yy as int, 0)]
                xx < width && yy < y ==> band_px(
                    *img,
                    *prev,
                    vert,
                    start as int,
                    len as int,
                    off as int,
                    noisy,
                    xx as int,
                    yy as int,
                    crate::buffer::px_from_data(
                        data@,
                        width as int,
                        ch as int,
                        xx as int,
                        yy as int,
                    ),
                ),
        decreases height - y,
    {
        let mut x: usize = 0;
        proof {
            assert((y * width + width) * ch <= (height * width) * ch && (height * width) * ch
                == width * height * ch) by (nonlinear_arith)
                requires
                    y < height,
                    width >= 0,
                    ch >= 0,
            ;
        }
        while x < width
            invariant
                x <= width,
                y < height,
                img.wf(),
                prev.wf(),
                prev.width == img.width,
                prev.height == img.height,
                prev.channels == img.channels,
                width == img.width,
                height == img.height,
                ch == img.channels,
                ch == 3 || ch == 4,
                img.width < 0x1_0000_0000,
                img.height < 0x1_0000_0000,
                -0x8000_0000_0000 <= off <= 0x8000_0000_0000,
                data@.len() == (y * width + x) * ch,
                (y * width + width) * ch <= width * height * ch,
                forall|xx: usize, yy: usize|
                    #![trigger pix_idx(width as int, ch as int, xx as int, yy as int, 0)]
                    xx < width && (yy < y || (yy == y && xx < x)) ==> band_px(
                        *img,
                        *prev,
                        vert,
                        start as int,
                        len as int,
                        off as int,
                        noisy,
                        xx as int,
                        yy as int,
                        crate::buffer::px_from_data(
                            data@,
                            width as int,
                            ch as int,
                            xx as int,
                            yy as int,
                        ),
                    ),
            decreases width - x,
        {
            let inb: bool = if vert {
                (x as u64) >= (start as u64) && (x as u64) < (start as u64) + (len as u64)
            } else {
                (y as u64) >= (start as u64) && (y as u64) < (start as u64) + (len as u64)
            };
            let q: Pixel = if inb {
                if noisy {
                    noisy_pixels(Pixel { r: 0, g: 0, b: 0, a: 0 }, rng)
                } else {
                    if vert {
                        let sy = euclid_mod_i64(y as i64 + off, height as i64) as usize;
                        img.get_rgba(x, sy)
                    } else {
                        let sx = euclid_mod_i64(x as i64 + off, width as i64) as usize;
                        img.get_rgba(sx, y)
                    }
                }
            } else {
                prev.get_rgba(x, y)
            };
            proof {
                assert((y * width + x) * ch + ch == (y * width + (x + 1)) * ch && (y * width + (x
                    + 1)) * ch <= (y * width + width) * ch) by (nonlinear_arith)
                    requires
                        x < width,
                        ch >= 0,
                        y >= 0,
                        width >= 0,
                ;
                assert(band_px(
                    *img,
                    *prev,
                    vert,
                    start as int,
                    len as int,
                    off as int,
                    noisy,
                    x as int,
                    y as int,
                    q,
                ));
            }
            let ghost data0 = data@;
            data.push(q.r);
            data.push(q.g);
            data.push(q.b);
            if ch == 4 {
                data.push(q.a);
            }
            proof {
                let xi = x as int;
                let yi = y as int;
                assert(data0.len() == pix_idx(width as int, ch as int, xi, yi, 0));
                assert forall|xx: usize, yy: usize|
                    #![trigger pix_idx(width as int, ch as int, xx as int, yy as int, 0)]
                    xx < width && (yy < y || (yy == y && xx < x + 1)) implies band_px(
                    *img,
                    *prev,
                    vert,
                    start as int,
                    len as int,
                    off as int,
                    noisy,
                    xx as int,
                    yy as int,
                    crate::buffer::px_from_data(
                        data@,
                        width as int,
                        ch as int,
                        xx as int,
                        yy as int,
                    ),
                ) by {
                    if yy == y && xx == x {
                        assert(data@[pix_idx(width as int, ch as int, xi, yi, 0)] == q.r);
                        assert(data@[pix_idx(width as int, ch as int, xi, yi, 1)] == q.g);
                        assert(data@[pix_idx(width as int, ch as int, xi, yi, 2)] == q.b);
                        if ch == 4 {
                            assert(data@[pix_idx(width as int, ch as int, xi, yi, 3)] == q.a);
                        } else {
                            assert(q.a == 255);
                        }
                        assert(crate::buffer::px_from_data(
                            data@,
                            width as int,
                            ch as int,
                            xi,
                            yi,
                        ) == q);
                    } else {
                        lemma_pix_idx_lt(width as int, ch as int, xx as int, yy as int, 0, xi, yi, 0);
                        lemma_pix_idx_lt(width as int, ch as int, xx as int, yy as int, 1, xi, yi, 0);
                        lemma_pix_idx_lt(width as int, ch as int, xx as int, yy as int, 2, xi, yi, 0);
                        if ch == 4 {
                            lemma_pix_idx_lt(
                                width as int,
                                ch as int,
                                xx as int,
                                yy as int,
                                3,
                                xi,
                                yi,
                                0,
                            );
                        }
                        assert(crate::buffer::px_from_data(
                            data@,
                            width as int,
                            ch as int,
                            xx as int,
                            yy as int,
                        ) == crate::buffer::px_from_data(
                            data0,
                            width as int,
                            ch as int,
                            xx as int,
                            yy as int,
                        ));
                    }
                }
            }
            x = x + 1;
        }
        proof {
            assert((y * width + width) * ch == ((y + 1) * width) * ch) by (nonlinear_arith);
        }
        y = y + 1;
    }
    proof {
        assert((height * width) * ch == width * height * ch) by (nonlinear_arith);
    }
    let out = Image { width, height, channels: ch, data };
    proof {
        crate::arith::lemma_pix_idx_bound_all(width as int, height as int, ch as int);
        assert forall|x: int, y: int| 0 <= x < img.width && 0 <= y < img.height implies band_px(
            *img,
            *prev,
            vert,
            start as int,
            len as int,
            off as int,
            noisy,
            x,
            y,
            #[trigger] out.rgba_at(x, y),
        ) by {
            let xu = x as usize;
            let yu = y as usize;
            assert(band_px(
                *img,
                *prev,
                vert,
                start as int,
                len as int,
                off as int,
                noisy,
                xu as int,
                yu as int,
                crate::buffer::px_from_data(out.data@, width as int, ch as int, xu as int, yu as int),
            ));
            assert(out.rgba_at(x, y) == crate::buffer::px_from_data(
                out.data@,
                width as int,
                ch as int,
                x,
                y,
            ));
        }
    }
    out
}

/// Overlay one vertical glitch band: columns `[x, x + glitch_width)` are
/// re-sampled from the source image with the rows shifted by `offset`,
/// wrapping around; a noisy band takes arbitrary colors with opaque
/// alpha instead.
pub fn apply_vertical_glitch(
    output: &mut Image,
    img: &Image,
    x: u32,
    glitch_width: u32,
    offset: i64,
    noisy: bool,
    rng: &mut rand::rngs::ThreadRng,
)
    requires
        img.wf(),
        old(output).wf(),
        old(output).width == img.width,
        old(output).height == img.height,
        old(output).channels == img.channels,
        img.channels == 3 || img.channels == 4,
        img.width < 0x1_0000_0000,
        img.height < 0x1_0000_0000,
        -0x8000_0000_0000 <= offset <= 0x8000_0000_0000,
    ensures
        final(output).wf(),
        final(output).width == img.width,
        final(output).height == img.height,
        final(output).channels == img.channels,
        forall|xx: int, yy: int|
            0 <= xx < img.width && 0 <= yy < img.height ==> band_px(
                *img,
                *old(output),
                true,
                x as int,
                glitch_width as int,
                offset as int,
                noisy,
                xx,
                yy,
                #[trigger] final(output).rgba_at(xx, yy),
            ),
{
    let rebuilt = rebuild_band(output, img, true, x, glitch_width, offset, noisy, rng);
    *output = rebuilt;
}

/// Overlay one horizontal glitch band: rows `[y, y + glitch_height)` are
/// re-sampled from the source image with the columns shifted by `offset`,
/// wrapping around.
pub fn apply_horizontal_glitch(
    output: &mut Image,
    img: &Image,
    y: u32,
    glitch_height: u32,
    offset: i64,
    noisy: bool,
    rng: &mut rand::rngs::ThreadRng,
)
    requires
        img.wf(),
        old(output).wf(),
        old(output).width == img.width,
        old(output).height == img.height,
        old(output).channels == img.channels,
        img.channels == 3 || img.channels == 4,
        img.width < 0x1_0000_0000,
        img.height < 0x1_0000_0000,
        -0x8000_0000_0000 <= offset <= 0x8000_0000_0000,
    ensures
        final(output).wf(),
        final(output).width == img.width,
        final(output).height == img.height,
        final(output).channels == img.channels,
        forall|xx: int, yy: int|
            0 <= xx < img.width && 0 <= yy < img.height ==> band_px(
                *img,
                *old(output),
                false,
                y as int,
                glitch_height as int,
                offset as int,
                noisy,
                xx,
                yy,
                #[trigger] final(output).rgba_at(xx, yy),
            ),
{
    let rebuilt = rebuild_band(output, img, false, y, glitch_height, offset, noisy, rng);
    *output = rebuilt;
}

/// A pixel of the glitched image always comes from the source image, from
/// the same column or the same row.
pub open spec fn cross_px(img: Image, out: Image, x: int, y: int) -> bool {
    exists|sx: int, sy: int|
        0 <= sx < img.width && 0 <= sy < img.height && (sx == x || sy == y) && #[trigger] out.rgba_at(
            x,
            y,
        ) == img.rgba_at(sx, sy)
}

pub open spec fn glitch_provenance(img: Image, out: Image) -> bool {
    forall|x: int, y: int| 0 <= x < img.width && 0 <= y < img.height ==> #[trigger] cross_px(
        img,
        out,
        x,
        y,
    )
}

#[derive(Clone, Copy, PartialEq, Eq, Structural, Debug)]
pub enum GlitchDir {
    Vertical,
    Horizontal,
}

/// The glitch direction, matched after trimming, unquoting and lowering;
/// anything else is a hard validation error.
pub open spec fn spec_parse_glitch(s: Seq<u8>) -> Option<GlitchDir> {
    if crate::text::clean_bytes(s) == "vertical".spec_bytes() {
        Some(GlitchDir::Vertical)
    } else if crate::text::clean_bytes(s) == "horizontal".spec_bytes() {
        Some(GlitchDir::Horizontal)
    } else {
        None
    }
}

pub fn parse_glitch_direction(dir: &str) -> (d: Option<GlitchDir>)
    ensures
        d == spec_parse_glitch(dir.spec_bytes()),
{
    let cleaned = crate::text::clean_token(dir);
    if crate::text::bytes_eq(cleaned.as_slice(), "vertical".as_bytes()) {
        Some(GlitchDir::Vertical)
    } else if crate::text::bytes_eq(cleaned.as_slice(), "horizontal".as_bytes()) {
        Some(GlitchDir::Horizontal)
    } else {
        None
    }
}

/// Repeatedly displace random bands of the image: vertical bands shift
/// their rows, horizontal bands their columns, both with wraparound,
/// copying from the unmodified source image; a noisy glitch writes random
/// colors instead.  An unrecognized direction is a hard error, unlike the
/// warn-and-default fallbacks of the other string parameters.  With zero
/// glitches the image is returned unchanged; without noise every pixel of
/// the result still comes from the source image, from the same row or the
/// same column.
pub fn glitch(
    img: &Image,
    num_glitches: u32,
    max_offset: i32,
    direction: &str,
    noisy: bool,
    rng: &mut rand::rngs::ThreadRng,
) -> (r: Result<Image, FxError>)
    requires
        img.wf(),
        fits_rgba(*img),
        img.channels == 3 || img.channels == 4,
        img.width < 0x1_0000_0000,
        img.height < 0x1_0000_0000,
        num_glitches == 0 || max_offset >= 0,
        num_glitches == 0 || (img.width >= 1 && img.height >= 1),
    ensures
        num_glitches == 0 ==> (r matches Ok(out) && out.same_image(*img)),
        num_glitches >= 1 ==> (spec_parse_glitch(direction.spec_bytes()) is None <==> r is Err),
        r is Err ==> r == Result::<Image, FxError>::Err(FxError::InvalidGlitchDirection),
        r matches Ok(out) ==> {
            &&& out.wf()
            &&& out.width == img.width
            &&& out.height == img.height
            &&& out.channels == img.channels
            &&& num_glitches == 0 ==> out.same_image(*img)
            &&& !noisy ==> glitch_provenance(*img, out)
        },
{
    if num_glitches == 0 {
        // Zero glitches touch nothing; the direction string is never
        // examined, as the band loop is what reads it.
        let out = clone_image(img);
        proof {
            assert forall|x: int, y: int|
                0 <= x < img.width && 0 <= y < img.height implies #[trigger] cross_px(
                *img,
                out,
                x,
                y,
            ) by {
                assert(out.rgba_at(x, y) == img.rgba_at(x, y));
            }
        }
        return Ok(out);
    }
    let dir = match parse_glitch_direction(direction) {
        Some(d) => d,
        None => {
            return Err(FxError::InvalidGlitchDirection);
        },
    };
    let mut out = clone_image(img);
    proof {
        assert forall|x: int, y: int|
            0 <= x < img.width && 0 <= y < img.height implies #[trigger] cross_px(
            *img,
            out,
            x,
            y,
        ) by {
            assert(out.rgba_at(x, y) == img.rgba_at(x, y));
        }
    }
    let mut k: u32 = 0;
    while k < num_glitches
        invariant
            img.wf(),
            fits_rgba(*img),
            img.channels == 3 || img.channels == 4,
            img.width < 0x1_0000_0000,
            img.height < 0x1_0000_0000,
            num_glitches >= 1,
            max_offset >= 0,
            img.width >= 1 && img.height >= 1,
            out.wf(),
            out.width == img.width,
            out.height == img.height,
            out.channels == img.channels,
            k <= num_glitches,
            num_glitches == 0 ==> out.same_image(*img),
            !noisy ==> glitch_provenance(*img, out),
        decreases num_glitches - k,
    {
        let start: u32 = if matches!(dir, GlitchDir::Vertical) {
            rng_range(rng, 0, img.width as i64) as u32
        } else {
            rng_range(rng, 0, img.height as i64) as u32
        };
        let len: u32 = rng_range(rng, 1, 20) as u32;
        let off: i64 = rng_range(rng, -(max_offset as i64), max_offset as i64 + 1);
        let ghost prev = out;
        if matches!(dir, GlitchDir::Vertical) {
            apply_vertical_glitch(&mut out, img, start, len, off, noisy, rng);
        } else {
            apply_horizontal_glitch(&mut out, img, start, len, off, noisy, rng);
        }
        proof {
            if !noisy {
                assert forall|x: int, y: int|
                    0 <= x < img.width && 0 <= y < img.height implies #[trigger] cross_px(
                    *img,
                    out,
                    x,
                    y,
                ) by {
                    let vert = matches!(dir, GlitchDir::Vertical);
                    assert(band_px(
                        *img,
                        prev,
                        vert,
                        start as int,
                        len as int,
                        off as int,
                        noisy,
                        x,
                        y,
                        out.rgba_at(x, y),
                    ));
                    let inb = if vert {
                        start <= x < start + len
                    } else {
                        start <= y < start + len
                    };
                    if inb {
                        if vert {
                            let sy = (y + off as int) % (img.height as int);
                            vstd::arithmetic::div_mod::lemma_mod_bound(
                                y + off as int,
                                img.height as int,
                            );
                            assert(out.rgba_at(x, y) == img.rgba_at(x, sy));
                        } else {
                            let sx = (x + off as int) % (img.width as int);
                            vstd::arithmetic::div_mod::lemma_mod_bound(
                                x + off as int,
                                img.width as int,
                            );
                            assert(out.rgba_at(x, y) == img.rgba_at(sx, y));
                        }
                    } else {
                        assert(cross_px(*img, prev, x, y));
                        let (sx, sy) = choose|sx: int, sy: int|
                            0 <= sx < img.width && 0 <= sy < img.height && (sx == x || sy == y)
                                && #[trigger] prev.rgba_at(x, y) == img.rgba_at(sx, sy);
                        assert(out.rgba_at(x, y) == img.rgba_at(sx, sy));
                    }
                }
            }
        }
        k = k + 1;
    }
    Ok(out)
}

/// Per-pixel brightness: the mean of the RGB channels.
pub open spec fn brightness_of(p: Pixel) -> int {
    (p.r + p.g + p.b) / 3
}

/// The sort key that pins below-threshold pixels to the start of a run,
/// keeps in-band pixels ordered by brightness, and pins above-threshold
/// pixels to the end.
pub open spec fn sort_key(b: int, lo: u8, hi: u8) -> int {
    if lo <= b <= hi {
        b
    } else if b < lo {
        lo - 1
    } else {
        255
    }
}

fn brightness_exec(p: Pixel) -> (b: u8)
    ensures
        b == brightness_of(p),
{
    (((p.r as u32) + (p.g as u32) + (p.b as u32)) / 3) as u8
}

fn sort_key_exec(p: Pixel, lo: u8, hi: u8) -> (k: i32)
    ensures
        k == sort_key(brightness_of(p), lo, hi),
{
    let b = brightness_exec(p);
    if lo <= b && b <= hi {
        b as i32
    } else if b < lo {
        (lo as i32) - 1
    } else {
        255
    }
}

/// `out_run` rearranges `inp_run`: the same pixels as a multiset, in
/// non-decreasing key order.
pub open spec fn run_sorted(inp_run: Seq<Pixel>, out_run: Seq<Pixel>, lo: u8, hi: u8) -> bool {
    &&& out_run.len() == inp_run.len()
    &&& out_run.to_multiset() == inp_run.to_multiset()
    &&& forall|i: int, j: int|
        0 <= i <= j < out_run.len() ==> sort_key(brightness_of(#[trigger] out_run[i]), lo, hi)
            <= sort_key(brightness_of(#[trigger] out_run[j]), lo, hi)
    &&& exists|perm: Seq<int>| #[trigger] stable_perm(inp_run, out_run, perm, lo, hi)
}

/// A witness that `out_run` is `inp_run` stably sorted: position `i` of
/// the output holds input position `perm[i]`, the positions are all
/// distinct, the keys are non-decreasing along the output, and pixels
/// with equal keys keep their original order.
pub open spec fn stable_perm(
    inp_run: Seq<Pixel>,
    out_run: Seq<Pixel>,
    perm: Seq<int>,
    lo: u8,
    hi: u8,
) -> bool {
    &&& out_run.len() == inp_run.len()
    &&& perm.len() == inp_run.len()
    &&& forall|i: int| 0 <= i < perm.len() ==> 0 <= #[trigger] perm[i] < inp_run.len()
    &&& forall|i: int, j: int| 0 <= i < j < perm.len() ==> #[trigger] perm[i] != #[trigger] perm[j]
    &&& forall|i: int| 0 <= i < out_run.len() ==> #[trigger] out_run[i] == inp_run[perm[i]]
    &&& forall|i: int, j: int|
        0 <= i < j < out_run.len() && sort_key(brightness_of(#[trigger] out_run[i]), lo, hi)
            == sort_key(brightness_of(#[trigger] out_run[j]), lo, hi) ==> perm[i] < perm[j]
}

/// Sort one run of pixels by key, smallest first, by repeatedly moving an
/// earliest minimal element across; the order is total so the result is
/// non-decreasing and a permutation of the input.
fn sort_chunk(v: Vec<Pixel>, lo: u8, hi: u8) -> (out: Vec<Pixel>)
    ensures
        run_sorted(v@, out@, lo, hi),
        forall|i: int| 0 <= i < out@.len() ==> v@.contains(#[trigger] out@[i]),
{
    broadcast use vstd::seq_lib::group_to_multiset_ensures;

    let mut rest = v;
    let mut out: Vec<Pixel> = Vec::new();
    let ghost all = rest@;
    // `idxs[t]` is the original position of `rest[t]`; `perm[i]` the
    // original position of `out[i]`.  Keeping both pins stability: the
    // earliest minimum is extracted, so equal keys leave in input order.
    let ghost mut idxs: Seq<int> = Seq::new(all.len(), |i: int| i);
    let ghost mut perm: Seq<int> = Seq::empty();
    proof {
        assert(out@.to_multiset().add(rest@.to_multiset()) =~= all.to_multiset());
    }
    while rest.len() > 0
        invariant
            out@.len() + rest@.len() == all.len(),
            out@.to_multiset().add(rest@.to_multiset()) == all.to_multiset(),
            idxs.len() == rest@.len(),
            perm.len() == out@.len(),
            forall|t: int|
                0 <= t < idxs.len() ==> 0 <= #[trigger] idxs[t] < all.len() && rest@[t]
                    == all[idxs[t]],
            forall|t1: int, t2: int| 0 <= t1 < t2 < idxs.len() ==> idxs[t1] < idxs[t2],
            forall|i: int|
                0 <= i < perm.len() ==> 0 <= #[trigger] perm[i] < all.len() && out@[i]
                    == all[perm[i]],
            forall|i: int, j: int| 0 <= i < j < perm.len() ==> #[trigger] perm[i] != #[trigger] perm[j],
            forall|i: int, t: int|
                0 <= i < perm.len() && 0 <= t < idxs.len() ==> #[trigger] perm[i]
                    != #[trigger] idxs[t],
            forall|i: int, j: int|
                0 <= i <= j < out@.len() ==> sort_key(brightness_of(#[trigger] out@[i]), lo, hi)
                    <= sort_key(brightness_of(#[trigger] out@[j]), lo, hi),
            forall|i: int, j: int|
                0 <= i < out@.len() && 0 <= j < rest@.len() ==> sort_key(
                    brightness_of(#[trigger] out@[i]),
                    lo,
                    hi,
                ) <= sort_key(brightness_of(#[trigger] rest@[j]), lo, hi),
            forall|i: int, j: int|
                0 <= i < j < out@.len() && sort_key(brightness_of(#[trigger] out@[i]), lo, hi)
                    == sort_key(brightness_of(#[trigger] out@[j]), lo, hi) ==> perm[i] < perm[j],
            forall|i: int, t: int|
                0 <= i < out@.len() && 0 <= t < rest@.len() && sort_key(
                    brightness_of(#[trigger] out@[i]),
                    lo,
                    hi,
                ) == sort_key(brightness_of(#[trigger] rest@[t]), lo, hi) ==> perm[i] < idxs[t],
        decreases rest@.len(),
    {
        let mut mi: usize = 0;
        let mut mk: i32 = sort_key_exec(rest[0], lo, hi);
        let mut j: usize = 1;
        while j < rest.len()
            invariant
                mi < j <= rest@.len(),
                rest@.len() > 0,
                mk == sort_key(brightness_of(rest@[mi as int]), lo, hi),
                forall|t: int|
                    0 <= t < j ==> mk <= sort_key(brightness_of(#[trigger] rest@[t]), lo, hi),
                forall|t: int|
                    0 <= t < mi ==> mk < sort_key(brightness_of(#[trigger] rest@[t]), lo, hi),
            decreases rest@.len() - j,
        {
            let k = sort_key_exec(rest[j], lo, hi);
            if k < mk {
                mi = j;
                mk = k;
            }
            j = j + 1;
        }
        let ghost rest0 = rest@;
        let ghost out0 = out@;
        let ghost idxs0 = idxs;
        let ghost perm0 = perm;
        let e = rest.remove(mi);
        out.push(e);
        proof {
            perm = perm.push(idxs0[mi as int]);
            idxs = idxs0.remove(mi as int);
            rest0.to_multiset_ensures();
            out0.to_multiset_ensures();
            assert(rest@ == rest0.remove(mi as int));
            assert(rest0.remove(mi as int).to_multiset() =~= rest0.to_multiset().remove(
                rest0[mi as int],
            ));
            assert(out@ == out0.push(e));
            assert(out0.push(e).to_multiset() =~= out0.to_multiset().insert(e));
            assert(rest0.to_multiset().count(e) >= 1) by {
                assert(rest0[mi as int] == e);
                assert(rest0.contains(e));
            }
            assert(rest@.to_multiset() =~= rest0.to_multiset().remove(e));
            assert(out@.to_multiset() =~= out0.to_multiset().insert(e));
            assert(out@.to_multiset().add(rest@.to_multiset()) =~= all.to_multiset());
            assert forall|i: int, jx: int|
                0 <= i < out@.len() && 0 <= jx < rest@.len() implies sort_key(
                brightness_of(#[trigger] out@[i]),
                lo,
                hi,
            ) <= sort_key(brightness_of(#[trigger] rest@[jx]), lo, hi) by {
                if jx < mi {
                    assert(rest@[jx] == rest0[jx]);
                } else {
                    assert(rest@[jx] == rest0[jx + 1]);
                }
            }
            // The extracted pixel's original position sits below every
            // remaining position of an equal key: equal keys before `mi`
            // are excluded by the strict scan, and positions after `mi`
            // carry larger original indices.
            assert forall|i: int, t: int|
                0 <= i < out@.len() && 0 <= t < rest@.len() && sort_key(
                    brightness_of(#[trigger] out@[i]),
                    lo,
                    hi,
                ) == sort_key(brightness_of(#[trigger] rest@[t]), lo, hi) implies perm[i]
                < idxs[t] by {
                if t < mi {
                    assert(rest@[t] == rest0[t]);
                    assert(idxs[t] == idxs0[t]);
                } else {
                    assert(rest@[t] == rest0[t + 1]);
                    assert(idxs[t] == idxs0[t + 1]);
                }
                if i < out0.len() {
                    assert(out@[i] == out0[i]);
                    assert(perm[i] == perm0[i]);
                } else {
                    assert(out@[i] == e && perm[i] == idxs0[mi as int]);
                    if t < mi {
                        assert(sort_key(brightness_of(rest0[t]), lo, hi) > sort_key(
                            brightness_of(e),
                            lo,
                            hi,
                        ));
                    } else {
                        assert(idxs0[mi as int] < idxs0[t + 1]);
                    }
                }
            }
            assert forall|i: int, j2: int|
                0 <= i < j2 < out@.len() && sort_key(brightness_of(#[trigger] out@[i]), lo, hi)
                    == sort_key(brightness_of(#[trigger] out@[j2]), lo, hi) implies perm[i]
                < perm[j2] by {
                if j2 < out0.len() {
                    assert(out@[i] == out0[i] && out@[j2] == out0[j2]);
                } else {
                    assert(out@[j2] == e && perm[j2] == idxs0[mi as int]);
                    assert(out@[i] == out0[i] && perm[i] == perm0[i]);
                }
            }
        }
    }
    proof {
        assert(rest@.to_multiset() =~= Multiset::empty());
        assert(out@.to_multiset().add(Multiset::empty()) =~= out@.to_multiset());
        assert forall|i: int| 0 <= i < out@.len() implies all.contains(#[trigger] out@[i]) by {
            assert(out@.to_multiset().count(out@[i]) >= 1) by {
                assert(out@.contains(out@[i]));
            }
            assert(all.to_multiset().count(out@[i]) >= 1);
        }
        assert(stable_perm(all, out@, perm, lo, hi));
    }
    out
}

/// A row of an image as a sequence of RGB pixels with opaque alpha.
pub open spec fn row_px(img: Image, y: int) -> Seq<Pixel> {
    Seq::new(
        img.width as nat,
        |x: int|
            Pixel {
                r: img.rgba_at(x, y).r,
                g: img.rgba_at(x, y).g,
                b: img.rgba_at(x, y).b,
                a: 255u8,
            },
    )
}

/// The effective window length: zero or a window at least as wide as the
/// image sorts the whole row.
pub open spec fn effective_window(win: int, w: int) -> int {
    if win == 0 || win >= w {
        w
    } else {
        win
    }
}

/// The end of the aligned window starting at `s`.
pub open spec fn window_end(s: int, we: int, w: int) -> int {
    if s + we < w {
        s + we
    } else {
        w
    }
}

/// Every aligned window of every row of `out` is the corresponding window
/// of `inp` sorted by the thresholded brightness key.
pub open spec fn sort_pixels_rel(inp: Image, out: Image, lo: u8, hi: u8, win: int) -> bool {
    let w = inp.width as int;
    let we = effective_window(win, w);
    &&& out.wf()
    &&& out.width == inp.width
    &&& out.height == inp.height
    &&& out.channels == 3
    &&& forall|y: int, s: int|
        0 <= y < inp.height && 0 <= s < w && s % we == 0 ==> #[trigger] run_sorted(
            row_px(inp, y).subrange(s, window_end(s, we, w)),
            row_px(out, y).subrange(s, window_end(s, we, w)),
            lo,
            hi,
        )
}

/// With a window that covers the whole row, every full row of the output
/// is the input row sorted by the key: pixels below the threshold band
/// pinned to the start, in-band pixels in non-decreasing brightness
/// order, pixels above the band pinned to the end.
pub proof fn lemma_full_row_sort(inp: Image, out: Image, lo: u8, hi: u8, win: int)
    requires
        sort_pixels_rel(inp, out, lo, hi, win),
        win == 0 || win >= inp.width,
        inp.width >= 1,
    ensures
        forall|y: int|
            0 <= y < inp.height ==> #[trigger] run_sorted(row_px(inp, y), row_px(out, y), lo, hi),
{
    let w = inp.width as int;
    assert forall|y: int| 0 <= y < inp.height implies #[trigger] run_sorted(
        row_px(inp, y),
        row_px(out, y),
        lo,
        hi,
    ) by {
        assert(effective_window(win, w) == w);
        vstd::arithmetic::div_mod::lemma_small_mod(0, w as nat);
        assert(run_sorted(
            row_px(inp, y).subrange(0, window_end(0, w, w)),
            row_px(out, y).subrange(0, window_end(0, w, w)),
            lo,
            hi,
        ));
        assert(row_px(inp, y).subrange(0, w) =~= row_px(inp, y));
        assert(row_px(out, y).subrange(0, w) =~= row_px(out, y));
    }
}

/// Sort each row of the image in aligned windows by the thresholded
/// brightness key.  The output is RGB.
pub fn sort_pixels(img: &Image, low_threshold: u8, high_threshold: u8, window_size: usize) -> (out:
    Image)
    requires
        img.wf(),
        fits_rgba(*img),
    ensures
        sort_pixels_rel(*img, out, low_threshold, high_threshold, window_size as int),
{
    let w = img.width;
    let h = img.height;
    let we: usize = if window_size == 0 || window_size >= w {
        w
    } else {
        window_size
    };
    let lo = low_threshold;
    let hi = high_threshold;
    let mut rows: Vec<Vec<Pixel>> = Vec::new();
    let mut y: usize = 0;
    while y < h
        invariant
            y <= h,
            img.wf(),
            w == img.width,
            h == img.height,
            we as int == effective_window(window_size as int, w as int),
            rows@.len() == y,
            forall|yy: int| 0 <= yy < y ==> (#[trigger] rows@[yy])@.len() == w,
            forall|yy: int, i: int|
                0 <= yy < y && 0 <= i < w ==> (#[trigger] rows@[yy]@[i]).a == 255,
            forall|yy: int, s: int|
                0 <= yy < y && 0 <= s < w as int && s % (we as int) == 0 ==> #[trigger] run_sorted(
                    row_px(*img, yy).subrange(s, window_end(s, we as int, w as int)),
                    rows@[yy]@.subrange(s, window_end(s, we as int, w as int)),
                    lo,
                    hi,
                ),
        decreases h - y,
    {
        let mut row: Vec<Pixel> = Vec::new();
        let mut x: usize = 0;
        while x < w
            invariant
                x <= w,
                y < h,
                img.wf(),
                w == img.width,
                h == img.height,
                row@.len() == x,
                forall|i: int| 0 <= i < x ==> row@[i] == row_px(*img, y as int)[i],
            decreases w - x,
        {
            let p = img.get_rgba(x, y);
            row.push(Pixel { r: p.r, g: p.g, b: p.b, a: 255 });
            x = x + 1;
        }
        proof {
            assert(row@ =~= row_px(*img, y as int));
        }
        let mut sorted_row: Vec<Pixel> = Vec::new();
        let mut ws: usize = 0;
        proof {
            if w >= 1 {
                vstd::arithmetic::div_mod::lemma_small_mod(0, we as nat);
            }
        }
        while ws < w
            invariant
                ws <= w,
                w >= 1 ==> 1 <= we <= w,
                y < h,
                img.wf(),
                w == img.width,
                row@ == row_px(*img, y as int),
                ws % we == 0 || ws == w,
                sorted_row@.len() == ws,
                forall|i: int| 0 <= i < ws ==> (#[trigger] sorted_row@[i]).a == 255,
                forall|s: int|
                    0 <= s < ws && s % (we as int) == 0 ==> #[trigger] run_sorted(
                        row@.subrange(s, window_end(s, we as int, w as int)),
                        sorted_row@.subrange(s, window_end(s, we as int, w as int)),
                        lo,
                        hi,
                    ),
            decreases w - ws,
        {
            let e: usize = if w - ws > we {
                ws + we
            } else {
                w
            };
            let mut chunk: Vec<Pixel> = Vec::new();
            let mut i: usize = ws;
            while i < e
                invariant
                    ws <= i <= e <= w,
                    row@.len() == w,
                    chunk@.len() == i - ws,
                    forall|t: int| 0 <= t < i - ws ==> chunk@[t] == row@[ws + t],
                decreases e - i,
            {
                chunk.push(row[i]);
                i = i + 1;
            }
            proof {
                assert(chunk@ =~= row@.subrange(ws as int, e as int));
            }
            let sorted = sort_chunk(chunk, lo, hi);
            let ghost sorted_row0 = sorted_row@;
            let mut t: usize = 0;
            while t < sorted.len()
                invariant
                    t <= sorted@.len(),
                    sorted_row@ == sorted_row0 + sorted@.take(t as int),
                decreases sorted@.len() - t,
            {
                proof {
                    assert(sorted_row@ + seq![sorted@[t as int]] =~= sorted_row0 + sorted@.take(
                        t as int + 1,
                    ));
                }
                sorted_row.push(sorted[t]);
                t = t + 1;
            }
            proof {
                assert(sorted@.take(sorted@.len() as int) =~= sorted@);
                assert(sorted_row@ =~= sorted_row0 + sorted@);
                let wei = we as int;
                let wi = w as int;
                let wsi = ws as int;
                let ei = e as int;
                assert(ei == window_end(wsi, wei, wi));
                // The freshly sorted window.
                assert(sorted_row@.subrange(wsi, ei) =~= sorted@);
                assert(run_sorted(row@.subrange(wsi, ei), sorted_row@.subrange(wsi, ei), lo, hi));
                // Alpha of the new entries.
                assert forall|i: int| 0 <= i < sorted_row@.len() implies (#[trigger] sorted_row@[i]).a
                    == 255 by {
                    if i >= wsi {
                        assert(sorted@[i - wsi] == sorted_row@[i]);
                        assert(chunk@.contains(sorted@[i - wsi]));
                        let k = choose|k: int| 0 <= k < chunk@.len() && chunk@[k] == sorted@[i - wsi];
                        assert(chunk@[k].a == 255);
                    } else {
                        assert(sorted_row@[i] == sorted_row0[i]);
                    }
                }
                // Earlier windows are untouched by the append.
                assert forall|s: int|
                    0 <= s < ei && s % wei == 0 implies #[trigger] run_sorted(
                    row@.subrange(s, window_end(s, wei, wi)),
                    sorted_row@.subrange(s, window_end(s, wei, wi)),
                    lo,
                    hi,
                ) by {
                    if s < wsi {
                        assert(window_end(s, wei, wi) <= wsi) by {
                            lemma_aligned_below(s, wsi, wei, wi);
                        }
                        assert(sorted_row@.subrange(s, window_end(s, wei, wi))
                            =~= sorted_row0.subrange(s, window_end(s, wei, wi)));
                    } else {
                        assert(s == wsi) by {
                            lemma_aligned_eq(s, wsi, wei);
                        }
                    }
                }
                // The next window start stays aligned.
                if ei < wi {
                    assert(ei == wsi + wei);
                    lemma_aligned_next(wsi, wei);
                }
            }
            ws = e;
        }
        rows.push(sorted_row);
        y = y + 1;
    }
    // Lay the rows out as an RGB image.
    proof {
        assert(w * h * 3 <= w * h * 4) by (nonlinear_arith)
            requires
                w >= 0,
                h >= 0,
        ;
    }
    let rows_ref = &rows;
    let (out, results) = map_coords(
        w,
        h,
        3,
        (|x: usize, y: usize| -> (p: Pixel)
            requires
                (x < w) && (y < h) && (rows_ref@.len() == h) && (forall|yy: int|
                    0 <= yy < h ==> (#[trigger] rows_ref@[yy])@.len() == w),
            ensures
                (p == rows_ref@[y as int]@[x as int]),
            {
                rows_ref[y][x]
            }),
    );
    proof {
        assert forall|y: int, s: int|
            0 <= y < img.height && 0 <= s < w as int && s % (effective_window(
                window_size as int,
                w as int,
            )) == 0 implies #[trigger] run_sorted(
            row_px(*img, y).subrange(
                s,
                window_end(s, effective_window(window_size as int, w as int), w as int),
            ),
            row_px(out, y).subrange(
                s,
                window_end(s, effective_window(window_size as int, w as int), w as int),
            ),
            lo,
            hi,
        ) by {
            assert forall|x: int| 0 <= x < w as int implies row_px(out, y)[x] == rows@[y]@[x] by {
                let xu = x as usize;
                let yu = y as usize;
                let pp = results@[yu as int * w as int + xu as int];
                assert(out.at(x, y, 0) == pp.r && out.at(x, y, 1) == pp.g && out.at(x, y, 2)
                    == pp.b);
                assert(pp == rows@[y]@[x]);
                assert(rows@[y]@[x].a == 255);
            }
            assert(row_px(out, y) =~= rows@[y]@);
            assert(run_sorted(
                row_px(*img, y).subrange(
                    s,
                    window_end(s, effective_window(window_size as int, w as int), w as int),
                ),
                rows@[y]@.subrange(
                    s,
                    window_end(s, effective_window(window_size as int, w as int), w as int),
                ),
                lo,
                hi,
            ));
        }
    }
    out
}

#[derive(Clone, Copy, PartialEq, Eq, Structural, Debug)]
pub enum SortPixelsDir {
    Row,
    Column,
    Both,
    /// Any other string falls back to sorting rows.
    Other,
}

pub open spec fn spec_parse_sort_pixels(s: Seq<u8>) -> SortPixelsDir {
    if crate::text::clean_bytes(s) == "row".spec_bytes() {
        SortPixelsDir::Row
    } else if crate::text::clean_bytes(s) == "column".spec_bytes() {
        SortPixelsDir::Column
    } else if crate::text::clean_bytes(s) == "both".spec_bytes() {
        SortPixelsDir::Both
    } else {
        SortPixelsDir::Other
    }
}

pub fn parse_sort_pixels_direction(dir: &str) -> (d: SortPixelsDir)
    ensures
        d == spec_parse_sort_pixels(dir.spec_bytes()),
{
    let cleaned = crate::text::clean_token(dir);
    if crate::text::bytes_eq(cleaned.as_slice(), "row".as_bytes()) {
        SortPixelsDir::Row
    } else if crate::text::bytes_eq(cleaned.as_slice(), "column".as_bytes()) {
        SortPixelsDir::Column
    } else if crate::text::bytes_eq(cleaned.as_slice(), "both".as_bytes()) {
        SortPixelsDir::Both
    } else {
        SortPixelsDir::Other
    }
}

/// Sort pixel runs by brightness within a threshold band: along rows,
/// along columns (by a quarter turn, a row sort and a turn back), or
/// both in sequence.  An unrecognized direction falls back to rows.
pub fn pixel_sort(
    img: &Image,
    direction: &str,
    low_threshold: u8,
    high_threshold: u8,
    window_size: usize,
) -> (out: Image)
    requires
        img.wf(),
        fits_rgba(*img),
        img.channels == 3 || img.channels == 4,
    ensures
        out.wf(),
        out.width == img.width,
        out.height == img.height,
        out.channels == 3,
        ({
            let d = spec_parse_sort_pixels(direction.spec_bytes());
            let lo = low_threshold;
            let hi = high_threshold;
            let win = window_size as int;
            &&& (d == SortPixelsDir::Row || d == SortPixelsDir::Other) ==> sort_pixels_rel(
                *img,
                out,
                lo,
                hi,
                win,
            )
            &&& d == SortPixelsDir::Column ==> exists|a: Image, b: Image|
                #![trigger rotate90_rel(*img, a), sort_pixels_rel(a, b, lo, hi, win)]
                rotate90_rel(*img, a) && sort_pixels_rel(a, b, lo, hi, win) && rotate270_rel(b, out)
            &&& d == SortPixelsDir::Both ==> exists|a: Image, b: Image, c: Image|
                #![trigger sort_pixels_rel(*img, a, lo, hi, win), rotate90_rel(a, b), sort_pixels_rel(b, c, lo, hi, win)]
                sort_pixels_rel(*img, a, lo, hi, win) && rotate90_rel(a, b) && sort_pixels_rel(
                    b,
                    c,
                    lo,
                    hi,
                    win,
                ) && rotate270_rel(c, out)
        }),
{
    let d = parse_sort_pixels_direction(direction);
    proof {
        assert(img.height * img.width * 4 <= img.width * img.height * 4 && img.width * img.height
            * 3 <= img.width * img.height * 4) by (nonlinear_arith)
            requires
                img.width >= 0,
                img.height >= 0,
        ;
    }
    match d {
        SortPixelsDir::Column => {
            let a = rotate90(img);
            let b = sort_pixels(&a, low_threshold, high_threshold, window_size);
            proof {
                assert(b.height * b.width * 4 <= img.width * img.height * 4 && b.width * b.height
                    * 4 <= img.width * img.height * 4) by (nonlinear_arith)
                    requires
                        b.width == img.height,
                        b.height == img.width,
                        img.width >= 0,
                        img.height >= 0,
                ;
            }
            let out = rotate270(&b);
            proof {
                assert(rotate90_rel(*img, a) && sort_pixels_rel(
                    a,
                    b,
                    low_threshold,
                    high_threshold,
                    window_size as int,
                ) && rotate270_rel(b, out));
            }
            out
        },
        SortPixelsDir::Both => {
            let a = sort_pixels(img, low_threshold, high_threshold, window_size);
            let b = rotate90(&a);
            let c = sort_pixels(&b, low_threshold, high_threshold, window_size);
            proof {
                assert(c.height * c.width * 4 <= img.width * img.height * 4 && c.width * c.height
                    * 4 <= img.width * img.height * 4) by (nonlinear_arith)
                    requires
                        c.width == img.height,
                        c.height == img.width,
                        img.width >= 0,
                        img.height >= 0,
                ;
            }
            let out = rotate270(&c);
            proof {
                assert(sort_pixels_rel(
                    *img,
                    a,
                    low_threshold,
                    high_threshold,
                    window_size as int,
                ) && rotate90_rel(a, b) && sort_pixels_rel(
                    b,
                    c,
                    low_threshold,
                    high_threshold,
                    window_size as int,
                ) && rotate270_rel(c, out));
            }
            out
        },
        _ => sort_pixels(img, low_threshold, high_threshold, window_size),
    }
}

/// The intensity bucket of a pixel: its mean intensity scaled to
/// `levels` buckets.
pub open spec fn bucket_of(p: Pixel, levels: int) -> int {
    (((p.r + p.g + p.b) / 3) * levels) / 256
}

/// How many pixels of the row run `[x0, x1]` of row `y` fall in bucket
/// `k`.
pub open spec fn cnt_row(img: Image, y: int, x0: int, x1: int, levels: int, k: int) -> int
    decreases x1 - x0 + 1,
{
    if x0 > x1 {
        0
    } else {
        cnt_row(img, y, x0, x1 - 1, levels, k) + if bucket_of(img.rgba_at(x1, y), levels) == k {
            1int
        } else {
            0
        }
    }
}

pub open spec fn cnt_rect(
    img: Image,
    y0: int,
    y1: int,
    x0: int,
    x1: int,
    levels: int,
    k: int,
) -> int
    decreases y1 - y0 + 1,
{
    if y0 > y1 {
        0
    } else {
        cnt_rect(img, y0, y1 - 1, x0, x1, levels, k) + cnt_row(img, y1, x0, x1, levels, k)
    }
}

/// The sum of channel `c` over the bucket-`k` pixels of the row run.
pub open spec fn sum_row(img: Image, y: int, x0: int, x1: int, levels: int, k: int, c: int) -> int
    decreases x1 - x0 + 1,
{
    if x0 > x1 {
        0
    } else {
        sum_row(img, y, x0, x1 - 1, levels, k, c) + if bucket_of(img.rgba_at(x1, y), levels) == k {
            px_ch(img.rgba_at(x1, y), c) as int
        } else {
            0
        }
    }
}

pub open spec fn sum_rect(
    img: Image,
    y0: int,
    y1: int,
    x0: int,
    x1: int,
    levels: int,
    k: int,
    c: int,
) -> int
    decreases y1 - y0 + 1,
{
    if y0 > y1 {
        0
    } else {
        sum_rect(img, y0, y1 - 1, x0, x1, levels, k, c) + sum_row(img, y1, x0, x1, levels, k, c)
    }
}

/// The most populous bucket among the first `upto` buckets, later buckets
/// winning ties.
pub open spec fn best_bucket_upto(
    img: Image,
    y0: int,
    y1: int,
    x0: int,
    x1: int,
    levels: int,
    upto: int,
) -> int
    decreases upto,
{
    if upto <= 1 {
        0
    } else {
        let prev = best_bucket_upto(img, y0, y1, x0, x1, levels, upto - 1);
        if cnt_rect(img, y0, y1, x0, x1, levels, upto - 1) >= cnt_rect(
            img,
            y0,
            y1,
            x0,
            x1,
            levels,
            prev,
        ) {
            upto - 1
        } else {
            prev
        }
    }
}

/// The neighborhood of `(x, y)`: `radius` pixels in each direction,
/// clamped to the image.
pub open spec fn hood_x0(x: int, radius: int) -> int {
    if x >= radius {
        x - radius
    } else {
        0
    }
}

pub open spec fn hood_x1(x: int, radius: int, w: int) -> int {
    if x + radius <= w - 1 {
        x + radius
    } else {
        w - 1
    }
}

/// The mode-filtered pixel: the average color of the most populous
/// intensity bucket of the neighborhood.
pub open spec fn oil_pixel(img: Image, x: int, y: int, radius: int, levels: int) -> Pixel {
    let x0 = hood_x0(x, radius);
    let x1 = hood_x1(x, radius, img.width as int);
    let y0 = hood_x0(y, radius);
    let y1 = hood_x1(y, radius, img.height as int);
    let k = best_bucket_upto(img, y0, y1, x0, x1, levels, levels);
    let n = cnt_rect(img, y0, y1, x0, x1, levels, k);
    Pixel {
        r: (sum_rect(img, y0, y1, x0, x1, levels, k, 0) / n) as u8,
        g: (sum_rect(img, y0, y1, x0, x1, levels, k, 1) / n) as u8,
        b: (sum_rect(img, y0, y1, x0, x1, levels, k, 2) / n) as u8,
        a: 255u8,
    }
}

pub open spec fn oil_rel(inp: Image, out: Image, radius: int, levels: int) -> bool {
    &&& out.wf()
    &&& out.width == inp.width
    &&& out.height == inp.height
    &&& out.channels == 4
    &&& forall|x: int, y: int|
        0 <= x < inp.width && 0 <= y < inp.height ==> #[trigger] out.rgba_at(x, y) == oil_pixel(
            inp,
            x,
            y,
            radius,
            levels,
        )
}

proof fn lemma_cnt_row_bounds(img: Image, y: int, x0: int, x1: int, levels: int, k: int)
    ensures
        0 <= cnt_row(img, y, x0, x1, levels, k) <= (if x1 - x0 + 1 >= 0 {
            x1 - x0 + 1
        } else {
            0
        }),
        0 <= sum_row(img, y, x0, x1, levels, k, 0) <= 255 * cnt_row(img, y, x0, x1, levels, k),
        0 <= sum_row(img, y, x0, x1, levels, k, 1) <= 255 * cnt_row(img, y, x0, x1, levels, k),
        0 <= sum_row(img, y, x0, x1, levels, k, 2) <= 255 * cnt_row(img, y, x0, x1, levels, k),
    decreases x1 - x0 + 1,
{
    if x0 <= x1 {
        lemma_cnt_row_bounds(img, y, x0, x1 - 1, levels, k);
    }
}

proof fn lemma_cnt_rect_bounds(img: Image, y0: int, y1: int, x0: int, x1: int, levels: int, k: int)
    requires
        x1 - x0 + 1 <= img.width,
    ensures
        0 <= cnt_rect(img, y0, y1, x0, x1, levels, k),
        cnt_rect(img, y0, y1, x0, x1, levels, k) <= (if y1 - y0 + 1 >= 0 {
            (y1 - y0 + 1) * img.width
        } else {
            0
        }),
        0 <= sum_rect(img, y0, y1, x0, x1, levels, k, 0) <= 255 * cnt_rect(
            img,
            y0,
            y1,
            x0,
            x1,
            levels,
            k,
        ),
        0 <= sum_rect(img, y0, y1, x0, x1, levels, k, 1) <= 255 * cnt_rect(
            img,
            y0,
            y1,
            x0,
            x1,
            levels,
            k,
        ),
        0 <= sum_rect(img, y0, y1, x0, x1, levels, k, 2) <= 255 * cnt_rect(
            img,
            y0,
            y1,
            x0,
            x1,
            levels,
            k,
        ),
    decreases y1 - y0 + 1,
{
    if y0 <= y1 {
        lemma_cnt_rect_bounds(img, y0, y1 - 1, x0, x1, levels, k);
        lemma_cnt_row_bounds(img, y1, x0, x1, levels, k);
        assert((y1 - y0 + 1) * img.width == (y1 - 1 - y0 + 1) * img.width
            + img.width) by (nonlinear_arith);
    } else {
        assert(cnt_rect(img, y0, y1, x0, x1, levels, k) == 0);
    }
}

/// The chosen bucket has at least as many members as any bucket below
/// `upto`.
proof fn lemma_best_bucket_ge(
    img: Image,
    y0: int,
    y1: int,
    x0: int,
    x1: int,
    levels: int,
    upto: int,
    k: int,
)
    requires
        0 <= k < upto || k == 0,
    ensures
        cnt_rect(img, y0, y1, x0, x1, levels, best_bucket_upto(img, y0, y1, x0, x1, levels, upto))
            >= cnt_rect(img, y0, y1, x0, x1, levels, k),
        0 <= best_bucket_upto(img, y0, y1, x0, x1, levels, upto),
        upto >= 1 ==> best_bucket_upto(img, y0, y1, x0, x1, levels, upto) < upto,
        upto < 1 ==> best_bucket_upto(img, y0, y1, x0, x1, levels, upto) == 0,
    decreases upto,
{
    if upto > 1 {
        if k < upto - 1 || k == 0 {
            lemma_best_bucket_ge(img, y0, y1, x0, x1, levels, upto - 1, k);
        } else {
            lemma_best_bucket_ge(img, y0, y1, x0, x1, levels, upto - 1, 0);
        }
    }
}

/// A pixel of the rectangle contributes to its own bucket.
proof fn lemma_cnt_row_point(img: Image, y: int, x0: int, x1: int, levels: int, x: int)
    requires
        x0 <= x <= x1,
    ensures
        cnt_row(img, y, x0, x1, levels, bucket_of(img.rgba_at(x, y), levels)) >= 1,
    decreases x1 - x0 + 1,
{
    if x < x1 {
        lemma_cnt_row_point(img, y, x0, x1 - 1, levels, x);
        lemma_cnt_row_bounds(img, y, x0, x1, levels, bucket_of(img.rgba_at(x, y), levels));
        lemma_cnt_row_bounds(img, y, x0, x1 - 1, levels, bucket_of(img.rgba_at(x, y), levels));
    } else {
        lemma_cnt_row_bounds(img, y, x0, x1 - 1, levels, bucket_of(img.rgba_at(x, y), levels));
    }
}

proof fn lemma_cnt_rect_point(
    img: Image,
    y0: int,
    y1: int,
    x0: int,
    x1: int,
    levels: int,
    x: int,
    y: int,
)
    requires
        x0 <= x <= x1,
        y0 <= y <= y1,
    ensures
        cnt_rect(img, y0, y1, x0, x1, levels, bucket_of(img.rgba_at(x, y), levels)) >= 1,
    decreases y1 - y0 + 1,
{
    let k = bucket_of(img.rgba_at(x, y), levels);
    assert(cnt_rect(img, y0, y1, x0, x1, levels, k) == cnt_rect(img, y0, y1 - 1, x0, x1, levels, k)
        + cnt_row(img, y1, x0, x1, levels, k));
    if y < y1 {
        lemma_cnt_rect_point(img, y0, y1 - 1, x0, x1, levels, x, y);
        lemma_cnt_row_bounds(img, y1, x0, x1, levels, k);
    } else {
        lemma_cnt_row_point(img, y1, x0, x1, levels, x);
        lemma_cnt_rect_bounds_nonneg(img, y0, y1 - 1, x0, x1, levels, k);
    }
}

proof fn lemma_cnt_rect_bounds_nonneg(
    img: Image,
    y0: int,
    y1: int,
    x0: int,
    x1: int,
    levels: int,
    k: int,
)
    ensures
        0 <= cnt_rect(img, y0, y1, x0, x1, levels, k),
    decreases y1 - y0 + 1,
{
    if y0 <= y1 {
        lemma_cnt_rect_bounds_nonneg(img, y0, y1 - 1, x0, x1, levels, k);
        lemma_cnt_row_bounds(img, y1, x0, x1, levels, k);
    }
}

fn bucket_exec(p: Pixel, levels: u8) -> (k: usize)
    requires
        levels >= 1,
    ensures
        k as int == bucket_of(p, levels as int),
        k < levels,
{
    let m: u32 = ((p.r as u32) + (p.g as u32) + (p.b as u32)) / 3;
    proof {
        assert((m as int) * (levels as int) <= 255 * 255) by (nonlinear_arith)
            requires
                m <= 255,
                levels <= 255,
        ;
    }
    let k: u32 = (m * (levels as u32)) / 256;
    proof {
        assert(((m as int) * (levels as int)) / 256 < levels as int) by (nonlinear_arith)
            requires
                0 <= m <= 255,
                1 <= levels <= 255,
        ;
    }
    k as usize
}

/// The oil-painting mode filter: bucket the neighborhood of each pixel by
/// mean intensity and paint the pixel with the average color of the most
/// populous bucket, later buckets winning ties.
pub fn oil_painting(img: &Image, radius: u32, intensity_levels: u8) -> (out: Image)
    requires
        img.wf(),
        fits_rgba(*img),
        img.width < 0x1_0000_0000,
        img.height < 0x1_0000_0000,
        intensity_levels >= 1,
    ensures
        oil_rel(*img, out, radius as int, intensity_levels as int),
{
    let w = img.width;
    let h = img.height;
    let levels = intensity_levels;
    let (out, results) = map_coords(
        w,
        h,
        4,
        (|x: usize, y: usize| -> (p: Pixel)
            requires
                (x < img.width) && (y < img.height) && img.wf() && (levels >= 1) && (img.width
                    < 0x1_0000_0000) && (img.height < 0x1_0000_0000),
            ensures
                (p == oil_pixel(*img, x as int, y as int, radius as int, levels as int)),
            {
                let x0: usize = if x as u64 >= radius as u64 {
                    x - radius as usize
                } else {
                    0
                };
                let x1: usize = if (x as u64) + (radius as u64) <= (img.width as u64) - 1 {
                    x + radius as usize
                } else {
                    img.width - 1
                };
                let y0: usize = if y as u64 >= radius as u64 {
                    y - radius as usize
                } else {
                    0
                };
                let y1: usize = if (y as u64) + (radius as u64) <= (img.height as u64) - 1 {
                    y + radius as usize
                } else {
                    img.height - 1
                };
                proof {
                    assert(x0 as int == hood_x0(x as int, radius as int));
                    assert(x1 as int == hood_x1(x as int, radius as int, img.width as int));
                    assert(y0 as int == hood_x0(y as int, radius as int));
                    assert(y1 as int == hood_x1(y as int, radius as int, img.height as int));
                }
                let mut counts: Vec<u64> = Vec::new();
                let mut sr: Vec<u128> = Vec::new();
                let mut sg: Vec<u128> = Vec::new();
                let mut sb: Vec<u128> = Vec::new();
                let mut k: usize = 0;
                while k < levels as usize
                    invariant
                        k <= levels as usize,
                        counts@.len() == k,
                        sr@.len() == k,
                        sg@.len() == k,
                        sb@.len() == k,
                        forall|t: int| 0 <= t < k ==> (#[trigger] counts@[t]) == 0,
                        forall|t: int| 0 <= t < k ==> (#[trigger] sr@[t]) == 0,
                        forall|t: int| 0 <= t < k ==> (#[trigger] sg@[t]) == 0,
                        forall|t: int| 0 <= t < k ==> (#[trigger] sb@[t]) == 0,
                    decreases levels as usize - k,
                {
                    counts.push(0);
                    sr.push(0);
                    sg.push(0);
                    sb.push(0);
                    k = k + 1;
                }
                proof {
                    assert forall|t: int|
                        0 <= t < levels as int implies #[trigger] cnt_rect(
                        *img,
                        y0 as int,
                        y0 - 1,
                        x0 as int,
                        x1 as int,
                        levels as int,
                        t,
                    ) == 0 && sum_rect(
                        *img,
                        y0 as int,
                        y0 - 1,
                        x0 as int,
                        x1 as int,
                        levels as int,
                        t,
                        0,
                    ) == 0 && sum_rect(
                        *img,
                        y0 as int,
                        y0 - 1,
                        x0 as int,
                        x1 as int,
                        levels as int,
                        t,
                        1,
                    ) == 0 && sum_rect(
                        *img,
                        y0 as int,
                        y0 - 1,
                        x0 as int,
                        x1 as int,
                        levels as int,
                        t,
                        2,
                    ) == 0 by {}
                }
                let mut dy: usize = y0;
                while dy <= y1
                    invariant
                        y0 <= dy <= y1 + 1,
                        x0 <= x1 < img.width,
                        y0 <= y1 < img.height,
                        img.wf(),
                        fits_rgba(*img),
                        img.width < 0x1_0000_0000,
                        img.height < 0x1_0000_0000,
                        levels >= 1,
                        counts@.len() == levels as int,
                        sr@.len() == levels as int,
                        sg@.len() == levels as int,
                        sb@.len() == levels as int,
                        forall|t: int|
                            0 <= t < levels as int ==> (#[trigger] counts@[t]) as int == cnt_rect(
                                *img,
                                y0 as int,
                                dy - 1,
                                x0 as int,
                                x1 as int,
                                levels as int,
                                t,
                            ),
                        forall|t: int|
                            0 <= t < levels as int ==> (#[trigger] sr@[t]) as int == sum_rect(
                                *img,
                                y0 as int,
                                dy - 1,
                                x0 as int,
                                x1 as int,
                                levels as int,
                                t,
                                0,
                            ),
                        forall|t: int|
                            0 <= t < levels as int ==> (#[trigger] sg@[t]) as int == sum_rect(
                                *img,
                                y0 as int,
                                dy - 1,
                                x0 as int,
                                x1 as int,
                                levels as int,
                                t,
                                1,
                            ),
                        forall|t: int|
                            0 <= t < levels as int ==> (#[trigger] sb@[t]) as int == sum_rect(
                                *img,
                                y0 as int,
                                dy - 1,
                                x0 as int,
                                x1 as int,
                                levels as int,
                                t,
                                2,
                            ),
                    decreases y1 + 1 - dy,
                {
                    let mut dx: usize = x0;
                    proof {
                        assert forall|t: int|
                            0 <= t < levels as int implies #[trigger] cnt_row(
                            *img,
                            dy as int,
                            x0 as int,
                            x0 - 1,
                            levels as int,
                            t,
                        ) == 0 && sum_row(*img, dy as int, x0 as int, x0 - 1, levels as int, t, 0)
                            == 0 && sum_row(*img, dy as int, x0 as int, x0 - 1, levels as int, t, 1)
                            == 0 && sum_row(
                            *img,
                            dy as int,
                            x0 as int,
                            x0 - 1,
                            levels as int,
                            t,
                            2,
                        ) == 0 by {}
                    }
                    while dx <= x1
                        invariant
                            x0 <= dx <= x1 + 1,
                            y0 <= dy <= y1,
                            x0 <= x1 < img.width,
                            y0 <= y1 < img.height,
                            img.wf(),
                            fits_rgba(*img),
                            img.width < 0x1_0000_0000,
                            img.height < 0x1_0000_0000,
                            levels >= 1,
                            counts@.len() == levels as int,
                            sr@.len() == levels as int,
                            sg@.len() == levels as int,
                            sb@.len() == levels as int,
                            forall|t: int|
                                0 <= t < levels as int ==> (#[trigger] counts@[t]) as int
                                    == cnt_rect(
                                    *img,
                                    y0 as int,
                                    dy - 1,
                                    x0 as int,
                                    x1 as int,
                                    levels as int,
                                    t,
                                ) + cnt_row(
                                    *img,
                                    dy as int,
                                    x0 as int,
                                    dx - 1,
                                    levels as int,
                                    t,
                                ),
                            forall|t: int|
                                0 <= t < levels as int ==> (#[trigger] sr@[t]) as int == sum_rect(
                                    *img,
                                    y0 as int,
                                    dy - 1,
                                    x0 as int,
                                    x1 as int,
                                    levels as int,
                                    t,
                                    0,
                                ) + sum_row(
                                    *img,
                                    dy as int,
                                    x0 as int,
                                    dx - 1,
                                    levels as int,
                                    t,
                                    0,
                                ),
                            forall|t: int|
                                0 <= t < levels as int ==> (#[trigger] sg@[t]) as int == sum_rect(
                                    *img,
                                    y0 as int,
                                    dy - 1,
                                    x0 as int,
                                    x1 as int,
                                    levels as int,
                                    t,
                                    1,
                                ) + sum_row(
                                    *img,
                                    dy as int,
                                    x0 as int,
                                    dx - 1,
                                    levels as int,
                                    t,
                                    1,
                                ),
                            forall|t: int|
                                0 <= t < levels as int ==> (#[trigger] sb@[t]) as int == sum_rect(
                                    *img,
                                    y0 as int,
                                    dy - 1,
                                    x0 as int,
                                    x1 as int,
                                    levels as int,
                                    t,
                                    2,
                                ) + sum_row(
                                    *img,
                                    dy as int,
                                    x0 as int,
                                    dx - 1,
                                    levels as int,
                                    t,
                                    2,
                                ),
                        decreases x1 + 1 - dx,
                    {
                        let p = img.get_rgba(dx, dy);
                        let kb = bucket_exec(p, levels);
                        proof {
                            let wi = img.width as int;
                            let hh = img.height as int;
                            lemma_cnt_rect_bounds(
                                *img,
                                y0 as int,
                                dy - 1,
                                x0 as int,
                                x1 as int,
                                levels as int,
                                kb as int,
                            );
                            lemma_cnt_row_bounds(
                                *img,
                                dy as int,
                                x0 as int,
                                dx - 1,
                                levels as int,
                                kb as int,
                            );
                            assert(wi * hh <= 0x3FFF_FFFF_FFFF_FFFF) by (nonlinear_arith)
                                requires
                                    wi * hh * 4 <= 0xFFFF_FFFF_FFFF_FFFF,
                                    wi >= 1,
                                    hh >= 1,
                            ;
                            assert((dy - 1 - y0 + 1) * wi <= hh * wi && hh * wi == wi
                                * hh) by (nonlinear_arith)
                                requires
                                    0 <= dy - 1 - y0 + 1 <= hh,
                                    wi >= 0,
                                    hh >= 0,
                            ;
                            assert(cnt_rect(
                                *img,
                                y0 as int,
                                dy - 1,
                                x0 as int,
                                x1 as int,
                                levels as int,
                                kb as int,
                            ) + cnt_row(*img, dy as int, x0 as int, dx - 1, levels as int, kb as int)
                                <= wi * hh + wi);
                            assert(wi * hh + wi <= 0x7FFF_FFFF_FFFF_FFFF);
                            assert(255 * (counts@[kb as int] as int) <= 255 * (wi * hh
                                + wi)) by (nonlinear_arith)
                                requires
                                    counts@[kb as int] as int <= wi * hh + wi,
                            ;
                        }
                        let c0 = counts[kb];
                        counts.set(kb, c0 + 1);
                        let r0 = sr[kb];
                        sr.set(kb, r0 + (p.r as u128));
                        let g0 = sg[kb];
                        sg.set(kb, g0 + (p.g as u128));
                        let b0 = sb[kb];
                        sb.set(kb, b0 + (p.b as u128));
                        dx = dx + 1;
                    }
                    dy = dy + 1;
                }
                // Pick the most populous bucket, later buckets winning ties.
                let mut best: usize = 0;
                let mut k2: usize = 1;
                while k2 < levels as usize
                    invariant
                        1 <= k2 <= levels as usize,
                        best as int == best_bucket_upto(
                            *img,
                            y0 as int,
                            y1 as int,
                            x0 as int,
                            x1 as int,
                            levels as int,
                            k2 as int,
                        ),
                        best < k2,
                        counts@.len() == levels as int,
                        forall|t: int|
                            0 <= t < levels as int ==> (#[trigger] counts@[t]) as int == cnt_rect(
                                *img,
                                y0 as int,
                                y1 as int,
                                x0 as int,
                                x1 as int,
                                levels as int,
                                t,
                            ),
                    decreases levels as usize - k2,
                {
                    if counts[k2] >= counts[best] {
                        best = k2;
                    }
                    k2 = k2 + 1;
                }
                let n = counts[best];
                proof {
                    assert(0 <= bucket_of(img.rgba_at(x as int, y as int), levels as int)
                        < levels as int) by (nonlinear_arith)
                        requires
                            1 <= levels <= 255,
                            0 <= (img.rgba_at(x as int, y as int).r + img.rgba_at(
                                x as int,
                                y as int,
                            ).g + img.rgba_at(x as int, y as int).b) / 3 <= 255,
                    ;
                    lemma_cnt_rect_point(
                        *img,
                        y0 as int,
                        y1 as int,
                        x0 as int,
                        x1 as int,
                        levels as int,
                        x as int,
                        y as int,
                    );
                    lemma_best_bucket_ge(
                        *img,
                        y0 as int,
                        y1 as int,
                        x0 as int,
                        x1 as int,
                        levels as int,
                        levels as int,
                        bucket_of(img.rgba_at(x as int, y as int), levels as int),
                    );
                    assert(n >= 1);
                    lemma_cnt_rect_bounds(
                        *img,
                        y0 as int,
                        y1 as int,
                        x0 as int,
                        x1 as int,
                        levels as int,
                        best as int,
                    );
                    assert(sum_rect(
                        *img,
                        y0 as int,
                        y1 as int,
                        x0 as int,
                        x1 as int,
                        levels as int,
                        best as int,
                        0,
                    ) / (n as int) <= 255 && sum_rect(
                        *img,
                        y0 as int,
                        y1 as int,
                        x0 as int,
                        x1 as int,
                        levels as int,
                        best as int,
                        1,
                    ) / (n as int) <= 255 && sum_rect(
                        *img,
                        y0 as int,
                        y1 as int,
                        x0 as int,
                        x1 as int,
                        levels as int,
                        best as int,
                        2,
                    ) / (n as int) <= 255) by (nonlinear_arith)
                        requires
                            n >= 1,
                            sum_rect(
                                *img,
                                y0 as int,
                                y1 as int,
                                x0 as int,
                                x1 as int,
                                levels as int,
                                best as int,
                                0,
                            ) <= 255 * cnt_rect(
                                *img,
                                y0 as int,
                                y1 as int,
                                x0 as int,
                                x1 as int,
                                levels as int,
                                best as int,
                            ),
                            sum_rect(
                                *img,
                                y0 as int,
                                y1 as int,
                                x0 as int,
                                x1 as int,
                                levels as int,
                                best as int,
                                1,
                            ) <= 255 * cnt_rect(
                                *img,
                                y0 as int,
                                y1 as int,
                                x0 as int,
                                x1 as int,
                                levels as int,
                                best as int,
                            ),
                            sum_rect(
                                *img,
                                y0 as int,
                                y1 as int,
                                x0 as int,
                                x1 as int,
                                levels as int,
                                best as int,
                                2,
                            ) <= 255 * cnt_rect(
                                *img,
                                y0 as int,
                                y1 as int,
                                x0 as int,
                                x1 as int,
                                levels as int,
                                best as int,
                            ),
                            n as int == cnt_rect(
                                *img,
                                y0 as int,
                                y1 as int,
                                x0 as int,
                                x1 as int,
                                levels as int,
                                best as int,
                            ),
                    ;
                }
                Pixel {
                    r: (sr[best] / (n as u128)) as u8,
                    g: (sg[best] / (n as u128)) as u8,
                    b: (sb[best] / (n as u128)) as u8,
                    a: 255,
                }
            }),
    );
    proof {
        assert forall|x: int, y: int| 0 <= x < img.width && 0 <= y < img.height implies #[trigger] out.rgba_at(
            x,
            y,
        ) == oil_pixel(*img, x, y, radius as int, intensity_levels as int) by {
            let xu = x as usize;
            let yu = y as usize;
            let pp = results@[yu as int * w as int + xu as int];
            assert(out.at(x, y, 0) == pp.r && out.at(x, y, 1) == pp.g && out.at(x, y, 2) == pp.b
                && out.at(x, y, 3) == pp.a);
        }
    }
    out
}

/// Aligned window starts below `ws` end at or before `ws`.
proof fn lemma_aligned_below(s: int, ws: int, we: int, w: int)
    requires
        0 <= s < ws,
        s % we == 0,
        ws % we == 0,
        we >= 1,
    ensures
        s + we <= ws,
        window_end(s, we, w) <= ws,
{
    let qs = s / we;
    let qw = ws / we;
    vstd::arithmetic::div_mod::lemma_fundamental_div_mod(s, we);
    vstd::arithmetic::div_mod::lemma_fundamental_div_mod(ws, we);
    assert(s == we * qs && ws == we * qw);
    assert(qs < qw) by (nonlinear_arith)
        requires
            s == we * qs,
            ws == we * qw,
            s < ws,
            we >= 1,
    ;
    assert(s + we <= ws) by (nonlinear_arith)
        requires
            s == we * qs,
            ws == we * qw,
            qs + 1 <= qw,
            we >= 1,
    ;
}

/// An aligned start in `[ws, ws + we)` is `ws` itself.
proof fn lemma_aligned_eq(s: int, ws: int, we: int)
    requires
        0 <= ws <= s,
        s % we == 0,
        ws % we == 0,
        we >= 1,
        s < ws + we,
    ensures
        s == ws,
{
    if s > ws {
        lemma_aligned_below(ws, s, we, s);
    }
}

/// The next window start after an aligned one is aligned.
proof fn lemma_aligned_next(ws: int, we: int)
    requires
        ws % we == 0,
        we >= 1,
        ws >= 0,
    ensures
        (ws + we) % we == 0,
{
    let q = ws / we;
    vstd::arithmetic::div_mod::lemma_fundamental_div_mod(ws, we);
    assert(ws + we == (q + 1) * we + 0) by (nonlinear_arith)
        requires
            ws == we * q,
    ;
    crate::arith::lemma_divmod_pin(ws + we, we, q + 1, 0);
}

} // verus!
