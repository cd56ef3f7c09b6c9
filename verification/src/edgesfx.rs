//! Edge filters: the shared 3x3 convolution engine, Sobel-based neon
//! edges, the Laplacian sketch, directional embossing, Canny-style edge
//! detection with non-maximum suppression, edge quantization and radial
//! edge extrusion.

use vstd::prelude::*;

use crate::arith::{clamp255, floor_div_i128, isqrt, rnd_div, rnd_div_u64, sqrt_floor};
use crate::buffer::{map_coords, Image, Pixel};
use crate::colorfx::fits_rgba;
use crate::errors::FxError;
use crate::glitchfx::px_ch;

verus! {

/// A 3x3 convolution kernel with rational weights: nine numerators over
/// one positive denominator.
#[derive(Clone, Copy, PartialEq, Eq, Structural, Debug)]
pub struct Kernel3 {
    pub w00: i64,
    pub w01: i64,
    pub w02: i64,
    pub w10: i64,
    pub w11: i64,
    pub w12: i64,
    pub w20: i64,
    pub w21: i64,
    pub w22: i64,
    pub den: i64,
}

pub open spec fn kernel_wf(k: Kernel3) -> bool {
    &&& k.den >= 1
    &&& -0x10_0000_0000_0000 <= k.w00 <= 0x10_0000_0000_0000
    &&& -0x10_0000_0000_0000 <= k.w01 <= 0x10_0000_0000_0000
    &&& -0x10_0000_0000_0000 <= k.w02 <= 0x10_0000_0000_0000
    &&& -0x10_0000_0000_0000 <= k.w10 <= 0x10_0000_0000_0000
    &&& -0x10_0000_0000_0000 <= k.w11 <= 0x10_0000_0000_0000
    &&& -0x10_0000_0000_0000 <= k.w12 <= 0x10_0000_0000_0000
    &&& -0x10_0000_0000_0000 <= k.w20 <= 0x10_0000_0000_0000
    &&& -0x10_0000_0000_0000 <= k.w21 <= 0x10_0000_0000_0000
    &&& -0x10_0000_0000_0000 <= k.w22 <= 0x10_0000_0000_0000
}

/// The weighted neighborhood sum of channel `c` around an interior pixel.
pub open spec fn conv_sum(img: Image, k: Kernel3, x: int, y: int, c: int) -> int {
    k.w00 * px_ch(img.rgba_at(x - 1, y - 1), c) + k.w01 * px_ch(img.rgba_at(x, y - 1), c) + k.w02
        * px_ch(img.rgba_at(x + 1, y - 1), c) + k.w10 * px_ch(img.rgba_at(x - 1, y), c) + k.w11
        * px_ch(img.rgba_at(x, y), c) + k.w12 * px_ch(img.rgba_at(x + 1, y), c) + k.w20 * px_ch(
        img.rgba_at(x - 1, y + 1),
        c,
    ) + k.w21 * px_ch(img.rgba_at(x, y + 1), c) + k.w22 * px_ch(img.rgba_at(x + 1, y + 1), c)
}

pub open spec fn conv_chan(img: Image, k: Kernel3, x: int, y: int, c: int) -> u8 {
    clamp255(conv_sum(img, k, x, y, c) / (k.den as int))
}

pub open spec fn interior(img: Image, x: int, y: int) -> bool {
    1 <= x < img.width - 1 && 1 <= y < img.height - 1
}

/// The convolved image: interior pixels take the clamped weighted sum per
/// RGB channel, the one-pixel border stays black, a documented edge-loss
/// behavior of the engine.
pub open spec fn convolve_rel(inp: Image, k: Kernel3, out: Image) -> bool {
    &&& out.wf()
    &&& out.width == inp.width
    &&& out.height == inp.height
    &&& out.channels == 3
    &&& forall|x: int, y: int|
        0 <= x < inp.width && 0 <= y < inp.height ==> #[trigger] out.rgba_at(x, y) == (if interior(
            inp,
            x,
            y,
        ) {
            Pixel {
                r: conv_chan(inp, k, x, y, 0),
                g: conv_chan(inp, k, x, y, 1),
                b: conv_chan(inp, k, x, y, 2),
                a: 255u8,
            }
        } else {
            Pixel { r: 0u8, g: 0u8, b: 0u8, a: 255u8 }
        })
}

fn conv_term(w: i64, v: u8) -> (r: i128)
    requires
        -0x10_0000_0000_0000 <= w <= 0x10_0000_0000_0000,
    ensures
        r == w * v,
        -0x10_0000_0000_0000 * 255 <= r <= 0x10_0000_0000_0000 * 255,
{
    proof {
        assert(-0x10_0000_0000_0000 * 255 <= (w as int) * (v as int) <= 0x10_0000_0000_0000
            * 255) by (nonlinear_arith)
            requires
                -0x10_0000_0000_0000 <= w <= 0x10_0000_0000_0000,
                0 <= v <= 255,
        ;
    }
    (w as i128) * (v as i128)
}

fn conv_chan_exec(img: &Image, k: Kernel3, x: usize, y: usize, c: usize) -> (r: u8)
    requires
        img.wf(),
        kernel_wf(k),
        1 <= x < img.width - 1,
        1 <= y < img.height - 1,
        c < 3,
    ensures
        r == conv_chan(*img, k, x as int, y as int, c as int),
{
    let p00 = ch_of(img.get_rgba(x - 1, y - 1), c);
    let p01 = ch_of(img.get_rgba(x, y - 1), c);
    let p02 = ch_of(img.get_rgba(x + 1, y - 1), c);
    let p10 = ch_of(img.get_rgba(x - 1, y), c);
    let p11 = ch_of(img.get_rgba(x, y), c);
    let p12 = ch_of(img.get_rgba(x + 1, y), c);
    let p20 = ch_of(img.get_rgba(x - 1, y + 1), c);
    let p21 = ch_of(img.get_rgba(x, y + 1), c);
    let p22 = ch_of(img.get_rgba(x + 1, y + 1), c);
    let sum: i128 = conv_term(k.w00, p00) + conv_term(k.w01, p01) + conv_term(k.w02, p02)
        + conv_term(k.w10, p10) + conv_term(k.w11, p11) + conv_term(k.w12, p12) + conv_term(
        k.w20,
        p20,
    ) + conv_term(k.w21, p21) + conv_term(k.w22, p22);
    let q = floor_div_i128(sum, k.den as i128);
    crate::arith::clamp_i128(q)
}

fn ch_of(p: Pixel, c: usize) -> (v: u8)
    requires
        c < 4,
    ensures
        v == px_ch(p, c as int),
{
    if c == 0 {
        p.r
    } else if c == 1 {
        p.g
    } else if c == 2 {
        p.b
    } else {
        p.a
    }
}

/// Apply a 3x3 kernel to every interior pixel, clamping each channel;
/// border pixels come out black.
pub fn convolve(img: &Image, k: Kernel3) -> (out: Image)
    requires
        img.wf(),
        fits_rgba(*img),
        kernel_wf(k),
    ensures
        convolve_rel(*img, k, out),
{
    let w = img.width;
    let h = img.height;
    proof {
        assert(w * h * 3 <= w * h * 4) by (nonlinear_arith)
            requires
                w >= 0,
                h >= 0,
        ;
    }
    let (out, results) = map_coords(
        w,
        h,
        3,
        (|x: usize, y: usize| -> (p: Pixel)
            requires
                (x < img.width) && (y < img.height) && img.wf() && kernel_wf(k),
            ensures
                (p == if interior(*img, x as int, y as int) {
                    Pixel {
                        r: conv_chan(*img, k, x as int, y as int, 0),
                        g: conv_chan(*img, k, x as int, y as int, 1),
                        b: conv_chan(*img, k, x as int, y as int, 2),
                        a: 255u8,
                    }
                } else {
                    Pixel { r: 0u8, g: 0u8, b: 0u8, a: 255u8 }
                }),
            {
                if x >= 1 && x + 1 < img.width && y >= 1 && y + 1 < img.height {
                    Pixel {
                        r: conv_chan_exec(img, k, x, y, 0),
                        g: conv_chan_exec(img, k, x, y, 1),
                        b: conv_chan_exec(img, k, x, y, 2),
                        a: 255,
                    }
                } else {
                    Pixel { r: 0, g: 0, b: 0, a: 255 }
                }
            }),
    );
    proof {
        assert forall|x: int, y: int| 0 <= x < img.width && 0 <= y < img.height implies #[trigger] out.rgba_at(
            x,
            y,
        ) == (if interior(*img, x, y) {
            Pixel {
                r: conv_chan(*img, k, x, y, 0),
                g: conv_chan(*img, k, x, y, 1),
                b: conv_chan(*img, k, x, y, 2),
                a: 255u8,
            }
        } else {
            Pixel { r: 0u8, g: 0u8, b: 0u8, a: 255u8 }
        }) by {
            let xu = x as usize;
            let yu = y as usize;
            let pp = results@[yu as int * w as int + xu as int];
            assert(out.at(x, y, 0) == pp.r && out.at(x, y, 1) == pp.g && out.at(x, y, 2) == pp.b);
        }
    }
    out
}

/// The Sobel horizontal-gradient kernel.
pub open spec fn sobel_x_kernel() -> Kernel3 {
    Kernel3 {
        w00: -1i64,
        w01: 0,
        w02: 1,
        w10: -2i64,
        w11: 0,
        w12: 2,
        w20: -1i64,
        w21: 0,
        w22: 1,
        den: 1,
    }
}

/// The Sobel vertical-gradient kernel.
pub open spec fn sobel_y_kernel() -> Kernel3 {
    Kernel3 {
        w00: -1i64,
        w01: -2i64,
        w02: -1i64,
        w10: 0,
        w11: 0,
        w12: 0,
        w20: 1,
        w21: 2,
        w22: 1,
        den: 1,
    }
}

/// The Laplacian kernel.
pub open spec fn laplacian_kernel() -> Kernel3 {
    Kernel3 { w00: 0, w01: 1, w02: 0, w10: 1, w11: -4i64, w12: 1, w20: 0, w21: 1, w22: 0, den: 1 }
}

/// The fixed 3x3 Gaussian blur kernel, in sixteenths.
pub open spec fn gaussian_kernel() -> Kernel3 {
    Kernel3 { w00: 1, w01: 2, w02: 1, w10: 2, w11: 4, w12: 2, w20: 1, w21: 2, w22: 1, den: 16 }
}

fn sobel_x_exec() -> (k: Kernel3)
    ensures
        k == sobel_x_kernel(),
{
    Kernel3 { w00: -1, w01: 0, w02: 1, w10: -2, w11: 0, w12: 2, w20: -1, w21: 0, w22: 1, den: 1 }
}

fn sobel_y_exec() -> (k: Kernel3)
    ensures
        k == sobel_y_kernel(),
{
    Kernel3 { w00: -1, w01: -2, w02: -1, w10: 0, w11: 0, w12: 0, w20: 1, w21: 2, w22: 1, den: 1 }
}

/// One neon channel: the gradient magnitude scaled by the strength,
/// shifted, and scaled by the brightness, all on the thousandths grid
/// with the floor taken once.
pub open spec fn neon_chan(gx: u8, gy: u8, sm: int, shift: int, bm: int) -> u8 {
    let mag = sqrt_floor((gx * gx + gy * gy) as nat);
    clamp255(((mag * sm + shift) * bm) / 1_000_000)
}

pub open spec fn neon_pixel(ex: Pixel, ey: Pixel, sm: int, shm: int, bm: int) -> Pixel {
    Pixel {
        r: neon_chan(ex.r, ey.r, sm, shm, bm),
        g: neon_chan(ex.g, ey.g, sm, 0, bm),
        b: neon_chan(ex.b, ey.b, sm, -shm, bm),
        a: 255u8,
    }
}

fn neon_chan_exec(gx: u8, gy: u8, sm: i64, shift: i64, bm: i64) -> (r: u8)
    requires
        -1_000_000_000 <= sm <= 1_000_000_000,
        -2_000_000_000 <= shift <= 2_000_000_000,
        -1_000_000_000 <= bm <= 1_000_000_000,
    ensures
        r == neon_chan(gx, gy, sm as int, shift as int, bm as int),
{
    proof {
        assert((gx as int) * (gx as int) + (gy as int) * (gy as int) <= 130050 && 0 <= (
        gx as int) * (gx as int) && 0 <= (gy as int) * (gy as int)) by (nonlinear_arith)
            requires
                gx <= 255,
                gy <= 255,
        ;
    }
    let m2: u64 = (gx as u64) * (gx as u64) + (gy as u64) * (gy as u64);
    let mag = isqrt(m2);
    proof {
        crate::arith::lemma_sqrt_floor(m2 as nat);
        assert(sqrt_floor(m2 as nat) <= 360) by {
            if sqrt_floor(m2 as nat) >= 361 {
                assert(361 * 361 <= sqrt_floor(m2 as nat) * sqrt_floor(
                    m2 as nat,
                )) by (nonlinear_arith)
                    requires
                        sqrt_floor(m2 as nat) >= 361,
                ;
                assert(false);
            }
        }
        assert(-(0x1000 * 1_000_000_000) <= (mag as int) * (sm as int) <= 0x1000
            * 1_000_000_000) by (nonlinear_arith)
            requires
                0 <= mag <= 360,
                -1_000_000_000 <= sm <= 1_000_000_000,
        ;
        assert(((mag as int) * (sm as int) + shift) * (bm as int) <= (0x1000 * 1_000_000_000 + 0x1_0000_0000)
            * 1_000_000_000 && ((mag as int) * (sm as int) + shift) * (bm as int) >= -((0x1000
            * 1_000_000_000 + 0x1_0000_0000) * 1_000_000_000)) by (nonlinear_arith)
            requires
                -(0x1000 * 1_000_000_000) <= (mag as int) * (sm as int) <= 0x1000 * 1_000_000_000,
                -2_000_000_000 <= shift <= 2_000_000_000,
                -1_000_000_000 <= bm <= 1_000_000_000,
        ;
    }
    let t: i128 = ((mag as i128) * (sm as i128) + (shift as i128)) * (bm as i128);
    let q = floor_div_i128(t, 1_000_000);
    crate::arith::clamp_i128(q)
}

/// `out` combines the two Sobel gradient images into the neon effect.
pub open spec fn neon_combine_rel(ex: Image, ey: Image, out: Image, sm: int, shm: int, bm: int) -> bool {
    &&& out.wf()
    &&& out.width == ex.width
    &&& out.height == ex.height
    &&& out.channels == 3
    &&& forall|x: int, y: int|
        0 <= x < ex.width && 0 <= y < ex.height ==> #[trigger] out.rgba_at(x, y) == neon_pixel(
            ex.rgba_at(x, y),
            ey.rgba_at(x, y),
            sm,
            shm,
            bm,
        )
}

/// The neon-edge effect: per-channel Sobel gradient magnitudes, scaled
/// and color-shifted (the shift added to red and subtracted from blue),
/// then scaled by the brightness.
pub fn neon_edge(img: &Image, strength_milli: i64, color_shift_milli: i64, brightness_milli: i64) -> (r: Result<
    Image,
    FxError,
>)
    requires
        img.wf(),
        fits_rgba(*img),
        -1_000_000_000 <= strength_milli <= 1_000_000_000,
        -2_000_000_000 <= color_shift_milli <= 2_000_000_000,
        -1_000_000_000 <= brightness_milli <= 1_000_000_000,
    ensures
        r is Ok,
        r matches Ok(out) ==> exists|ex: Image, ey: Image|
            #![trigger convolve_rel(*img, sobel_x_kernel(), ex), convolve_rel(*img, sobel_y_kernel(), ey)]
            convolve_rel(*img, sobel_x_kernel(), ex) && convolve_rel(*img, sobel_y_kernel(), ey)
                && neon_combine_rel(
                ex,
                ey,
                out,
                strength_milli as int,
                color_shift_milli as int,
                brightness_milli as int,
            ),
{
    let ex = convolve(img, sobel_x_exec());
    let ey = convolve(img, sobel_y_exec());
    let w = ex.width;
    let h = ex.height;
    proof {
        assert(w * h * 3 <= w * h * 4) by (nonlinear_arith)
            requires
                w >= 0,
                h >= 0,
        ;
    }
    let exr = &ex;
    let eyr = &ey;
    let (out, results) = map_coords(
        w,
        h,
        3,
        (|x: usize, y: usize| -> (p: Pixel)
            requires
                (x < exr.width) && (y < exr.height) && exr.wf() && eyr.wf() && (eyr.width
                    == exr.width) && (eyr.height == exr.height) && (-1_000_000_000 <= strength_milli
                    <= 1_000_000_000) && (-2_000_000_000 <= color_shift_milli <= 2_000_000_000) && (
                -1_000_000_000 <= brightness_milli <= 1_000_000_000),
            ensures
                (p == neon_pixel(
                    exr.rgba_at(x as int, y as int),
                    eyr.rgba_at(x as int, y as int),
                    strength_milli as int,
                    color_shift_milli as int,
                    brightness_milli as int,
                )),
            {
                let px = exr.get_rgba(x, y);
                let py = eyr.get_rgba(x, y);
                Pixel {
                    r: neon_chan_exec(px.r, py.r, strength_milli, color_shift_milli, brightness_milli),
                    g: neon_chan_exec(px.g, py.g, strength_milli, 0, brightness_milli),
                    b: neon_chan_exec(px.b, py.b, strength_milli, -color_shift_milli, brightness_milli),
                    a: 255,
                }
            }),
    );
    proof {
        assert forall|x: int, y: int| 0 <= x < ex.width && 0 <= y < ex.height implies #[trigger] out.rgba_at(
            x,
            y,
        ) == neon_pixel(
            ex.rgba_at(x, y),
            ey.rgba_at(x, y),
            strength_milli as int,
            color_shift_milli as int,
            brightness_milli as int,
        ) by {
            let xu = x as usize;
            let yu = y as usize;
            let pp = results@[yu as int * w as int + xu as int];
            assert(out.at(x, y, 0) == pp.r && out.at(x, y, 1) == pp.g && out.at(x, y, 2) == pp.b);
        }
        assert(convolve_rel(*img, sobel_x_kernel(), ex) && convolve_rel(
            *img,
            sobel_y_kernel(),
            ey,
        ) && neon_combine_rel(
            ex,
            ey,
            out,
            strength_milli as int,
            color_shift_milli as int,
            brightness_milli as int,
        ));
    }
    Ok(out)
}

/// The sketch numerator: the luma of the edge pixel (weights 0.3, 0.59,
/// 0.11 over a denominator of 100) re-centered around mid-gray, scaled
/// by the contrast and the intensity; the full value is `num / 10^8`.
pub open spec fn sketch_num(p: Pixel, cm: int, im: int) -> int {
    ((30 * p.r + 59 * p.g + 11 * p.b) - 12800) * cm * im + 12_800_000 * im
}

/// The final sketch sample: the value floored after clamping to [0, 255];
/// inversion happens before the cast, so an inverted sample rounds up.
pub open spec fn sketch_value(num: int, invert: bool) -> u8 {
    if !invert {
        clamp255(num / 100_000_000)
    } else {
        if num < 0 {
            255u8
        } else if num > 255 * 100_000_000 {
            0u8
        } else {
            (255 - num / 100_000_000 - (if num % 100_000_000 != 0 {
                1int
            } else {
                0
            })) as u8
        }
    }
}

pub open spec fn sketch_pixel(p: Pixel, cm: int, im: int, invert: bool) -> Pixel {
    let v = sketch_value(sketch_num(p, cm, im), invert);
    Pixel { r: v, g: v, b: v, a: 255u8 }
}

pub open spec fn sketch_combine_rel(e: Image, out: Image, cm: int, im: int, invert: bool) -> bool {
    &&& out.wf()
    &&& out.width == e.width
    &&& out.height == e.height
    &&& out.channels == 3
    &&& forall|x: int, y: int|
        0 <= x < e.width && 0 <= y < e.height ==> #[trigger] out.rgba_at(x, y) == sketch_pixel(
            e.rgba_at(x, y),
            cm,
            im,
            invert,
        )
}

fn sketch_value_exec(p: Pixel, cm: i64, im: i64, invert: bool) -> (r: u8)
    requires
        -1_000_000_000 <= cm <= 1_000_000_000,
        -1_000_000_000 <= im <= 1_000_000_000,
    ensures
        r == sketch_value(sketch_num(p, cm as int, im as int), invert),
{
    let lum: i128 = 30 * (p.r as i128) + 59 * (p.g as i128) + 11 * (p.b as i128);
    proof {
        assert(-12800 * 1_000_000_000 <= (lum - 12800) * (cm as int) <= 25500
            * 1_000_000_000) by (nonlinear_arith)
            requires
                0 <= lum <= 25500,
                -1_000_000_000 <= cm <= 1_000_000_000,
        ;
        assert(-(25500 * 1_000_000_000 * 1_000_000_000) <= (lum - 12800) * (cm as int) * (im as int)
            <= 25500 * 1_000_000_000 * 1_000_000_000) by (nonlinear_arith)
            requires
                -12800 * 1_000_000_000 <= (lum - 12800) * (cm as int) <= 25500 * 1_000_000_000,
                -1_000_000_000 <= im <= 1_000_000_000,
        ;
    }
    let num: i128 = (lum - 12800) * (cm as i128) * (im as i128) + 12_800_000 * (im as i128);
    let q = floor_div_i128(num, 100_000_000);
    proof {
        vstd::arithmetic::div_mod::lemma_fundamental_div_mod(num as int, 100_000_000);
    }
    if !invert {
        crate::arith::clamp_i128(q)
    } else {
        if num < 0 {
            255
        } else if num > 255 * 100_000_000 {
            0
        } else {
            let rem: i128 = num - q * 100_000_000;
            if rem != 0 {
                (254 - q) as u8
            } else {
                (255 - q) as u8
            }
        }
    }
}

/// The Laplacian sketch: a luma-weighted combination of the Laplacian
/// edges, contrast-stretched around mid-gray, scaled by the intensity,
/// and optionally inverted; the output is grayscale.
pub fn sketch(img: &Image, intensity_milli: i64, contrast_milli: i64, invert: bool) -> (r: Result<
    Image,
    FxError,
>)
    requires
        img.wf(),
        fits_rgba(*img),
        -1_000_000_000 <= intensity_milli <= 1_000_000_000,
        -1_000_000_000 <= contrast_milli <= 1_000_000_000,
    ensures
        r is Ok,
        r matches Ok(out) ==> exists|e: Image|
            (#[trigger] convolve_rel(*img, laplacian_kernel(), e)) && sketch_combine_rel(
                e,
                out,
                contrast_milli as int,
                intensity_milli as int,
                invert,
            ),
{
    let k = Kernel3 {
        w00: 0,
        w01: 1,
        w02: 0,
        w10: 1,
        w11: -4,
        w12: 1,
        w20: 0,
        w21: 1,
        w22: 0,
        den: 1,
    };
    let e = convolve(img, k);
    let w = e.width;
    let h = e.height;
    proof {
        assert(w * h * 3 <= w * h * 4) by (nonlinear_arith)
            requires
                w >= 0,
                h >= 0,
        ;
    }
    let er = &e;
    let (out, results) = map_coords(
        w,
        h,
        3,
        (|x: usize, y: usize| -> (p: Pixel)
            requires
                (x < er.width) && (y < er.height) && er.wf() && (-1_000_000_000 <= contrast_milli
                    <= 1_000_000_000) && (-1_000_000_000 <= intensity_milli <= 1_000_000_000),
            ensures
                (p == sketch_pixel(
                    er.rgba_at(x as int, y as int),
                    contrast_milli as int,
                    intensity_milli as int,
                    invert,
                )),
            {
                let q = er.get_rgba(x, y);
                let v = sketch_value_exec(q, contrast_milli, intensity_milli, invert);
                Pixel { r: v, g: v, b: v, a: 255 }
            }),
    );
    proof {
        assert forall|x: int, y: int| 0 <= x < e.width && 0 <= y < e.height implies #[trigger] out.rgba_at(
            x,
            y,
        ) == sketch_pixel(
            e.rgba_at(x, y),
            contrast_milli as int,
            intensity_milli as int,
            invert,
        ) by {
            let xu = x as usize;
            let yu = y as usize;
            let pp = results@[yu as int * w as int + xu as int];
            assert(out.at(x, y, 0) == pp.r && out.at(x, y, 1) == pp.g && out.at(x, y, 2) == pp.b);
        }
        assert(convolve_rel(*img, laplacian_kernel(), e) && sketch_combine_rel(
            e,
            out,
            contrast_milli as int,
            intensity_milli as int,
            invert,
        ));
    }
    Ok(out)
}

/// The direction-dependent emboss kernel: the angle's sine and cosine (in
/// thousandths) scaled by the strength, over a denominator of one
/// million.
pub open spec fn emboss_kernel(sm: int, dxm: int, dym: int) -> Kernel3 {
    Kernel3 {
        w00: (-(sm * dxm)) as i64,
        w01: (-(sm * dym)) as i64,
        w02: 0i64,
        w10: (-(sm * dym)) as i64,
        w11: 0i64,
        w12: (sm * dym) as i64,
        w20: 0i64,
        w21: (sm * dxm) as i64,
        w22: (sm * dym) as i64,
        den: 1_000_000i64,
    }
}

/// Each embossed sample re-centered around mid-gray.
pub open spec fn emboss_norm(v: u8) -> u8 {
    clamp255(v / 2 + 128)
}

pub open spec fn emboss_combine_rel(e: Image, out: Image) -> bool {
    &&& out.wf()
    &&& out.width == e.width
    &&& out.height == e.height
    &&& out.channels == 3
    &&& forall|x: int, y: int|
        0 <= x < e.width && 0 <= y < e.height ==> #[trigger] out.rgba_at(x, y) == (Pixel {
            r: emboss_norm(e.rgba_at(x, y).r),
            g: emboss_norm(e.rgba_at(x, y).r),
            b: emboss_norm(e.rgba_at(x, y).r),
            a: 255u8,
        })
}

/// Directional embossing: a kernel built from the angle's sine and cosine
/// scaled by the strength, convolved, then normalized to gray around 128
/// from the red channel.
pub fn emboss(img: &Image, strength_milli: i64, dx_milli: i64, dy_milli: i64) -> (r: Result<
    Image,
    FxError,
>)
    requires
        img.wf(),
        fits_rgba(*img),
        -1_000_000_000 <= strength_milli <= 1_000_000_000,
        -2000 <= dx_milli <= 2000,
        -2000 <= dy_milli <= 2000,
    ensures
        r is Ok,
        r matches Ok(out) ==> exists|e: Image|
            (#[trigger] convolve_rel(
                *img,
                emboss_kernel(strength_milli as int, dx_milli as int, dy_milli as int),
                e,
            )) && emboss_combine_rel(e, out),
{
    proof {
        assert(-(1_000_000_000 * 2000) <= (strength_milli as int) * (dx_milli as int)
            <= 1_000_000_000 * 2000 && -(1_000_000_000 * 2000) <= (strength_milli as int) * (
        dy_milli as int) <= 1_000_000_000 * 2000) by (nonlinear_arith)
            requires
                -1_000_000_000 <= strength_milli <= 1_000_000_000,
                -2000 <= dx_milli <= 2000,
                -2000 <= dy_milli <= 2000,
        ;
    }
    let wx: i64 = strength_milli * dx_milli;
    let wy: i64 = strength_milli * dy_milli;
    let k = Kernel3 {
        w00: -wx,
        w01: -wy,
        w02: 0,
        w10: -wy,
        w11: 0,
        w12: wy,
        w20: 0,
        w21: wx,
        w22: wy,
        den: 1_000_000,
    };
    let e = convolve(img, k);
    let w = e.width;
    let h = e.height;
    proof {
        assert(w * h * 3 <= w * h * 4) by (nonlinear_arith)
            requires
                w >= 0,
                h >= 0,
        ;
    }
    let er = &e;
    let (out, results) = map_coords(
        w,
        h,
        3,
        (|x: usize, y: usize| -> (p: Pixel)
            requires
                (x < er.width) && (y < er.height) && er.wf(),
            ensures
                (p == Pixel {
                    r: emboss_norm(er.rgba_at(x as int, y as int).r),
                    g: emboss_norm(er.rgba_at(x as int, y as int).r),
                    b: emboss_norm(er.rgba_at(x as int, y as int).r),
                    a: 255u8,
                }),
            {
                let q = er.get_rgba(x, y);
                let v = q.r / 2 + 128;
                Pixel { r: v, g: v, b: v, a: 255 }
            }),
    );
    proof {
        assert forall|x: int, y: int| 0 <= x < e.width && 0 <= y < e.height implies #[trigger] out.rgba_at(
            x,
            y,
        ) == (Pixel {
            r: emboss_norm(e.rgba_at(x, y).r),
            g: emboss_norm(e.rgba_at(x, y).r),
            b: emboss_norm(e.rgba_at(x, y).r),
            a: 255u8,
        }) by {
            let xu = x as usize;
            let yu = y as usize;
            let pp = results@[yu as int * w as int + xu as int];
            assert(out.at(x, y, 0) == pp.r && out.at(x, y, 1) == pp.g && out.at(x, y, 2) == pp.b);
        }
        assert(convolve_rel(
            *img,
            emboss_kernel(strength_milli as int, dx_milli as int, dy_milli as int),
            e,
        ) && emboss_combine_rel(e, out));
    }
    Ok(out)
}

/// The discretized gradient direction, as a step vector: horizontal when
/// the angle is within 22.5 degrees of the x-axis, vertical when within
/// 22.5 degrees of the y-axis, diagonal otherwise; the boundary constant
/// 27146/65536 approximates the tangent of 22.5 degrees.  Both gradients
/// come from clamped images and are non-negative.
pub open spec fn canny_dx(a: u8, b: u8) -> int {
    if a == 0 && b == 0 {
        1
    } else if 65536 * b < 27146 * a {
        1
    } else if 65536 * a < 27146 * b {
        0
    } else {
        1
    }
}

pub open spec fn canny_dy(a: u8, b: u8) -> int {
    if a == 0 && b == 0 {
        0
    } else if 65536 * b < 27146 * a {
        0
    } else if 65536 * a < 27146 * b {
        1
    } else {
        1
    }
}

/// Whether the pixel survives non-maximum suppression and the threshold:
/// its squared gradient magnitude beats both neighbors along the
/// discretized direction (the comparison values are the neighbors'
/// horizontal-gradient samples) and reaches the threshold.  Comparisons
/// are exact over squares.
pub open spec fn canny_edge_at(gx: Image, gy: Image, x: int, y: int, thr: int) -> bool {
    let a = gx.at(x, y, 0);
    let b = gy.at(x, y, 0);
    let m2 = a * a + b * b;
    let dx = canny_dx(a, b);
    let dy = canny_dy(a, b);
    let v1 = gx.at(x + dx, y + dy, 0);
    let v2 = gx.at(x - dx, y - dy, 0);
    m2 > v1 * v1 && m2 > v2 * v2 && (thr <= 0 || m2 * 1_000_000 >= thr * thr)
}

pub open spec fn canny_mask_rel(gx: Image, gy: Image, out: Image, thr: int) -> bool {
    &&& out.wf()
    &&& out.width == gx.width
    &&& out.height == gx.height
    &&& out.channels == 1
    &&& forall|x: int, y: int|
        0 <= x < gx.width && 0 <= y < gx.height ==> #[trigger] out.at(x, y, 0) == (if interior(
            gx,
            x,
            y,
        ) && canny_edge_at(gx, gy, x, y, thr) {
            255u8
        } else {
            0u8
        })
}

/// The whole Canny pipeline related to its input: a Gaussian blur, the
/// two Sobel gradients of the blurred image, and the suppressed,
/// thresholded mask of those gradients.
pub open spec fn canny_rel(img: Image, out: Image, thr: int) -> bool {
    exists|bl: Image, gx: Image, gy: Image|
        #![trigger convolve_rel(img, gaussian_kernel(), bl), convolve_rel(bl, sobel_x_kernel(), gx), convolve_rel(bl, sobel_y_kernel(), gy)]
        convolve_rel(img, gaussian_kernel(), bl) && convolve_rel(bl, sobel_x_kernel(), gx)
            && convolve_rel(bl, sobel_y_kernel(), gy) && canny_mask_rel(gx, gy, out, thr)
}

#[verifier::rlimit(60)]
fn canny_edge_exec(gxr: &Image, gyr: &Image, x: usize, y: usize, thr: i64) -> (e: bool)
    requires
        gxr.wf(),
        gyr.wf(),
        gyr.width == gxr.width,
        gyr.height == gxr.height,
        1 <= x < gxr.width - 1,
        1 <= y < gxr.height - 1,
        -1_000_000_000_000 <= thr <= 1_000_000_000_000,
    ensures
        e == canny_edge_at(*gxr, *gyr, x as int, y as int, thr as int),
{
    let a = gxr.get(x, y, 0);
    let b = gyr.get(x, y, 0);
    proof {
        assert((a as int) * (a as int) + (b as int) * (b as int) <= 130050 && 0 <= (a as int) * (
        a as int) && 0 <= (b as int) * (b as int)) by (nonlinear_arith)
            requires
                a <= 255,
                b <= 255,
        ;
    }
    let m2: u64 = (a as u64) * (a as u64) + (b as u64) * (b as u64);
    let (dx, dy): (usize, usize) = if a == 0 && b == 0 {
        (1, 0)
    } else if 65536 * (b as u64) < 27146 * (a as u64) {
        (1, 0)
    } else if 65536 * (a as u64) < 27146 * (b as u64) {
        (0, 1)
    } else {
        (1, 1)
    };
    let v1 = gxr.get(x + dx, y + dy, 0);
    let v2 = gxr.get(x - dx, y - dy, 0);
    proof {
        assert(0 <= (v1 as int) * (v1 as int) <= 130050 && 0 <= (v2 as int) * (v2 as int)
            <= 130050) by (nonlinear_arith)
            requires
                v1 <= 255,
                v2 <= 255,
        ;
        assert((m2 as int) * 1_000_000 <= 0x2_0000_0000_0000) by (nonlinear_arith)
            requires
                0 <= m2 <= 130050,
        ;
        assert(0 <= (thr as int) * (thr as int) <= 1_000_000_000_000
            * 1_000_000_000_000) by (nonlinear_arith)
            requires
                -1_000_000_000_000 <= thr <= 1_000_000_000_000,
        ;
    }
    let passes_threshold: bool = if thr <= 0 {
        true
    } else {
        (m2 as u128) * 1_000_000 >= (thr as u128) * (thr as u128)
    };
    (m2 > (v1 as u64) * (v1 as u64)) && (m2 > (v2 as u64) * (v2 as u64)) && passes_threshold
}

/// Canny-style edge detection: Gaussian blur, Sobel gradients,
/// non-maximum suppression along the discretized gradient direction, and
/// a binary threshold; the result is a 0/255 grayscale mask with the
/// one-pixel border excluded.
#[verifier::rlimit(100)]
#[verifier::spinoff_prover]
pub fn canny_edge_detection(img: &Image, threshold_milli: i64) -> (out: Image)
    requires
        img.wf(),
        fits_rgba(*img),
        -1_000_000_000_000 <= threshold_milli <= 1_000_000_000_000,
    ensures
        out.wf(),
        out.width == img.width,
        out.height == img.height,
        out.channels == 1,
        canny_rel(*img, out, threshold_milli as int),
{
    let gk = Kernel3 {
        w00: 1,
        w01: 2,
        w02: 1,
        w10: 2,
        w11: 4,
        w12: 2,
        w20: 1,
        w21: 2,
        w22: 1,
        den: 16,
    };
    let bl = convolve(img, gk);
    proof {
        assert(bl.width * bl.height * 4 <= img.width * img.height * 4);
    }
    let gx = convolve(&bl, sobel_x_exec());
    let gy = convolve(&bl, sobel_y_exec());
    let w = gx.width;
    let h = gx.height;
    proof {
        assert(w * h * 1 <= w * h * 4) by (nonlinear_arith)
            requires
                w >= 0,
                h >= 0,
        ;
    }
    let gxr = &gx;
    let gyr = &gy;
    let (out, results) = map_coords(
        w,
        h,
        1,
        (|x: usize, y: usize| -> (p: Pixel)
            requires
                (x < gxr.width) && (y < gxr.height) && gxr.wf() && gyr.wf() && (gyr.width
                    == gxr.width) && (gyr.height == gxr.height) && (-1_000_000_000_000
                    <= threshold_milli <= 1_000_000_000_000),
            ensures
                (p.r == if interior(*gxr, x as int, y as int) && canny_edge_at(
                    *gxr,
                    *gyr,
                    x as int,
                    y as int,
                    threshold_milli as int,
                ) {
                    255u8
                } else {
                    0u8
                }),
            {
                if x >= 1 && x + 1 < gxr.width && y >= 1 && y + 1 < gxr.height {
                    if canny_edge_exec(gxr, gyr, x, y, threshold_milli) {
                        Pixel { r: 255, g: 255, b: 255, a: 255 }
                    } else {
                        Pixel { r: 0, g: 0, b: 0, a: 255 }
                    }
                } else {
                    Pixel { r: 0, g: 0, b: 0, a: 255 }
                }
            }),
    );
    proof {
        assert forall|x: int, y: int| 0 <= x < gx.width && 0 <= y < gx.height implies #[trigger] out.at(
            x,
            y,
            0,
        ) == (if interior(gx, x, y) && canny_edge_at(gx, gy, x, y, threshold_milli as int) {
            255u8
        } else {
            0u8
        }) by {
            let xu = x as usize;
            let yu = y as usize;
            let pp = results@[yu as int * w as int + xu as int];
            assert(out.at(x, y, 0) == pp.r);
        }
        assert(convolve_rel(*img, gaussian_kernel(), bl) && convolve_rel(
            bl,
            sobel_x_kernel(),
            gx,
        ) && convolve_rel(bl, sobel_y_kernel(), gy) && canny_mask_rel(
            gx,
            gy,
            out,
            threshold_milli as int,
        ));
    }
    out
}

/// One quantized sample: the value scaled to `levels` steps with rounding
/// and mapped back, or black when there are no levels to keep.
pub open spec fn quantize_value(v: u8, levels: int) -> u8 {
    if levels < 1 {
        0u8
    } else {
        ((rnd_div(v * levels, 255) * 255) / levels) as u8
    }
}

pub open spec fn quantize_rel(inp: Image, out: Image, levels: int) -> bool {
    &&& out.wf()
    &&& out.width == inp.width
    &&& out.height == inp.height
    &&& out.channels == 3
    &&& forall|x: int, y: int|
        0 <= x < inp.width && 0 <= y < inp.height ==> #[trigger] out.rgba_at(x, y) == (Pixel {
            r: quantize_value(inp.at(x, y, 0), levels),
            g: quantize_value(inp.at(x, y, 0), levels),
            b: quantize_value(inp.at(x, y, 0), levels),
            a: 255u8,
        })
}

fn quantize_value_exec(v: u8, levels: u8) -> (r: u8)
    ensures
        r == quantize_value(v, levels as int),
{
    if levels < 1 {
        return 0;
    }
    proof {
        assert(0 <= (v as int) * (levels as int) <= 255 * 255 && (v as int) * (levels as int)
            <= 255 * (levels as int)) by (nonlinear_arith)
            requires
                v <= 255,
                levels <= 255,
        ;
        assert(rnd_div((v as int) * (levels as int), 255) <= levels as int) by (nonlinear_arith)
            requires
                0 <= (v as int) * (levels as int) <= 255 * (levels as int),
                levels >= 1,
        ;
        assert(0 <= rnd_div((v as int) * (levels as int), 255)) by (nonlinear_arith)
            requires
                0 <= (v as int) * (levels as int),
        ;
        assert((rnd_div((v as int) * (levels as int), 255) * 255) / (levels as int)
            <= 255) by (nonlinear_arith)
            requires
                0 <= rnd_div((v as int) * (levels as int), 255) <= levels as int,
                levels >= 1,
        ;
        assert(0 <= rnd_div((v as int) * (levels as int), 255) * 255) by (nonlinear_arith)
            requires
                0 <= rnd_div((v as int) * (levels as int), 255),
        ;
    }
    let t: u64 = rnd_div_u64((v as u64) * (levels as u64), 255);
    ((t * 255) / (levels as u64)) as u8
}

/// Quantize a grayscale edge map into `levels` brightness steps, as an
/// RGB image; zero levels leave black.
pub fn quantize_image(img: &Image, levels: u8) -> (out: Image)
    requires
        img.wf(),
        fits_rgba(*img),
    ensures
        quantize_rel(*img, out, levels as int),
{
    let w = img.width;
    let h = img.height;
    proof {
        assert(w * h * 3 <= w * h * 4) by (nonlinear_arith)
            requires
                w >= 0,
                h >= 0,
        ;
    }
    let (out, results) = map_coords(
        w,
        h,
        3,
        (|x: usize, y: usize| -> (p: Pixel)
            requires
                (x < img.width) && (y < img.height) && img.wf(),
            ensures
                (p == Pixel {
                    r: quantize_value(img.at(x as int, y as int, 0), levels as int),
                    g: quantize_value(img.at(x as int, y as int, 0), levels as int),
                    b: quantize_value(img.at(x as int, y as int, 0), levels as int),
                    a: 255u8,
                }),
            {
                let v = img.get(x, y, 0);
                let q = quantize_value_exec(v, levels);
                Pixel { r: q, g: q, b: q, a: 255 }
            }),
    );
    proof {
        assert forall|x: int, y: int| 0 <= x < img.width && 0 <= y < img.height implies #[trigger] out.rgba_at(
            x,
            y,
        ) == (Pixel {
            r: quantize_value(img.at(x, y, 0), levels as int),
            g: quantize_value(img.at(x, y, 0), levels as int),
            b: quantize_value(img.at(x, y, 0), levels as int),
            a: 255u8,
        }) by {
            let xu = x as usize;
            let yu = y as usize;
            let pp = results@[yu as int * w as int + xu as int];
            assert(out.at(x, y, 0) == pp.r && out.at(x, y, 1) == pp.g && out.at(x, y, 2) == pp.b);
        }
    }
    out
}

/// The quantized-edge filter: run Canny edge detection, then quantize the
/// edge map into `levels` brightness steps.
pub fn quantized_edge(img: &Image, levels: u8, threshold_milli: i64) -> (r: Result<Image, FxError>)
    requires
        img.wf(),
        fits_rgba(*img),
        -1_000_000_000_000 <= threshold_milli <= 1_000_000_000_000,
    ensures
        r is Ok,
        r matches Ok(out) ==> exists|e: Image|
            (#[trigger] canny_rel(*img, e, threshold_milli as int)) && quantize_rel(
                e,
                out,
                levels as int,
            ),
{
    let e = canny_edge_detection(img, threshold_milli);
    proof {
        assert(e.width * e.height * 4 <= img.width * img.height * 4);
    }
    let out = quantize_image(&e, levels);
    proof {
        assert(canny_rel(*img, e, threshold_milli as int) && quantize_rel(e, out, levels as int));
    }
    Ok(out)
}

/// Where a source coordinate lands when displaced radially away from the
/// image center at pass `d` of `depth`: the displacement is the strength
/// times the decreasing factor `(depth - d) / depth` times the signed
/// distance from the center, rounded half away from zero, clamped to the
/// image.
pub open spec fn extrude_tx(s: int, d: int, sm: int, depth: int, dim: int) -> int {
    let dv = crate::arith::rnd_div_away(sm * (depth - d) * (2 * s - dim), 2000 * depth);
    if s + dv < 0 {
        0
    } else if s + dv > dim - 1 {
        dim - 1
    } else {
        s + dv
    }
}

/// A color scaled by the decreasing factor `num / den`; alpha is kept.
pub open spec fn scale_pixel(p: Pixel, num: int, den: int) -> Pixel {
    Pixel {
        r: ((p.r * num) / den) as u8,
        g: ((p.g * num) / den) as u8,
        b: ((p.b * num) / den) as u8,
        a: p.a,
    }
}

/// What a pixel of the extruded image may hold: its original color, or
/// the faded color of some edge pixel displaced onto it by one of the
/// passes.
pub open spec fn extrude_candidate(
    orig: Image,
    edges: Image,
    sm: int,
    depth: int,
    x: int,
    y: int,
    q: Pixel,
) -> bool {
    q == orig.rgba_at(x, y) || exists|sx: int, sy: int, d: int|
        #![trigger extrude_tx(sx, d, sm, depth, orig.width as int), edges.at(sx, sy, 0)]
        0 <= sx < orig.width && 0 <= sy < orig.height && 1 <= d <= depth && edges.at(sx, sy, 0) > 0
            && x == extrude_tx(sx, d, sm, depth, orig.width as int) && y == extrude_tx(
            sy,
            d,
            sm,
            depth,
            orig.height as int,
        ) && q == scale_pixel(orig.rgba_at(sx, sy), depth - d, depth)
}

/// One write of the extrusion passes: at pass `d`, the edge pixel
/// `(sx, sy)` lands its faded color on the target `(x, y)`.
pub open spec fn extrude_writes(
    orig: Image,
    edges: Image,
    sm: int,
    depth: int,
    d: int,
    sx: int,
    sy: int,
    x: int,
    y: int,
) -> bool {
    &&& 1 <= d <= depth
    &&& 0 <= sx < orig.width
    &&& 0 <= sy < orig.height
    &&& edges.at(sx, sy, 0) > 0
    &&& x == extrude_tx(sx, d, sm, depth, orig.width as int)
    &&& y == extrude_tx(sy, d, sm, depth, orig.height as int)
}

/// The order the passes lay writes down: pass outermost, then row, then
/// column.
pub open spec fn before3(d1: int, y1: int, x1: int, d2: int, y2: int, x2: int) -> bool {
    d1 < d2 || (d1 == d2 && (y1 < y2 || (y1 == y2 && x1 < x2)))
}

pub open spec fn lex_le3(d1: int, y1: int, x1: int, d2: int, y2: int, x2: int) -> bool {
    before3(d1, y1, x1, d2, y2, x2) || (d1 == d2 && y1 == y2 && x1 == x2)
}

/// What pixel `(x, y)` holds once every write laid down before iteration
/// `(dl, yl, xl)` is in: the faded color of the latest such write that
/// targets it, or its original color when none does.  Later writes win,
/// so the latest writer pins the value exactly.
pub open spec fn extrude_pinned(
    orig: Image,
    edges: Image,
    sm: int,
    depth: int,
    x: int,
    y: int,
    q: Pixel,
    dl: int,
    yl: int,
    xl: int,
) -> bool {
    if exists|dd: int, sx: int, sy: int|
        (#[trigger] extrude_writes(orig, edges, sm, depth, dd, sx, sy, x, y)) && before3(
            dd,
            sy,
            sx,
            dl,
            yl,
            xl,
        ) {
        exists|dd: int, sx: int, sy: int|
            (#[trigger] extrude_writes(orig, edges, sm, depth, dd, sx, sy, x, y)) && before3(
                dd,
                sy,
                sx,
                dl,
                yl,
                xl,
            ) && q == scale_pixel(orig.rgba_at(sx, sy), depth - dd, depth) && (forall|
                d3: int,
                sx3: int,
                sy3: int,
            |
                ((#[trigger] extrude_writes(orig, edges, sm, depth, d3, sx3, sy3, x, y)) && before3(
                    d3,
                    sy3,
                    sx3,
                    dl,
                    yl,
                    xl,
                )) ==> lex_le3(d3, sy3, sx3, dd, sy, sx))
    } else {
        q == orig.rgba_at(x, y)
    }
}

/// Every pixel of `out` is pinned by the writes before `(dl, yl, xl)`.
pub open spec fn extrude_inv(
    orig: Image,
    edges: Image,
    sm: int,
    depth: int,
    out: Image,
    dl: int,
    yl: int,
    xl: int,
) -> bool {
    forall|x: int, y: int|
        0 <= x < orig.width && 0 <= y < orig.height ==> #[trigger] extrude_pinned(
            orig,
            edges,
            sm,
            depth,
            x,
            y,
            out.rgba_at(x, y),
            dl,
            yl,
            xl,
        )
}

/// A pinned pixel stays pinned when the iteration boundary advances, as
/// long as no write between the boundaries targets it.
proof fn lemma_pinned_advance(
    orig: Image,
    edges: Image,
    sm: int,
    depth: int,
    x: int,
    y: int,
    q: Pixel,
    d0: int,
    y0: int,
    x0: int,
    d1: int,
    y1: int,
    x1: int,
)
    requires
        extrude_pinned(orig, edges, sm, depth, x, y, q, d0, y0, x0),
        forall|d3: int, sx3: int, sy3: int|
            ((#[trigger] extrude_writes(orig, edges, sm, depth, d3, sx3, sy3, x, y)) && before3(
                d3,
                sy3,
                sx3,
                d1,
                y1,
                x1,
            )) ==> before3(d3, sy3, sx3, d0, y0, x0),
        forall|d3: int, sx3: int, sy3: int|
            ((#[trigger] extrude_writes(orig, edges, sm, depth, d3, sx3, sy3, x, y)) && before3(
                d3,
                sy3,
                sx3,
                d0,
                y0,
                x0,
            )) ==> before3(d3, sy3, sx3, d1, y1, x1),
    ensures
        extrude_pinned(orig, edges, sm, depth, x, y, q, d1, y1, x1),
{
    if exists|dd: int, sx: int, sy: int|
        (#[trigger] extrude_writes(orig, edges, sm, depth, dd, sx, sy, x, y)) && before3(
            dd,
            sy,
            sx,
            d0,
            y0,
            x0,
        ) {
        let (dd, sx, sy) = choose|dd: int, sx: int, sy: int|
            (#[trigger] extrude_writes(orig, edges, sm, depth, dd, sx, sy, x, y)) && before3(
                dd,
                sy,
                sx,
                d0,
                y0,
                x0,
            ) && q == scale_pixel(orig.rgba_at(sx, sy), depth - dd, depth) && (forall|
                d3: int,
                sx3: int,
                sy3: int,
            |
                ((#[trigger] extrude_writes(orig, edges, sm, depth, d3, sx3, sy3, x, y)) && before3(
                    d3,
                    sy3,
                    sx3,
                    d0,
                    y0,
                    x0,
                )) ==> lex_le3(d3, sy3, sx3, dd, sy, sx));
        assert(extrude_writes(orig, edges, sm, depth, dd, sx, sy, x, y) && before3(
            dd,
            sy,
            sx,
            d1,
            y1,
            x1,
        ));
    } else {
        assert forall|dd: int, sx: int, sy: int|
            !((#[trigger] extrude_writes(orig, edges, sm, depth, dd, sx, sy, x, y)) && before3(
                dd,
                sy,
                sx,
                d1,
                y1,
                x1,
            )) by {
            if extrude_writes(orig, edges, sm, depth, dd, sx, sy, x, y) && before3(
                dd,
                sy,
                sx,
                d1,
                y1,
                x1,
            ) {
                assert(before3(dd, sy, sx, d0, y0, x0));
            }
        }
    }
}

/// Layered radial extrusion of the detected edges: for each pass, every
/// edge pixel's color, faded by the pass's decreasing factor, is written
/// at its displaced position; later passes overwrite earlier ones.  With
/// zero passes the original image is returned unchanged; every pixel of
/// the result either keeps its original color or holds a faded, displaced
/// edge color.
pub fn extrude_edges(edges: &Image, original: &Image, strength_milli: i64, depth: u32) -> (out:
    Image)
    requires
        edges.wf(),
        original.wf(),
        edges.width == original.width,
        edges.height == original.height,
        original.channels == 3 || original.channels == 4,
        original.width < 0x1_0000_0000,
        original.height < 0x1_0000_0000,
        -1_000_000_000_000 <= strength_milli <= 1_000_000_000_000,
        depth <= 1_000_000,
    ensures
        out.wf(),
        out.width == original.width,
        out.height == original.height,
        out.channels == original.channels,
        depth == 0 ==> out.same_image(*original),
        forall|x: int, y: int|
            0 <= x < original.width && 0 <= y < original.height ==> #[trigger] extrude_candidate(
                *original,
                *edges,
                strength_milli as int,
                depth as int,
                x,
                y,
                out.rgba_at(x, y),
            ),
        extrude_inv(
            *original,
            *edges,
            strength_milli as int,
            depth as int,
            out,
            depth as int + 1,
            0,
            0,
        ),
{
    let mut out = crate::glitchfx::clone_image(original);
    proof {
        assert forall|x: int, y: int|
            0 <= x < original.width && 0 <= y < original.height implies #[trigger] extrude_candidate(
            *original,
            *edges,
            strength_milli as int,
            depth as int,
            x,
            y,
            out.rgba_at(x, y),
        ) by {
            assert(out.rgba_at(x, y) == original.rgba_at(x, y));
        }
        assert forall|x: int, y: int|
            0 <= x < original.width && 0 <= y < original.height implies #[trigger] extrude_pinned(
            *original,
            *edges,
            strength_milli as int,
            depth as int,
            x,
            y,
            out.rgba_at(x, y),
            1,
            0,
            0,
        ) by {
            assert forall|dd: int, sx: int, sy: int|
                !((#[trigger] extrude_writes(
                    *original,
                    *edges,
                    strength_milli as int,
                    depth as int,
                    dd,
                    sx,
                    sy,
                    x,
                    y,
                )) && before3(dd, sy, sx, 1, 0, 0)) by {}
            assert(out.rgba_at(x, y) == original.rgba_at(x, y));
        }
    }
    let mut d: u32 = 1;
    while d <= depth
        invariant
            1 <= d <= depth + 1,
            edges.wf(),
            original.wf(),
            edges.width == original.width,
            edges.height == original.height,
            original.channels == 3 || original.channels == 4,
            original.width < 0x1_0000_0000,
            original.height < 0x1_0000_0000,
            -1_000_000_000_000 <= strength_milli <= 1_000_000_000_000,
            depth <= 1_000_000,
            out.wf(),
            out.width == original.width,
            out.height == original.height,
            out.channels == original.channels,
            depth == 0 ==> out.same_image(*original),
            forall|x: int, y: int|
                0 <= x < original.width && 0 <= y < original.height
                    ==> #[trigger] extrude_candidate(
                    *original,
                    *edges,
                    strength_milli as int,
                    depth as int,
                    x,
                    y,
                    out.rgba_at(x, y),
                ),
            extrude_inv(
                *original,
                *edges,
                strength_milli as int,
                depth as int,
                out,
                d as int,
                0,
                0,
            ),
        decreases depth + 1 - d,
    {
        let mut y: usize = 0;
        while y < original.height
            invariant
                y <= original.height,
                1 <= d <= depth,
                edges.wf(),
                original.wf(),
                edges.width == original.width,
                edges.height == original.height,
                original.channels == 3 || original.channels == 4,
                original.width < 0x1_0000_0000,
                original.height < 0x1_0000_0000,
                -1_000_000_000_000 <= strength_milli <= 1_000_000_000_000,
                depth <= 1_000_000,
                out.wf(),
                out.width == original.width,
                out.height == original.height,
                out.channels == original.channels,
                forall|x: int, yy: int|
                    0 <= x < original.width && 0 <= yy < original.height
                        ==> #[trigger] extrude_candidate(
                        *original,
                        *edges,
                        strength_milli as int,
                        depth as int,
                        x,
                        yy,
                        out.rgba_at(x, yy),
                    ),
                extrude_inv(
                    *original,
                    *edges,
                    strength_milli as int,
                    depth as int,
                    out,
                    d as int,
                    y as int,
                    0,
                ),
            decreases original.height - y,
        {
            let mut x: usize = 0;
            while x < original.width
                invariant
                    x <= original.width,
                    y < original.height,
                    1 <= d <= depth,
                    edges.wf(),
                    original.wf(),
                    edges.width == original.width,
                    edges.height == original.height,
                    original.channels == 3 || original.channels == 4,
                    original.width < 0x1_0000_0000,
                    original.height < 0x1_0000_0000,
                    -1_000_000_000_000 <= strength_milli <= 1_000_000_000_000,
                    depth <= 1_000_000,
                    out.wf(),
                    out.width == original.width,
                    out.height == original.height,
                    out.channels == original.channels,
                    forall|xx: int, yy: int|
                        0 <= xx < original.width && 0 <= yy < original.height
                            ==> #[trigger] extrude_candidate(
                            *original,
                            *edges,
                            strength_milli as int,
                            depth as int,
                            xx,
                            yy,
                            out.rgba_at(xx, yy),
                        ),
                    extrude_inv(
                        *original,
                        *edges,
                        strength_milli as int,
                        depth as int,
                        out,
                        d as int,
                        y as int,
                        x as int,
                    ),
                decreases original.width - x,
            {
                let ev = edges.get(x, y, 0);
                if ev > 0 {
                    let nx = extrude_tx_exec(x, d, strength_milli, depth, original.width);
                    let ny = extrude_tx_exec(y, d, strength_milli, depth, original.height);
                    let src = original.get_rgba(x, y);
                    let fade: u32 = depth - d;
                    proof {
                        assert(0 <= (src.r as int) * (fade as int) <= 255 * 1_000_000 && 0 <= (
                        src.g as int) * (fade as int) <= 255 * 1_000_000 && 0 <= (src.b as int) * (
                        fade as int) <= 255 * 1_000_000) by (nonlinear_arith)
                            requires
                                fade <= 1_000_000,
                                src.r <= 255,
                                src.g <= 255,
                                src.b <= 255,
                        ;
                        assert((src.r as int) * (fade as int) <= 255 * (depth as int) && (
                        src.g as int) * (fade as int) <= 255 * (depth as int) && (src.b as int) * (
                        fade as int) <= 255 * (depth as int)) by (nonlinear_arith)
                            requires
                                fade <= depth,
                                src.r <= 255,
                                src.g <= 255,
                                src.b <= 255,
                        ;
                        assert((src.r as int) * (fade as int) / (depth as int) <= 255 && (
                        src.g as int) * (fade as int) / (depth as int) <= 255 && (src.b as int) * (
                        fade as int) / (depth as int) <= 255) by (nonlinear_arith)
                            requires
                                1 <= depth,
                                0 <= (src.r as int) * (fade as int),
                                0 <= (src.g as int) * (fade as int),
                                0 <= (src.b as int) * (fade as int),
                                (src.r as int) * (fade as int) <= 255 * (depth as int),
                                (src.g as int) * (fade as int) <= 255 * (depth as int),
                                (src.b as int) * (fade as int) <= 255 * (depth as int),
                        ;
                    }
                    let faded = Pixel {
                        r: (((src.r as u64) * (fade as u64)) / (depth as u64)) as u8,
                        g: (((src.g as u64) * (fade as u64)) / (depth as u64)) as u8,
                        b: (((src.b as u64) * (fade as u64)) / (depth as u64)) as u8,
                        a: src.a,
                    };
                    let ghost out0 = out;
                    out.put_rgba(nx, ny, faded);
                    proof {
                        assert forall|xx: int, yy: int|
                            0 <= xx < original.width && 0 <= yy
                                < original.height implies #[trigger] extrude_candidate(
                            *original,
                            *edges,
                            strength_milli as int,
                            depth as int,
                            xx,
                            yy,
                            out.rgba_at(xx, yy),
                        ) by {
                            if xx == nx as int && yy == ny as int {
                                assert(extrude_tx(
                                    x as int,
                                    d as int,
                                    strength_milli as int,
                                    depth as int,
                                    original.width as int,
                                ) == nx as int);
                                assert(edges.at(x as int, y as int, 0) > 0);
                                assert(out.rgba_at(xx, yy) == (if original.channels == 4 {
                                    faded
                                } else {
                                    Pixel { r: faded.r, g: faded.g, b: faded.b, a: 255u8 }
                                }));
                                assert(out.rgba_at(xx, yy) == scale_pixel(
                                    original.rgba_at(x as int, y as int),
                                    depth - d,
                                    depth as int,
                                ));
                            } else {
                                assert(out.rgba_at(xx, yy) == out0.rgba_at(xx, yy));
                            }
                        }
                        assert forall|px: int, py: int|
                            0 <= px < original.width && 0 <= py
                                < original.height implies #[trigger] extrude_pinned(
                            *original,
                            *edges,
                            strength_milli as int,
                            depth as int,
                            px,
                            py,
                            out.rgba_at(px, py),
                            d as int,
                            y as int,
                            x as int + 1,
                        ) by {
                            if px == nx as int && py == ny as int {
                                assert(extrude_writes(
                                    *original,
                                    *edges,
                                    strength_milli as int,
                                    depth as int,
                                    d as int,
                                    x as int,
                                    y as int,
                                    px,
                                    py,
                                ));
                                assert(out.rgba_at(px, py) == scale_pixel(
                                    original.rgba_at(x as int, y as int),
                                    depth - d,
                                    depth as int,
                                ));
                                assert forall|d3: int, sx3: int, sy3: int|
                                    ((#[trigger] extrude_writes(
                                        *original,
                                        *edges,
                                        strength_milli as int,
                                        depth as int,
                                        d3,
                                        sx3,
                                        sy3,
                                        px,
                                        py,
                                    )) && before3(d3, sy3, sx3, d as int, y as int, x as int
                                        + 1)) implies lex_le3(
                                    d3,
                                    sy3,
                                    sx3,
                                    d as int,
                                    y as int,
                                    x as int,
                                ) by {}
                            } else {
                                assert(out.rgba_at(px, py) == out0.rgba_at(px, py));
                                assert forall|d3: int, sx3: int, sy3: int|
                                    ((#[trigger] extrude_writes(
                                        *original,
                                        *edges,
                                        strength_milli as int,
                                        depth as int,
                                        d3,
                                        sx3,
                                        sy3,
                                        px,
                                        py,
                                    )) && before3(d3, sy3, sx3, d as int, y as int, x as int
                                        + 1)) implies before3(
                                    d3,
                                    sy3,
                                    sx3,
                                    d as int,
                                    y as int,
                                    x as int,
                                ) by {
                                    if !before3(d3, sy3, sx3, d as int, y as int, x as int) {
                                        assert(d3 == d as int && sy3 == y as int && sx3
                                            == x as int);
                                        assert(px == nx as int && py == ny as int);
                                    }
                                }
                                lemma_pinned_advance(
                                    *original,
                                    *edges,
                                    strength_milli as int,
                                    depth as int,
                                    px,
                                    py,
                                    out0.rgba_at(px, py),
                                    d as int,
                                    y as int,
                                    x as int,
                                    d as int,
                                    y as int,
                                    x as int + 1,
                                );
                            }
                        }
                    }
                } else {
                    proof {
                        assert forall|px: int, py: int|
                            0 <= px < original.width && 0 <= py
                                < original.height implies #[trigger] extrude_pinned(
                            *original,
                            *edges,
                            strength_milli as int,
                            depth as int,
                            px,
                            py,
                            out.rgba_at(px, py),
                            d as int,
                            y as int,
                            x as int + 1,
                        ) by {
                            assert forall|d3: int, sx3: int, sy3: int|
                                ((#[trigger] extrude_writes(
                                    *original,
                                    *edges,
                                    strength_milli as int,
                                    depth as int,
                                    d3,
                                    sx3,
                                    sy3,
                                    px,
                                    py,
                                )) && before3(d3, sy3, sx3, d as int, y as int, x as int
                                    + 1)) implies before3(
                                d3,
                                sy3,
                                sx3,
                                d as int,
                                y as int,
                                x as int,
                            ) by {
                                if !before3(d3, sy3, sx3, d as int, y as int, x as int) {
                                    assert(d3 == d as int && sy3 == y as int && sx3 == x as int);
                                    assert(edges.at(x as int, y as int, 0) > 0);
                                }
                            }
                            lemma_pinned_advance(
                                *original,
                                *edges,
                                strength_milli as int,
                                depth as int,
                                px,
                                py,
                                out.rgba_at(px, py),
                                d as int,
                                y as int,
                                x as int,
                                d as int,
                                y as int,
                                x as int + 1,
                            );
                        }
                    }
                }
                x = x + 1;
            }
            proof {
                assert forall|px: int, py: int|
                    0 <= px < original.width && 0 <= py
                        < original.height implies #[trigger] extrude_pinned(
                    *original,
                    *edges,
                    strength_milli as int,
                    depth as int,
                    px,
                    py,
                    out.rgba_at(px, py),
                    d as int,
                    y as int + 1,
                    0,
                ) by {
                    lemma_pinned_advance(
                        *original,
                        *edges,
                        strength_milli as int,
                        depth as int,
                        px,
                        py,
                        out.rgba_at(px, py),
                        d as int,
                        y as int,
                        original.width as int,
                        d as int,
                        y as int + 1,
                        0,
                    );
                }
            }
            y = y + 1;
        }
        proof {
            assert forall|px: int, py: int|
                0 <= px < original.width && 0 <= py
                    < original.height implies #[trigger] extrude_pinned(
                *original,
                *edges,
                strength_milli as int,
                depth as int,
                px,
                py,
                out.rgba_at(px, py),
                d as int + 1,
                0,
                0,
            ) by {
                lemma_pinned_advance(
                    *original,
                    *edges,
                    strength_milli as int,
                    depth as int,
                    px,
                    py,
                    out.rgba_at(px, py),
                    d as int,
                    original.height as int,
                    0,
                    d as int + 1,
                    0,
                    0,
                );
            }
        }
        d = d + 1;
    }
    out
}

#[verifier::rlimit(60)]
fn extrude_tx_exec(s: usize, d: u32, sm: i64, depth: u32, dim: usize) -> (r: usize)
    requires
        s < dim,
        dim < 0x1_0000_0000,
        1 <= d <= depth,
        depth <= 1_000_000,
        -1_000_000_000_000 <= sm <= 1_000_000_000_000,
    ensures
        r as int == extrude_tx(s as int, d as int, sm as int, depth as int, dim as int),
        r < dim,
{
    proof {
        assert(-(1_000_000_000_000int * 1_000_000) <= (sm as int) * ((depth as int) - (d as int))
            <= 1_000_000_000_000int * 1_000_000) by (nonlinear_arith)
            requires
                -1_000_000_000_000 <= sm <= 1_000_000_000_000,
                0 <= (depth as int) - (d as int) <= 1_000_000,
        ;
        assert(-(1_000_000_000_000int * 1_000_000 * 0x2_0000_0000) <= (sm as int) * ((depth as int)
            - (d as int)) * (2 * (s as int) - (dim as int)) <= 1_000_000_000_000int * 1_000_000
            * 0x2_0000_0000) by (nonlinear_arith)
            requires
                -(1_000_000_000_000int * 1_000_000) <= (sm as int) * ((depth as int) - (d as int))
                    <= 1_000_000_000_000int * 1_000_000,
                -0x2_0000_0000 <= 2 * (s as int) - (dim as int) <= 0x2_0000_0000,
        ;
    }
    let num: i128 = (sm as i128) * ((depth as i128) - (d as i128)) * (2 * (s as i128)
        - (dim as i128));
    let den: i128 = 2000 * (depth as i128);
    let dv = crate::arith::rnd_div_away_i128(num, den);
    let t: i128 = (s as i128) + dv;
    if t < 0 {
        0
    } else if t > (dim as i128) - 1 {
        dim - 1
    } else {
        t as usize
    }
}

/// The edge-extrusion filter: detect edges with the Canny pipeline, then
/// extrude them radially over `depth` passes.
#[verifier::rlimit(100)]
#[verifier::spinoff_prover]
pub fn edge_extrusion(img: &Image, strength_milli: i64, depth: u32, threshold_milli: i64) -> (r:
    Result<Image, FxError>)
    requires
        img.wf(),
        fits_rgba(*img),
        img.channels == 3 || img.channels == 4,
        img.width < 0x1_0000_0000,
        img.height < 0x1_0000_0000,
        -1_000_000_000_000 <= strength_milli <= 1_000_000_000_000,
        -1_000_000_000_000 <= threshold_milli <= 1_000_000_000_000,
        depth <= 1_000_000,
    ensures
        r is Ok,
        r matches Ok(out) ==> exists|e: Image|
            (#[trigger] canny_rel(*img, e, threshold_milli as int)) && out.wf() && out.width
                == img.width && out.height == img.height && out.channels == img.channels && (depth
                == 0 ==> out.same_image(*img)) && extrude_inv(
                *img,
                e,
                strength_milli as int,
                depth as int,
                out,
                depth as int + 1,
                0,
                0,
            ) && forall|x: int, y: int|
                0 <= x < img.width && 0 <= y < img.height ==> #[trigger] extrude_candidate(
                    *img,
                    e,
                    strength_milli as int,
                    depth as int,
                    x,
                    y,
                    out.rgba_at(x, y),
                ),
{
    let e = canny_edge_detection(img, threshold_milli);
    let out = extrude_edges(&e, img, strength_milli, depth);
    proof {
        assert(canny_rel(*img, e, threshold_milli as int));
    }
    Ok(out)
}

} // verus!
