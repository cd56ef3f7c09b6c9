//! Color filters: per-pixel adjustments of contrast, brightness,
//! saturation, tone and palette.  Factors that the caller supplies as real
//! numbers are taken in thousandths (a factor of 1.5 is 1500), and every
//! formula is computed exactly over that grid.

use vstd::prelude::*;
use vstd::string::StringSliceAdditionalSpecFns;

use crate::arith::{clamp255, clamp_i128, floor_div_i128, lemma_divmod_pin, lemma_pix_idx_lt, pix_idx};
use crate::buffer::{map_coords, Image, Pixel};
use crate::color_utils::{color_distance, create_color_map, spec_color_distance, spec_color_of, Rgb};
use crate::errors::FxError;
use crate::hsv::{hsv_to_rgb, rgb_to_hsv, spec_hsv_to_rgb, spec_rgb_to_hsv, Hsv};
use crate::rng::rng_range;

verus! {

/// An output image of a pointwise RGBA filter must fit in memory.
pub open spec fn fits_rgba(img: Image) -> bool {
    img.width * img.height * 4 <= usize::MAX
}

/// `out = clamp(128 + factor * (in - 128))` on one channel, on the
/// thousandths grid, rounding toward minus infinity.
pub open spec fn contrast_channel(v: u8, fm: int) -> u8 {
    clamp255(128 + (fm * (v - 128)) / 1000)
}

pub open spec fn contrast_pixel(p: Pixel, fm: int) -> Pixel {
    Pixel {
        r: contrast_channel(p.r, fm),
        g: contrast_channel(p.g, fm),
        b: contrast_channel(p.b, fm),
        a: p.a,
    }
}

/// `out` is `inp` with the contrast formula applied to every RGB channel
/// and alpha preserved.
pub open spec fn contrast_rel(inp: Image, out: Image, fm: int) -> bool {
    &&& out.wf()
    &&& out.width == inp.width
    &&& out.height == inp.height
    &&& out.channels == 4
    &&& forall|x: int, y: int|
        0 <= x < inp.width && 0 <= y < inp.height ==> #[trigger] out.rgba_at(x, y)
            == contrast_pixel(inp.rgba_at(x, y), fm)
}

fn contrast_channel_exec(v: u8, fm: i64) -> (r: u8)
    ensures
        r == contrast_channel(v, fm as int),
{
    proof {
        assert((fm as int) * ((v as int) - 128) <= 0x8000_0000_0000_0000 * 128 && (fm as int) * ((
        v as int) - 128) >= -(0x8000_0000_0000_0000 * 128)) by (nonlinear_arith)
            requires
                -0x8000_0000_0000_0000 <= fm as int <= 0x7FFF_FFFF_FFFF_FFFF,
                -128 <= (v as int) - 128 <= 127,
        ;
    }
    let t: i128 = (fm as i128) * ((v as i128) - 128);
    let q = floor_div_i128(t, 1000);
    clamp_i128(128 + q)
}

/// Scale the distance of every RGB channel from mid-gray by the factor;
/// alpha is preserved.  A factor of exactly 1 changes nothing.
pub fn contrast(img: &Image, factor_milli: i64) -> (out: Image)
    requires
        img.wf(),
        fits_rgba(*img),
    ensures
        contrast_rel(*img, out, factor_milli as int),
{
    let w = img.width;
    let h = img.height;
    let (out, results) = map_coords(
        w,
        h,
        4,
        (|x: usize, y: usize| -> (p: Pixel)
            requires
                (x < img.width) && (y < img.height) && img.wf(),
            ensures
                (p == contrast_pixel(img.rgba_at(x as int, y as int), factor_milli as int)),
            {
                let q = img.get_rgba(x, y);
                Pixel {
                    r: contrast_channel_exec(q.r, factor_milli),
                    g: contrast_channel_exec(q.g, factor_milli),
                    b: contrast_channel_exec(q.b, factor_milli),
                    a: q.a,
                }
            }),
    );
    proof {
        assert forall|x: int, y: int| 0 <= x < img.width && 0 <= y < img.height implies #[trigger] out.rgba_at(
            x,
            y,
        ) == contrast_pixel(img.rgba_at(x, y), factor_milli as int) by {
            let xu = x as usize;
            let yu = y as usize;
            let pp = results@[yu as int * w as int + xu as int];
            assert(out.at(x, y, 0) == pp.r && out.at(x, y, 1) == pp.g && out.at(x, y, 2) == pp.b
                && out.at(x, y, 3) == pp.a);
        }
    }
    out
}

/// A contrast factor of exactly 1 returns every pixel unchanged.
pub proof fn lemma_contrast_identity(inp: Image, out: Image)
    requires
        contrast_rel(inp, out, 1000),
    ensures
        forall|x: int, y: int|
            0 <= x < inp.width && 0 <= y < inp.height ==> #[trigger] out.rgba_at(x, y)
                == inp.rgba_at(x, y),
{
    assert forall|x: int, y: int| 0 <= x < inp.width && 0 <= y < inp.height implies #[trigger] out.rgba_at(
        x,
        y,
    ) == inp.rgba_at(x, y) by {
        let p = inp.rgba_at(x, y);
        lemma_contrast_unit_channel(p.r);
        lemma_contrast_unit_channel(p.g);
        lemma_contrast_unit_channel(p.b);
    }
}

proof fn lemma_contrast_unit_channel(v: u8)
    ensures
        contrast_channel(v, 1000) == v,
{
    assert(1000 * (v - 128) == (v - 128) * 1000 + 0) by (nonlinear_arith);
    lemma_divmod_pin(1000 * (v - 128), 1000, v - 128, 0);
}

/// `out = min(in * factor, 255)` on one channel, factor in thousandths.
pub open spec fn brightness_channel(v: u8, fm: int) -> u8 {
    clamp255((v * fm) / 1000)
}

pub open spec fn brightness_pixel(p: Pixel, fm: int) -> Pixel {
    Pixel {
        r: brightness_channel(p.r, fm),
        g: brightness_channel(p.g, fm),
        b: brightness_channel(p.b, fm),
        a: p.a,
    }
}

pub open spec fn brightness_rel(inp: Image, out: Image, fm: int) -> bool {
    &&& out.wf()
    &&& out.width == inp.width
    &&& out.height == inp.height
    &&& out.channels == 4
    &&& forall|x: int, y: int|
        0 <= x < inp.width && 0 <= y < inp.height ==> #[trigger] out.rgba_at(x, y)
            == brightness_pixel(inp.rgba_at(x, y), fm)
}

fn brightness_channel_exec(v: u8, fm: i64) -> (r: u8)
    requires
        0 <= fm <= 2000,
    ensures
        r == brightness_channel(v, fm as int),
{
    proof {
        assert((v as int) * (fm as int) <= 255 * 2000) by (nonlinear_arith)
            requires
                v <= 255,
                0 <= fm <= 2000,
        ;
    }
    let t: u64 = (v as u64) * (fm as u64);
    let q = t / 1000;
    if q > 255 {
        255
    } else {
        q as u8
    }
}

/// Scale every RGB channel by the factor, clamping at white; alpha is
/// preserved.  Output channels never exceed 255.  A factor outside [0, 2]
/// is rejected before any pixel is touched.
pub fn brightness(img: &Image, factor_milli: i64) -> (r: Result<Image, FxError>)
    requires
        img.wf(),
        fits_rgba(*img),
    ensures
        (factor_milli < 0 || factor_milli > 2000) <==> r is Err,
        r is Err ==> r == Result::<Image, FxError>::Err(FxError::BrightnessFactorOutOfRange),
        r matches Ok(out) ==> brightness_rel(*img, out, factor_milli as int),
{
    if factor_milli < 0 || factor_milli > 2000 {
        return Err(FxError::BrightnessFactorOutOfRange);
    }
    let w = img.width;
    let h = img.height;
    let (out, results) = map_coords(
        w,
        h,
        4,
        (|x: usize, y: usize| -> (p: Pixel)
            requires
                (x < img.width) && (y < img.height) && img.wf() && (0 <= factor_milli <= 2000),
            ensures
                (p == brightness_pixel(img.rgba_at(x as int, y as int), factor_milli as int)),
            {
                let q = img.get_rgba(x, y);
                Pixel {
                    r: brightness_channel_exec(q.r, factor_milli),
                    g: brightness_channel_exec(q.g, factor_milli),
                    b: brightness_channel_exec(q.b, factor_milli),
                    a: q.a,
                }
            }),
    );
    proof {
        assert forall|x: int, y: int| 0 <= x < img.width && 0 <= y < img.height implies #[trigger] out.rgba_at(
            x,
            y,
        ) == brightness_pixel(img.rgba_at(x, y), factor_milli as int) by {
            let xu = x as usize;
            let yu = y as usize;
            let pp = results@[yu as int * w as int + xu as int];
            assert(out.at(x, y, 0) == pp.r && out.at(x, y, 1) == pp.g && out.at(x, y, 2) == pp.b
                && out.at(x, y, 3) == pp.a);
        }
    }
    Ok(out)
}

/// One channel of the fixed sepia transform: a weighted sum of the RGB
/// channels in thousandths, clamped at white.
pub open spec fn sepia_channel(p: Pixel, wr: int, wg: int, wb: int) -> u8 {
    clamp255((wr * p.r + wg * p.g + wb * p.b) / 1000)
}

pub open spec fn sepia_pixel(p: Pixel) -> Pixel {
    Pixel {
        r: sepia_channel(p, 393, 769, 189),
        g: sepia_channel(p, 349, 686, 168),
        b: sepia_channel(p, 272, 534, 131),
        a: p.a,
    }
}

pub open spec fn sepia_rel(inp: Image, out: Image) -> bool {
    &&& out.wf()
    &&& out.width == inp.width
    &&& out.height == inp.height
    &&& out.channels == 4
    &&& forall|x: int, y: int|
        0 <= x < inp.width && 0 <= y < inp.height ==> #[trigger] out.rgba_at(x, y) == sepia_pixel(
            inp.rgba_at(x, y),
        )
}

fn sepia_channel_exec(p: Pixel, wr: u32, wg: u32, wb: u32) -> (r: u8)
    requires
        wr <= 1000,
        wg <= 1000,
        wb <= 1000,
    ensures
        r == sepia_channel(p, wr as int, wg as int, wb as int),
{
    proof {
        assert((wr as int) * (p.r as int) <= 1000 * 255 && (wg as int) * (p.g as int) <= 1000 * 255
            && (wb as int) * (p.b as int) <= 1000 * 255 && (wr as int) * (p.r as int) >= 0 && (
        wg as int) * (p.g as int) >= 0 && (wb as int) * (p.b as int) >= 0) by (nonlinear_arith)
            requires
                wr <= 1000,
                wg <= 1000,
                wb <= 1000,
                p.r <= 255,
                p.g <= 255,
                p.b <= 255,
        ;
    }
    let t: u32 = wr * (p.r as u32) + wg * (p.g as u32) + wb * (p.b as u32);
    let q = t / 1000;
    if q > 255 {
        255
    } else {
        q as u8
    }
}

/// The fixed 3x3 sepia color transform, clamped at white per channel;
/// alpha is preserved.
pub fn sepia(img: &Image) -> (r: Result<Image, FxError>)
    requires
        img.wf(),
        fits_rgba(*img),
    ensures
        r matches Ok(out) ==> sepia_rel(*img, out),
        r is Ok,
{
    let w = img.width;
    let h = img.height;
    let (out, results) = map_coords(
        w,
        h,
        4,
        (|x: usize, y: usize| -> (p: Pixel)
            requires
                (x < img.width) && (y < img.height) && img.wf(),
            ensures
                (p == sepia_pixel(img.rgba_at(x as int, y as int))),
            {
                let q = img.get_rgba(x, y);
                Pixel {
                    r: sepia_channel_exec(q, 393, 769, 189),
                    g: sepia_channel_exec(q, 349, 686, 168),
                    b: sepia_channel_exec(q, 272, 534, 131),
                    a: q.a,
                }
            }),
    );
    proof {
        assert forall|x: int, y: int| 0 <= x < img.width && 0 <= y < img.height implies #[trigger] out.rgba_at(
            x,
            y,
        ) == sepia_pixel(img.rgba_at(x, y)) by {
            let xu = x as usize;
            let yu = y as usize;
            let pp = results@[yu as int * w as int + xu as int];
            assert(out.at(x, y, 0) == pp.r && out.at(x, y, 1) == pp.g && out.at(x, y, 2) == pp.b
                && out.at(x, y, 3) == pp.a);
        }
    }
    Ok(out)
}

/// Scale a channel by a factor in thousandths, add an offset, clamp at
/// white: one step of the vaporwave tint.
pub open spec fn tint(v: int, fm: int, add: int) -> int {
    let t = (v * fm) / 1000 + add;
    if t > 255 {
        255
    } else {
        t
    }
}

/// The fixed vaporwave tint: red boosted twice, green damped, blue boosted
/// twice; the result drops alpha.
pub open spec fn vaporwave_pixel(p: Pixel) -> Pixel {
    Pixel {
        r: tint(tint(p.r as int, 800, 50), 900, 25) as u8,
        g: tint(p.g as int, 800, 0) as u8,
        b: tint(tint(p.b as int, 1200, 30), 1100, 0) as u8,
        a: 255u8,
    }
}

pub open spec fn vaporwave_rel(inp: Image, out: Image) -> bool {
    &&& out.wf()
    &&& out.width == inp.width
    &&& out.height == inp.height
    &&& out.channels == 3
    &&& forall|x: int, y: int|
        0 <= x < inp.width && 0 <= y < inp.height ==> #[trigger] out.rgba_at(x, y)
            == vaporwave_pixel(inp.rgba_at(x, y))
}

fn tint_exec(v: u32, fm: u32, add: u32) -> (r: u32)
    requires
        v <= 255,
        fm <= 2000,
        add <= 50,
    ensures
        r == tint(v as int, fm as int, add as int),
        r <= 255,
{
    proof {
        assert((v as int) * (fm as int) <= 255 * 2000) by (nonlinear_arith)
            requires
                v <= 255,
                fm <= 2000,
        ;
    }
    let t = (v * fm) / 1000 + add;
    if t > 255 {
        255
    } else {
        t
    }
}

/// The fixed multiplicative/additive vaporwave tint, producing an RGB
/// image.
pub fn vaporwave(img: &Image) -> (r: Result<Image, FxError>)
    requires
        img.wf(),
        fits_rgba(*img),
    ensures
        r matches Ok(out) ==> vaporwave_rel(*img, out),
        r is Ok,
{
    let w = img.width;
    let h = img.height;
    proof {
        assert(w * h * 3 <= w * h * 4) by (nonlinear_arith)
            requires
                w >= 0,
                h >= 0,
        ;
    }
    let (out, results) = map_coords(
        w,
        h,
        3,
        (|x: usize, y: usize| -> (p: Pixel)
            requires
                (x < img.width) && (y < img.height) && img.wf(),
            ensures
                (p == vaporwave_pixel(img.rgba_at(x as int, y as int))),
            {
                let q = img.get_rgba(x, y);
                Pixel {
                    r: tint_exec(tint_exec(q.r as u32, 800, 50), 900, 25) as u8,
                    g: tint_exec(q.g as u32, 800, 0) as u8,
                    b: tint_exec(tint_exec(q.b as u32, 1200, 30), 1100, 0) as u8,
                    a: 255,
                }
            }),
    );
    proof {
        assert forall|x: int, y: int| 0 <= x < img.width && 0 <= y < img.height implies #[trigger] out.rgba_at(
            x,
            y,
        ) == vaporwave_pixel(img.rgba_at(x, y)) by {
            let xu = x as usize;
            let yu = y as usize;
            let pp = results@[yu as int * w as int + xu as int];
            assert(out.at(x, y, 0) == pp.r && out.at(x, y, 1) == pp.g && out.at(x, y, 2) == pp.b);
        }
    }
    Ok(out)
}

/// The replacement rule: a pixel within `tolerance` of the target color is
/// replaced outright; every other pixel keeps its RGB value.
pub open spec fn replace_pixel(p: Pixel, target: Rgb, replacement: Rgb, tolerance: u8) -> Pixel {
    let here = Rgb { r: p.r, g: p.g, b: p.b };
    if spec_color_distance(here, target) <= tolerance {
        Pixel { r: replacement.r, g: replacement.g, b: replacement.b, a: 255u8 }
    } else {
        Pixel { r: p.r, g: p.g, b: p.b, a: 255u8 }
    }
}

pub open spec fn color_replacer_rel(
    inp: Image,
    out: Image,
    target: Rgb,
    replacement: Rgb,
    tolerance: u8,
) -> bool {
    &&& out.wf()
    &&& out.width == inp.width
    &&& out.height == inp.height
    &&& out.channels == 3
    &&& forall|x: int, y: int|
        0 <= x < inp.width && 0 <= y < inp.height ==> #[trigger] out.rgba_at(x, y) == replace_pixel(
            inp.rgba_at(x, y),
            target,
            replacement,
            tolerance,
        )
}

/// Replace every pixel within `tolerance` of the named target color by the
/// named replacement color, normalizing the output to RGB.  An unknown
/// color name is rejected, the target checked first.
pub fn color_replacer(
    img: &Image,
    target_color: &str,
    replacement_color: &str,
    tolerance: u8,
) -> (r: Result<Image, FxError>)
    requires
        img.wf(),
        fits_rgba(*img),
    ensures
        r is Err <==> (spec_color_of(target_color.spec_bytes()) is None || spec_color_of(
            replacement_color.spec_bytes(),
        ) is None),
        spec_color_of(target_color.spec_bytes()) is None ==> r == Result::<
            Image,
            FxError,
        >::Err(FxError::UnknownTargetColor),
        (spec_color_of(target_color.spec_bytes()) is Some && spec_color_of(
            replacement_color.spec_bytes(),
        ) is None) ==> r == Result::<Image, FxError>::Err(FxError::UnknownReplacementColor),
        r matches Ok(out) ==> color_replacer_rel(
            *img,
            out,
            spec_color_of(target_color.spec_bytes()).unwrap(),
            spec_color_of(replacement_color.spec_bytes()).unwrap(),
            tolerance,
        ),
{
    let map = create_color_map();
    let target = match map.get(target_color.as_bytes()) {
        Some(c) => c,
        None => {
            return Err(FxError::UnknownTargetColor);
        },
    };
    let replacement = match map.get(replacement_color.as_bytes()) {
        Some(c) => c,
        None => {
            return Err(FxError::UnknownReplacementColor);
        },
    };
    let w = img.width;
    let h = img.height;
    proof {
        assert(w * h * 3 <= w * h * 4) by (nonlinear_arith)
            requires
                w >= 0,
                h >= 0,
        ;
    }
    let (out, results) = map_coords(
        w,
        h,
        3,
        (|x: usize, y: usize| -> (p: Pixel)
            requires
                (x < img.width) && (y < img.height) && img.wf(),
            ensures
                (p == replace_pixel(img.rgba_at(x as int, y as int), target, replacement,
                tolerance)),
            {
                let q = img.get_rgba(x, y);
                let here = Rgb { r: q.r, g: q.g, b: q.b };
                if color_distance(here, target) <= tolerance {
                    Pixel { r: replacement.r, g: replacement.g, b: replacement.b, a: 255 }
                } else {
                    Pixel { r: q.r, g: q.g, b: q.b, a: 255 }
                }
            }),
    );
    proof {
        assert forall|x: int, y: int| 0 <= x < img.width && 0 <= y < img.height implies #[trigger] out.rgba_at(
            x,
            y,
        ) == replace_pixel(img.rgba_at(x, y), target, replacement, tolerance) by {
            let xu = x as usize;
            let yu = y as usize;
            let pp = results@[yu as int * w as int + xu as int];
            assert(out.at(x, y, 0) == pp.r && out.at(x, y, 1) == pp.g && out.at(x, y, 2) == pp.b);
        }
    }
    Ok(out)
}

/// Scale a fixed-point saturation by a factor in thousandths, clamping at
/// full saturation.  The result never exceeds 1.0 on the 1/65536 grid.
pub open spec fn sat_scale(s: int, fm: int) -> int {
    let t = (s * fm) / 1000;
    if t > 65536 {
        65536
    } else {
        t
    }
}

pub open spec fn saturation_pixel(p: Pixel, fm: int) -> Pixel {
    let c = spec_rgb_to_hsv(p.r, p.g, p.b);
    let rgb = spec_hsv_to_rgb(Hsv { h: c.h, s: sat_scale(c.s as int, fm) as u32, v: c.v });
    Pixel { r: rgb.r, g: rgb.g, b: rgb.b, a: p.a }
}

pub open spec fn saturation_rel(inp: Image, out: Image, fm: int) -> bool {
    &&& out.wf()
    &&& out.width == inp.width
    &&& out.height == inp.height
    &&& out.channels == 4
    &&& forall|x: int, y: int|
        0 <= x < inp.width && 0 <= y < inp.height ==> #[trigger] out.rgba_at(x, y)
            == saturation_pixel(inp.rgba_at(x, y), fm)
}

/// Convert each pixel to HSV, scale the saturation by the factor with a
/// cap at full saturation, and convert back; alpha is preserved.  A
/// negative factor is rejected before any pixel is touched.
pub fn saturation(img: &Image, factor_milli: i64) -> (r: Result<Image, FxError>)
    requires
        img.wf(),
        fits_rgba(*img),
    ensures
        factor_milli < 0 <==> r is Err,
        r is Err ==> r == Result::<Image, FxError>::Err(FxError::SaturationFactorNegative),
        r matches Ok(out) ==> saturation_rel(*img, out, factor_milli as int),
        forall|s: int| 0 <= s ==> sat_scale(s, factor_milli as int) <= 65536,
{
    proof {
        assert forall|s: int| 0 <= s implies sat_scale(s, factor_milli as int) <= 65536 by {
            assert((s * factor_milli) / 1000 <= 65536 || sat_scale(s, factor_milli as int)
                == 65536);
        }
    }
    if factor_milli < 0 {
        return Err(FxError::SaturationFactorNegative);
    }
    let w = img.width;
    let h = img.height;
    let (out, results) = map_coords(
        w,
        h,
        4,
        (|x: usize, y: usize| -> (p: Pixel)
            requires
                (x < img.width) && (y < img.height) && img.wf() && (0 <= factor_milli),
            ensures
                (p == saturation_pixel(img.rgba_at(x as int, y as int), factor_milli as int)),
            {
                let q = img.get_rgba(x, y);
                let c = rgb_to_hsv(q.r, q.g, q.b);
                proof {
                    assert((c.s as int) * (factor_milli as int) <= 65536 * (
                    0x7FFF_FFFF_FFFF_FFFFint) && 0 <= (c.s as int) * (
                    factor_milli as int)) by (nonlinear_arith)
                        requires
                            c.s <= 65536,
                            0 <= factor_milli <= 0x7FFF_FFFF_FFFF_FFFF,
                    ;
                }
                let t: u128 = (c.s as u128) * (factor_milli as u128) / 1000;
                let s2: u32 = if t > 65536 {
                    65536
                } else {
                    t as u32
                };
                let rgb = hsv_to_rgb(Hsv { h: c.h, s: s2, v: c.v });
                Pixel { r: rgb.r, g: rgb.g, b: rgb.b, a: q.a }
            }),
    );
    proof {
        assert forall|x: int, y: int| 0 <= x < img.width && 0 <= y < img.height implies #[trigger] out.rgba_at(
            x,
            y,
        ) == saturation_pixel(img.rgba_at(x, y), factor_milli as int) by {
            let xu = x as usize;
            let yu = y as usize;
            let pp = results@[yu as int * w as int + xu as int];
            assert(out.at(x, y, 0) == pp.r && out.at(x, y, 1) == pp.g && out.at(x, y, 2) == pp.b
                && out.at(x, y, 3) == pp.a);
        }
    }
    Ok(out)
}

/// The hue shift that an angle in thousandths of a degree produces on the
/// 1/65536-sector grid, the angle first brought into [0, 360).
pub open spec fn hue_delta16(am: int) -> int {
    crate::arith::rnd_div((am % 360000) * 65536, 60000)
}

pub open spec fn hue_rotate_pixel(p: Pixel, am: int) -> Pixel {
    let c = spec_rgb_to_hsv(p.r, p.g, p.b);
    let h2 = (c.h + hue_delta16(am)) % 393216;
    let rgb = spec_hsv_to_rgb(Hsv { h: h2 as u32, s: c.s, v: c.v });
    Pixel { r: rgb.r, g: rgb.g, b: rgb.b, a: 255u8 }
}

pub open spec fn hue_rotate_rel(inp: Image, out: Image, am: int) -> bool {
    &&& out.wf()
    &&& out.width == inp.width
    &&& out.height == inp.height
    &&& out.channels == 3
    &&& forall|x: int, y: int|
        0 <= x < inp.width && 0 <= y < inp.height ==> #[trigger] out.rgba_at(x, y)
            == hue_rotate_pixel(inp.rgba_at(x, y), am)
}

/// Shift every pixel's hue by the angle, modulo a full turn, leaving
/// saturation and value unchanged; the output is RGB.
pub fn hue_rotate(img: &Image, angle_milli: i64) -> (r: Result<Image, FxError>)
    requires
        img.wf(),
        fits_rgba(*img),
        -(i64::MAX) <= angle_milli,
    ensures
        r is Ok,
        r matches Ok(out) ==> hue_rotate_rel(*img, out, angle_milli as int),
{
    let a = crate::arith::euclid_mod_i64(angle_milli, 360000);
    proof {
        assert(crate::arith::rnd_div((a as int) * 65536, 60000) < 393216 && 0
            <= crate::arith::rnd_div((a as int) * 65536, 60000)) by (nonlinear_arith)
            requires
                0 <= a < 360000,
        ;
    }
    let da: u64 = crate::arith::rnd_div_u64((a as u64) * 65536, 60000);
    let w = img.width;
    let h = img.height;
    proof {
        assert(w * h * 3 <= w * h * 4) by (nonlinear_arith)
            requires
                w >= 0,
                h >= 0,
        ;
    }
    let (out, results) = map_coords(
        w,
        h,
        3,
        (|x: usize, y: usize| -> (p: Pixel)
            requires
                (x < img.width) && (y < img.height) && img.wf() && (da as int == hue_delta16(
                    angle_milli as int,
                )) && (da < 393216),
            ensures
                (p == hue_rotate_pixel(img.rgba_at(x as int, y as int), angle_milli as int)),
            {
                let q = img.get_rgba(x, y);
                let c = rgb_to_hsv(q.r, q.g, q.b);
                let h2: u32 = (((c.h as u64) + da) % 393216) as u32;
                let rgb = hsv_to_rgb(Hsv { h: h2, s: c.s, v: c.v });
                Pixel { r: rgb.r, g: rgb.g, b: rgb.b, a: 255 }
            }),
    );
    proof {
        assert forall|x: int, y: int| 0 <= x < img.width && 0 <= y < img.height implies #[trigger] out.rgba_at(
            x,
            y,
        ) == hue_rotate_pixel(img.rgba_at(x, y), angle_milli as int) by {
            let xu = x as usize;
            let yu = y as usize;
            let pp = results@[yu as int * w as int + xu as int];
            assert(out.at(x, y, 0) == pp.r && out.at(x, y, 1) == pp.g && out.at(x, y, 2) == pp.b);
        }
    }
    Ok(out)
}

/// An output channel of the noise filter lies between the clamps of the
/// input channel shifted down and up by the largest noise amplitude: it is
/// `clamp(in + n)` for some noise `n` in [-50, 50].
pub open spec fn chan_noised(a: u8, b: u8) -> bool {
    clamp255(a - 50) <= b <= clamp255(a + 50)
}

/// How a noised pixel may relate to its source: alpha kept, each RGB
/// channel within the noise band.
pub open spec fn pixel_noised(p: Pixel, q: Pixel) -> bool {
    q.a == p.a && chan_noised(p.r, q.r) && chan_noised(p.g, q.g) && chan_noised(p.b, q.b)
}

pub open spec fn noise_rel(inp: Image, out: Image) -> bool {
    &&& out.wf()
    &&& out.width == inp.width
    &&& out.height == inp.height
    &&& out.channels == 4
    &&& forall|x: int, y: int|
        0 <= x < inp.width && 0 <= y < inp.height ==> pixel_noised(
            inp.rgba_at(x, y),
            #[trigger] out.rgba_at(x, y),
        )
}

fn noised_channel(v: u8, rng: &mut rand::rngs::ThreadRng) -> (r: u8)
    ensures
        chan_noised(v, r),
{
    let n = rng_range(rng, -50, 51);
    let t: i64 = (v as i64) + n;
    crate::arith::clamp_i64(t)
}

/// With probability `intensity`, shift each RGB channel of a pixel by
/// uniform noise in [-50, 50], clamped to the sample range; alpha is
/// preserved.  An intensity outside [0, 1] is rejected.  Nothing is
/// assumed about which pixels the random source selects, so the contract
/// bounds every pixel by the noise band.
pub fn add_noise(img: &Image, intensity_milli: i64, rng: &mut rand::rngs::ThreadRng) -> (r: Result<
    Image,
    FxError,
>)
    requires
        img.wf(),
        fits_rgba(*img),
    ensures
        (intensity_milli < 0 || intensity_milli > 1000) <==> r is Err,
        r is Err ==> r == Result::<Image, FxError>::Err(FxError::NoiseIntensityOutOfRange),
        r matches Ok(out) ==> noise_rel(*img, out),
        intensity_milli == 0 ==> (r matches Ok(out) && (forall|x: int, y: int|
            0 <= x < img.width && 0 <= y < img.height ==> #[trigger] out.rgba_at(x, y)
                == img.rgba_at(x, y)) && (img.channels == 4 ==> out.same_image(*img))),
{
    if intensity_milli < 0 || intensity_milli > 1000 {
        return Err(FxError::NoiseIntensityOutOfRange);
    }
    let width = img.width;
    let height = img.height;
    let mut data: Vec<u8> = Vec::new();
    let mut y: usize = 0;
    while y < height
        invariant
            y <= height,
            img.wf(),
            width == img.width,
            height == img.height,
            width * height * 4 <= usize::MAX,
            data@.len() == (y * width) * 4,
            forall|xx: usize, yy: usize|
                #![trigger pix_idx(width as int, 4, xx as int, yy as int, 0)]
                xx < width && yy < y ==> pixel_noised(
                    img.rgba_at(xx as int, yy as int),
                    Pixel {
                        r: data@[pix_idx(width as int, 4, xx as int, yy as int, 0)],
                        g: data@[pix_idx(width as int, 4, xx as int, yy as int, 1)],
                        b: data@[pix_idx(width as int, 4, xx as int, yy as int, 2)],
                        a: data@[pix_idx(width as int, 4, xx as int, yy as int, 3)],
                    },
                ),
            intensity_milli == 0 ==> forall|xx: usize, yy: usize|
                #![trigger pix_idx(width as int, 4, xx as int, yy as int, 0)]
                xx < width && yy < y ==> (Pixel {
                    r: data@[pix_idx(width as int, 4, xx as int, yy as int, 0)],
                    g: data@[pix_idx(width as int, 4, xx as int, yy as int, 1)],
                    b: data@[pix_idx(width as int, 4, xx as int, yy as int, 2)],
                    a: data@[pix_idx(width as int, 4, xx as int, yy as int, 3)],
                }) == img.rgba_at(xx as int, yy as int),
            (intensity_milli == 0 && img.channels == 4) ==> data@ == img.data@.subrange(
                0,
                ((y * width) * 4) as int,
            ),
        decreases height - y,
    {
        let mut x: usize = 0;
        proof {
            assert((y * width + width) * 4 <= (height * width) * 4 && (height * width) * 4 == width
                * height * 4) by (nonlinear_arith)
                requires
                    y < height,
                    width >= 0,
            ;
        }
        while x < width
            invariant
                x <= width,
                y < height,
                img.wf(),
                width == img.width,
                height == img.height,
                width * height * 4 <= usize::MAX,
                data@.len() == (y * width + x) * 4,
                (y * width + width) * 4 <= width * height * 4,
                forall|xx: usize, yy: usize|
                    #![trigger pix_idx(width as int, 4, xx as int, yy as int, 0)]
                    xx < width && (yy < y || (yy == y && xx < x)) ==> pixel_noised(
                        img.rgba_at(xx as int, yy as int),
                        Pixel {
                            r: data@[pix_idx(width as int, 4, xx as int, yy as int, 0)],
                            g: data@[pix_idx(width as int, 4, xx as int, yy as int, 1)],
                            b: data@[pix_idx(width as int, 4, xx as int, yy as int, 2)],
                            a: data@[pix_idx(width as int, 4, xx as int, yy as int, 3)],
                        },
                    ),
                intensity_milli == 0 ==> forall|xx: usize, yy: usize|
                    #![trigger pix_idx(width as int, 4, xx as int, yy as int, 0)]
                    xx < width && (yy < y || (yy == y && xx < x)) ==> (Pixel {
                        r: data@[pix_idx(width as int, 4, xx as int, yy as int, 0)],
                        g: data@[pix_idx(width as int, 4, xx as int, yy as int, 1)],
                        b: data@[pix_idx(width as int, 4, xx as int, yy as int, 2)],
                        a: data@[pix_idx(width as int, 4, xx as int, yy as int, 3)],
                    }) == img.rgba_at(xx as int, yy as int),
                (intensity_milli == 0 && img.channels == 4) ==> data@ == img.data@.subrange(
                    0,
                    ((y * width + x) * 4) as int,
                ),
            decreases width - x,
        {
            let p = img.get_rgba(x, y);
            let toss = rng_range(rng, 0, 1000);
            let q: Pixel = if toss < intensity_milli {
                Pixel {
                    r: noised_channel(p.r, rng),
                    g: noised_channel(p.g, rng),
                    b: noised_channel(p.b, rng),
                    a: p.a,
                }
            } else {
                p
            };
            proof {
                assert((y * width + x) * 4 + 4 == (y * width + (x + 1)) * 4 && (y * width + (x + 1))
                    * 4 <= (y * width + width) * 4) by (nonlinear_arith)
                    requires
                        x < width,
                        y >= 0,
                        width >= 0,
                ;
                assert(pixel_noised(p, q));
            }
            let ghost data0 = data@;
            data.push(q.r);
            data.push(q.g);
            data.push(q.b);
            data.push(q.a);
            proof {
                let xi = x as int;
                let yi = y as int;
                assert(data0.len() == pix_idx(width as int, 4, xi, yi, 0));
                assert forall|xx: usize, yy: usize|
                    #![trigger pix_idx(width as int, 4, xx as int, yy as int, 0)]
                    xx < width && (yy < y || (yy == y && xx < x + 1)) implies pixel_noised(
                    img.rgba_at(xx as int, yy as int),
                    Pixel {
                        r: data@[pix_idx(width as int, 4, xx as int, yy as int, 0)],
                        g: data@[pix_idx(width as int, 4, xx as int, yy as int, 1)],
                        b: data@[pix_idx(width as int, 4, xx as int, yy as int, 2)],
                        a: data@[pix_idx(width as int, 4, xx as int, yy as int, 3)],
                    },
                ) by {
                    if yy == y && xx == x {
                        assert(data@[pix_idx(width as int, 4, xi, yi, 0)] == q.r);
                        assert(data@[pix_idx(width as int, 4, xi, yi, 1)] == q.g);
                        assert(data@[pix_idx(width as int, 4, xi, yi, 2)] == q.b);
                        assert(data@[pix_idx(width as int, 4, xi, yi, 3)] == q.a);
                    } else {
                        lemma_pix_idx_lt(width as int, 4, xx as int, yy as int, 0, xi, yi, 0);
                        lemma_pix_idx_lt(width as int, 4, xx as int, yy as int, 1, xi, yi, 0);
                        lemma_pix_idx_lt(width as int, 4, xx as int, yy as int, 2, xi, yi, 0);
                        lemma_pix_idx_lt(width as int, 4, xx as int, yy as int, 3, xi, yi, 0);
                    }
                }
                if intensity_milli == 0 {
                    assert(q == p);
                    assert forall|xx: usize, yy: usize|
                        #![trigger pix_idx(width as int, 4, xx as int, yy as int, 0)]
                        xx < width && (yy < y || (yy == y && xx < x + 1)) implies (Pixel {
                        r: data@[pix_idx(width as int, 4, xx as int, yy as int, 0)],
                        g: data@[pix_idx(width as int, 4, xx as int, yy as int, 1)],
                        b: data@[pix_idx(width as int, 4, xx as int, yy as int, 2)],
                        a: data@[pix_idx(width as int, 4, xx as int, yy as int, 3)],
                    }) == img.rgba_at(xx as int, yy as int) by {
                        if yy == y && xx == x {
                            assert(data@[pix_idx(width as int, 4, xi, yi, 0)] == q.r);
                            assert(data@[pix_idx(width as int, 4, xi, yi, 1)] == q.g);
                            assert(data@[pix_idx(width as int, 4, xi, yi, 2)] == q.b);
                            assert(data@[pix_idx(width as int, 4, xi, yi, 3)] == q.a);
                        } else {
                            lemma_pix_idx_lt(width as int, 4, xx as int, yy as int, 0, xi, yi, 0);
                            lemma_pix_idx_lt(width as int, 4, xx as int, yy as int, 1, xi, yi, 0);
                            lemma_pix_idx_lt(width as int, 4, xx as int, yy as int, 2, xi, yi, 0);
                            lemma_pix_idx_lt(width as int, 4, xx as int, yy as int, 3, xi, yi, 0);
                        }
                    }
                    if img.channels == 4 {
                        assert forall|i: int| 0 <= i < data@.len() implies data@[i]
                            == img.data@.subrange(0, ((y * width + (x + 1)) * 4) as int)[i] by {
                            if i < data0.len() {
                                assert(data@[i] == data0[i]);
                                assert(data0[i] == img.data@[i]);
                            } else {
                                let c = i - data0.len();
                                assert(pix_idx(width as int, 4, xi, yi, c) == i);
                                assert(img.data@[i] == img.at(xi, yi, c));
                            }
                        }
                        assert(data@ =~= img.data@.subrange(0, ((y * width + (x + 1)) * 4) as int));
                    }
                }
            }
            x = x + 1;
        }
        proof {
            assert((y * width + width) * 4 == ((y + 1) * width) * 4) by (nonlinear_arith);
        }
        y = y + 1;
    }
    proof {
        assert((height * width) * 4 == width * height * 4) by (nonlinear_arith);
    }
    let out = Image { width, height, channels: 4, data };
    proof {
        crate::arith::lemma_pix_idx_bound_all(width as int, height as int, 4);
        assert forall|x: int, y: int| 0 <= x < img.width && 0 <= y < img.height implies pixel_noised(
            img.rgba_at(x, y),
            #[trigger] out.rgba_at(x, y),
        ) by {
            let xu = x as usize;
            let yu = y as usize;
            assert(pixel_noised(
                img.rgba_at(xu as int, yu as int),
                Pixel {
                    r: out.data@[pix_idx(width as int, 4, xu as int, yu as int, 0)],
                    g: out.data@[pix_idx(width as int, 4, xu as int, yu as int, 1)],
                    b: out.data@[pix_idx(width as int, 4, xu as int, yu as int, 2)],
                    a: out.data@[pix_idx(width as int, 4, xu as int, yu as int, 3)],
                },
            ));
        }
        if intensity_milli == 0 {
            assert forall|x: int, y: int|
                0 <= x < img.width && 0 <= y < img.height implies #[trigger] out.rgba_at(x, y)
                == img.rgba_at(x, y) by {
                let xu = x as usize;
                let yu = y as usize;
                assert((Pixel {
                    r: out.data@[pix_idx(width as int, 4, xu as int, yu as int, 0)],
                    g: out.data@[pix_idx(width as int, 4, xu as int, yu as int, 1)],
                    b: out.data@[pix_idx(width as int, 4, xu as int, yu as int, 2)],
                    a: out.data@[pix_idx(width as int, 4, xu as int, yu as int, 3)],
                }) == img.rgba_at(xu as int, yu as int));
            }
            if img.channels == 4 {
                assert(out.data@ =~= img.data@);
            }
        }
    }
    Ok(out)
}

/// The brightness factor a deep-fry factor derives, in thousandths.
pub open spec fn deep_fry_brightness(fm: int) -> int {
    1500 + fm / 10
}

/// The saturation factor a deep-fry factor derives, in thousandths.
pub open spec fn deep_fry_saturation(fm: int) -> int {
    (9 * fm) / 5
}

/// The noise intensity a deep-fry factor derives, in thousandths.
pub open spec fn deep_fry_noise(fm: int) -> int {
    50 + fm / 10
}

/// The composite deep-fry effect: contrast at twice the factor, then
/// brightness, saturation and noise at factors derived from it, each stage
/// validating its own parameter and its failure short-circuiting the
/// chain.  Derived factors are taken on the thousandths grid, rounding
/// toward minus infinity.
pub fn deep_fry(img: &Image, factor_milli: i64, rng: &mut rand::rngs::ThreadRng) -> (r: Result<
    Image,
    FxError,
>)
    requires
        img.wf(),
        fits_rgba(*img),
        -1_000_000_000 <= factor_milli <= 1_000_000_000,
    ensures
        ({
            let fm = factor_milli as int;
            &&& (deep_fry_brightness(fm) < 0 || deep_fry_brightness(fm) > 2000) <==> r
                == Result::<Image, FxError>::Err(FxError::BrightnessFactorOutOfRange)
            &&& (0 <= deep_fry_brightness(fm) <= 2000 && deep_fry_saturation(fm) < 0) <==> r
                == Result::<Image, FxError>::Err(FxError::SaturationFactorNegative)
            &&& (0 <= deep_fry_brightness(fm) <= 2000 && deep_fry_saturation(fm) >= 0 && (
            deep_fry_noise(fm) < 0 || deep_fry_noise(fm) > 1000)) <==> r == Result::<
                Image,
                FxError,
            >::Err(FxError::NoiseIntensityOutOfRange)
            &&& r is Ok <==> (0 <= deep_fry_brightness(fm) <= 2000 && deep_fry_saturation(fm) >= 0
                && 0 <= deep_fry_noise(fm) <= 1000)
            &&& r matches Ok(out) ==> exists|a: Image, b: Image, c: Image|
                #![trigger brightness_rel(a, b, deep_fry_brightness(fm)), saturation_rel(b, c, deep_fry_saturation(fm))]
                contrast_rel(*img, a, 2 * fm) && brightness_rel(a, b, deep_fry_brightness(fm))
                    && saturation_rel(b, c, deep_fry_saturation(fm)) && noise_rel(c, out)
        }),
{
    let contrasted = contrast(img, 2 * factor_milli);
    let tenth = floor_div_i64_by_ten(factor_milli);
    let brightened = match brightness(&contrasted, 1500 + tenth) {
        Ok(i) => i,
        Err(e) => {
            return Err(e);
        },
    };
    let saturated = match saturation(&brightened, nine_fifths(factor_milli)) {
        Ok(i) => i,
        Err(e) => {
            return Err(e);
        },
    };
    let noisy = match add_noise(&saturated, 50 + tenth, rng) {
        Ok(i) => i,
        Err(e) => {
            return Err(e);
        },
    };
    proof {
        assert(contrast_rel(*img, contrasted, 2 * factor_milli as int) && brightness_rel(
            contrasted,
            brightened,
            deep_fry_brightness(factor_milli as int),
        ) && saturation_rel(
            brightened,
            saturated,
            deep_fry_saturation(factor_milli as int),
        ) && noise_rel(saturated, noisy));
    }
    Ok(noisy)
}

/// A positive power of two.
pub open spec fn is_pow2(n: int) -> bool
    decreases n,
{
    if n < 1 {
        false
    } else if n == 1 {
        true
    } else {
        n % 2 == 0 && is_pow2(n / 2)
    }
}

fn is_pow2_exec(n: u32) -> (r: bool)
    ensures
        r == is_pow2(n as int),
{
    if n == 0 {
        return false;
    }
    let mut k: u32 = n;
    while k > 1 && k % 2 == 0
        invariant
            k >= 1,
            is_pow2(n as int) <==> is_pow2(k as int),
        decreases k,
    {
        k = k / 2;
    }
    k == 1
}

/// The Bayer threshold matrix entry at `(i, j)` of the `n` by `n` matrix,
/// built recursively from the 2 by 2 base pattern; `i` and `j` are taken
/// within [0, n).
pub open spec fn bayer(n: int, i: int, j: int) -> int
    decreases n,
{
    if n <= 2 {
        let ii = i % 2;
        let jj = j % 2;
        if ii == 0 && jj == 0 {
            0
        } else if ii == 0 {
            2
        } else if jj == 0 {
            3
        } else {
            1
        }
    } else {
        let h = n / 2;
        4 * bayer(h, i % h, j % h) + (if i < h && j < h {
            0int
        } else if i < h {
            2
        } else if j < h {
            3
        } else {
            1
        })
    }
}

/// Bayer entries stay below `n * n`.
pub proof fn lemma_bayer_bound(n: int, i: int, j: int)
    requires
        2 <= n,
        is_pow2(n),
        0 <= i < n,
        0 <= j < n,
    ensures
        0 <= bayer(n, i, j) < n * n,
    decreases n,
{
    if n <= 2 {
        assert(bayer(n, i, j) < 4);
        assert(n * n >= 4) by (nonlinear_arith)
            requires
                n >= 2,
        ;
    } else {
        let h = n / 2;
        assert(n % 2 == 0 && is_pow2(h));
        vstd::arithmetic::div_mod::lemma_fundamental_div_mod(n, 2);
        assert(n == 2 * h);
        assert(h >= 2);
        vstd::arithmetic::div_mod::lemma_mod_bound(i, h);
        vstd::arithmetic::div_mod::lemma_mod_bound(j, h);
        lemma_bayer_bound(h, i % h, j % h);
        assert(4 * bayer(h, i % h, j % h) + 3 < 4 * (h * h)) by (nonlinear_arith)
            requires
                bayer(h, i % h, j % h) < h * h,
                bayer(h, i % h, j % h) <= h * h - 1,
        ;
        assert(4 * (h * h) == n * n) by (nonlinear_arith)
            requires
                n == 2 * h,
        ;
    }
}

fn bayer_entry(n: u32, i: u32, j: u32) -> (v: u64)
    requires
        2 <= n <= 32768,
        is_pow2(n as int),
        i < n,
        j < n,
    ensures
        v as int == bayer(n as int, i as int, j as int),
        v < (n as u64) * (n as u64),
    decreases n,
{
    proof {
        lemma_bayer_bound(n as int, i as int, j as int);
        assert((n as int) * (n as int) == (n as u64) as int * (n as u64) as int);
    }
    if n == 2 {
        if i == 0 && j == 0 {
            0
        } else if i == 0 {
            2
        } else if j == 0 {
            3
        } else {
            1
        }
    } else {
        let half = n / 2;
        proof {
            assert(n as int % 2 == 0 && is_pow2(n as int / 2));
            vstd::arithmetic::div_mod::lemma_fundamental_div_mod(n as int, 2);
        }
        let s = bayer_entry(half, i % half, j % half);
        let off: u64 = if i < half && j < half {
            0
        } else if i < half {
            2
        } else if j < half {
            3
        } else {
            1
        };
        proof {
            assert(4 * (s as int) + 3 < 0x1_0000_0000_0000) by (nonlinear_arith)
                requires
                    (s as int) < (half as int) * (half as int),
                    half <= 16384,
            ;
        }
        4 * s + off
    }
}

/// The full `n` by `n` Bayer matrix, row by row.
pub fn generate_bayer_matrix(n: u32) -> (m: Vec<Vec<u64>>)
    requires
        2 <= n <= 32768,
        is_pow2(n as int),
    ensures
        m@.len() == n,
        forall|i: int| 0 <= i < n ==> (#[trigger] m@[i])@.len() == n,
        forall|i: int, j: int|
            0 <= i < n && 0 <= j < n ==> (#[trigger] m@[i]@[j]) as int == bayer(
                n as int,
                i,
                j,
            ),
        forall|i: int, j: int|
            0 <= i < n && 0 <= j < n ==> (#[trigger] m@[i]@[j]) < (n as u64) * (n as u64),
{
    let mut m: Vec<Vec<u64>> = Vec::new();
    let mut i: u32 = 0;
    while i < n
        invariant
            2 <= n <= 32768,
            is_pow2(n as int),
            i <= n,
            m@.len() == i,
            forall|a: int| 0 <= a < i ==> (#[trigger] m@[a])@.len() == n,
            forall|a: int, b: int|
                0 <= a < i && 0 <= b < n ==> (#[trigger] m@[a]@[b]) as int == bayer(n as int, a, b),
            forall|a: int, b: int|
                0 <= a < i && 0 <= b < n ==> (#[trigger] m@[a]@[b]) < (n as u64) * (n as u64),
        decreases n - i,
    {
        let mut row: Vec<u64> = Vec::new();
        let mut j: u32 = 0;
        while j < n
            invariant
                2 <= n <= 32768,
                is_pow2(n as int),
                i < n,
                j <= n,
                row@.len() == j,
                forall|b: int| 0 <= b < j ==> (#[trigger] row@[b]) as int == bayer(
                    n as int,
                    i as int,
                    b,
                ),
                forall|b: int| 0 <= b < j ==> (#[trigger] row@[b]) < (n as u64) * (n as u64),
            decreases n - j,
        {
            row.push(bayer_entry(n, i, j));
            j = j + 1;
        }
        m.push(row);
        i = i + 1;
    }
    m
}

/// One dithered channel: the input scaled to `levels - 1` steps, pushed by
/// the normalized Bayer threshold `(2t+1)/(2n^2)` and the bias, floored,
/// capped at the top level, and mapped back to [0, 255] with rounding.
/// The floor is taken over the exact common denominator `510000 * n^2`.
pub open spec fn dither_channel(v: u8, levels: int, t: int, n: int, bm: int) -> u8 {
    let num = (v * (levels - 1)) * (2000 * (n * n)) + (2 * t + 1) * 255000 + (bm * 510) * (n * n);
    let lvl = num / (510000 * (n * n));
    let lvl2 = if lvl > levels - 1 {
        levels - 1
    } else {
        lvl
    };
    clamp255(crate::arith::rnd_div_away(lvl2 * 255, levels - 1))
}

/// Dithering with two levels leaves only black and white per channel.
pub proof fn lemma_dither_two_levels(v: u8, t: int, n: int, bm: int)
    ensures
        dither_channel(v, 2, t, n, bm) == 0 || dither_channel(v, 2, t, n, bm) == 255,
{
    let num = (v * (2 - 1)) * (2000 * (n * n)) + (2 * t + 1) * 255000 + (bm * 510) * (n * n);
    let lvl = num / (510000 * (n * n));
    let lvl2 = if lvl > 1 {
        1int
    } else {
        lvl
    };
    assert(lvl2 <= 1);
    if lvl2 >= 1 {
        assert(crate::arith::rnd_div_away(255, 1) == 255) by (nonlinear_arith);
    } else {
        assert(lvl2 * 255 <= 0) by (nonlinear_arith)
            requires
                lvl2 <= 0,
        ;
        if lvl2 >= 0 {
            assert(crate::arith::rnd_div_away(lvl2 * 255, 1) == lvl2 * 255) by (nonlinear_arith)
                requires
                    lvl2 * 255 >= 0,
            ;
        } else {
            assert(crate::arith::rnd_div_away(lvl2 * 255, 1) <= 0) by (nonlinear_arith)
                requires
                    lvl2 * 255 < 0,
            ;
        }
    }
}

proof fn lemma_dither_floor(lvl2: int, levels: int)
    requires
        lvl2 <= -1,
        2 <= levels <= 255,
    ensures
        clamp255(crate::arith::rnd_div_away(lvl2 * 255, levels - 1)) == 0,
        clamp255(crate::arith::rnd_div_away((-1) * 255, levels - 1)) == 0,
{
    assert(crate::arith::rnd_div_away(lvl2 * 255, levels - 1) < 0 && crate::arith::rnd_div_away(
        (-1) * 255,
        levels - 1,
    ) < 0) by (nonlinear_arith)
        requires
            lvl2 <= -1,
            2 <= levels <= 255,
    ;
}

fn dither_channel_exec(v: u8, levels: u8, t: u64, n: u32, bm: i32) -> (r: u8)
    requires
        2 <= levels,
        2 <= n <= 32768,
        t < (n as u64) * (n as u64),
    ensures
        r == dither_channel(v, levels as int, t as int, n as int, bm as int),
{
    proof {
        assert(4 <= (n as int) * (n as int) <= 0x4000_0000) by (nonlinear_arith)
            requires
                2 <= n <= 32768,
        ;
    }
    let n2: i128 = (n as i128) * (n as i128);
    proof {
        assert(0 <= (v as int) * ((levels as int) - 1) <= 255 * 254) by (nonlinear_arith)
            requires
                v <= 255,
                2 <= levels <= 255,
        ;
        assert(0 <= ((v as int) * ((levels as int) - 1)) * (2000 * ((n as int) * (n as int)))
            <= 64770 * (2000 * 0x4000_0000)) by (nonlinear_arith)
            requires
                0 <= (v as int) * ((levels as int) - 1) <= 64770,
                4 <= (n as int) * (n as int) <= 0x4000_0000,
        ;
        assert(((bm as int) * 510) * ((n as int) * (n as int)) <= (0x8000_0000 * 510) * 0x4000_0000
            && ((bm as int) * 510) * ((n as int) * (n as int)) >= -((0x8000_0000 * 510)
            * 0x4000_0000)) by (nonlinear_arith)
            requires
                -0x8000_0000 <= bm as int <= 0x7FFF_FFFF,
                4 <= (n as int) * (n as int) <= 0x4000_0000,
        ;
    }
    let num: i128 = ((v as i128) * ((levels as i128) - 1)) * (2000 * n2) + (2 * (t as i128) + 1)
        * 255000 + ((bm as i128) * 510) * n2;
    let den: i128 = 510000 * n2;
    let lvl = floor_div_i128(num, den);
    let ghost lvl2s: int = if lvl as int > levels - 1 {
        levels - 1
    } else {
        lvl as int
    };
    let lvl2: i128 = if lvl > (levels as i128) - 1 {
        (levels as i128) - 1
    } else if lvl < -1 {
        -1
    } else {
        lvl
    };
    proof {
        if lvl2s <= -1 {
            lemma_dither_floor(lvl2s, levels as int);
        }
    }
    let back = crate::arith::rnd_div_away_i64((lvl2 * 255) as i64, (levels as i64) - 1);
    crate::arith::clamp_i64(back)
}

/// How the resolved dithering parameters follow from the call: an absent
/// or non-power-of-two matrix size falls back to 4, a point size below 1
/// is raised to 1, an absent bias is 0.
pub open spec fn resolve_matrix_size(o: Option<u32>) -> int {
    match o {
        Some(m) => if is_pow2(m as int) && 2 <= m <= 32768 {
            m as int
        } else {
            4
        },
        None => 4,
    }
}

pub open spec fn resolve_point_size(o: Option<u32>) -> int {
    match o {
        Some(p) => if p >= 1 {
            p as int
        } else {
            1
        },
        None => 1,
    }
}

pub open spec fn resolve_bias(o: Option<i32>) -> int {
    match o {
        Some(b) => b as int,
        None => 0,
    }
}

pub open spec fn dither_pixel(p: Pixel, x: int, y: int, levels: int, n: int, ps: int, bm: int) -> Pixel {
    let t = bayer(n, (y / ps) % n, (x / ps) % n);
    Pixel {
        r: dither_channel(p.r, levels, t, n, bm),
        g: dither_channel(p.g, levels, t, n, bm),
        b: dither_channel(p.b, levels, t, n, bm),
        a: p.a,
    }
}

pub open spec fn dither_rel(inp: Image, out: Image, levels: int, n: int, ps: int, bm: int) -> bool {
    &&& out.wf()
    &&& out.width == inp.width
    &&& out.height == inp.height
    &&& out.channels == 4
    &&& forall|x: int, y: int|
        0 <= x < inp.width && 0 <= y < inp.height ==> #[trigger] out.rgba_at(x, y) == dither_pixel(
            inp.rgba_at(x, y),
            x,
            y,
            levels,
            n,
            ps,
            bm,
        )
}

/// Ordered dithering against a Bayer matrix of the requested size, with
/// an optional block size for the threshold lookup and an optional bias
/// added to every threshold.  Fewer than two levels is rejected; with
/// exactly two levels every output channel is black or white.
pub fn dither(
    img: &Image,
    levels: u8,
    matrix_size: Option<u32>,
    point_size: Option<u32>,
    threshold_bias_milli: Option<i32>,
) -> (r: Result<Image, FxError>)
    requires
        img.wf(),
        fits_rgba(*img),
    ensures
        levels < 2 <==> r is Err,
        r is Err ==> r == Result::<Image, FxError>::Err(FxError::DitherLevelsTooSmall),
        r matches Ok(out) ==> dither_rel(
            *img,
            out,
            levels as int,
            resolve_matrix_size(matrix_size),
            resolve_point_size(point_size),
            resolve_bias(threshold_bias_milli),
        ),
        (levels == 2 && r is Ok) ==> forall|x: int, y: int, c: int|
            0 <= x < img.width && 0 <= y < img.height && 0 <= c < 3 ==> (#[trigger] r.unwrap().at(
                x,
                y,
                c,
            ) == 0 || r.unwrap().at(x, y, c) == 255),
{
    if levels < 2 {
        return Err(FxError::DitherLevelsTooSmall);
    }
    let n: u32 = match matrix_size {
        Some(m) => if m >= 2 && m <= 32768 && is_pow2_exec(m) {
            m
        } else {
            4
        },
        None => 4,
    };
    let ps: u32 = match point_size {
        Some(p) => if p >= 1 {
            p
        } else {
            1
        },
        None => 1,
    };
    let bm: i32 = match threshold_bias_milli {
        Some(b) => b,
        None => 0,
    };
    proof {
        reveal_with_fuel(is_pow2, 4);
        assert(is_pow2(4));
    }
    let matrix = generate_bayer_matrix(n);
    let w = img.width;
    let h = img.height;
    let (out, results) = map_coords(
        w,
        h,
        4,
        (|x: usize, y: usize| -> (p: Pixel)
            requires
                (x < img.width) && (y < img.height) && img.wf() && (2 <= levels) && (2 <= n
                    <= 32768) && (ps >= 1) && (matrix@.len() == n) && (forall|i: int|
                    0 <= i < n ==> (#[trigger] matrix@[i])@.len() == n) && (forall|i: int, j: int|
                    0 <= i < n && 0 <= j < n ==> (#[trigger] matrix@[i]@[j]) as int == bayer(
                        n as int,
                        i,
                        j,
                    )) && (forall|i: int, j: int|
                    0 <= i < n && 0 <= j < n ==> (#[trigger] matrix@[i]@[j]) < (n as u64) * (
                    n as u64)),
            ensures
                (p == dither_pixel(
                    img.rgba_at(x as int, y as int),
                    x as int,
                    y as int,
                    levels as int,
                    n as int,
                    ps as int,
                    bm as int,
                )),
            {
                let q = img.get_rgba(x, y);
                let iy: usize = (y / (ps as usize)) % (n as usize);
                let ix: usize = (x / (ps as usize)) % (n as usize);
                let t: u64 = matrix[iy][ix];
                Pixel {
                    r: dither_channel_exec(q.r, levels, t, n, bm),
                    g: dither_channel_exec(q.g, levels, t, n, bm),
                    b: dither_channel_exec(q.b, levels, t, n, bm),
                    a: q.a,
                }
            }),
    );
    proof {
        assert forall|x: int, y: int| 0 <= x < img.width && 0 <= y < img.height implies #[trigger] out.rgba_at(
            x,
            y,
        ) == dither_pixel(
            img.rgba_at(x, y),
            x,
            y,
            levels as int,
            n as int,
            ps as int,
            bm as int,
        ) by {
            let xu = x as usize;
            let yu = y as usize;
            let pp = results@[yu as int * w as int + xu as int];
            assert(out.at(x, y, 0) == pp.r && out.at(x, y, 1) == pp.g && out.at(x, y, 2) == pp.b
                && out.at(x, y, 3) == pp.a);
        }
        if levels == 2 {
            assert forall|x: int, y: int, c: int|
                0 <= x < img.width && 0 <= y < img.height && 0 <= c < 3 implies (#[trigger] out.at(
                x,
                y,
                c,
            ) == 0 || out.at(x, y, c) == 255) by {
                let p = img.rgba_at(x, y);
                let t = bayer(n as int, (y / ps as int) % n as int, (x / ps as int) % n as int);
                lemma_dither_two_levels(p.r, t, n as int, bm as int);
                lemma_dither_two_levels(p.g, t, n as int, bm as int);
                lemma_dither_two_levels(p.b, t, n as int, bm as int);
                assert(out.rgba_at(x, y) == dither_pixel(
                    p,
                    x,
                    y,
                    2,
                    n as int,
                    ps as int,
                    bm as int,
                ));
            }
        }
    }
    Ok(out)
}

fn floor_div_i64_by_ten(v: i64) -> (r: i64)
    requires
        -1_000_000_000 <= v <= 1_000_000_000,
    ensures
        r == v as int / 10,
{
    floor_div_i128(v as i128, 10) as i64
}

fn nine_fifths(v: i64) -> (r: i64)
    requires
        -1_000_000_000 <= v <= 1_000_000_000,
    ensures
        r == (9 * (v as int)) / 5,
{
    floor_div_i128(9 * (v as i128), 5) as i64
}

} // verus!
