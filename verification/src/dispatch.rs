//! The transformation dispatcher: it resolves a transformation name and a
//! loosely typed parameter bag into a validated filter call, applying the
//! documented defaults and coercions.  An unknown name passes the image
//! through unchanged; steps whose scalar setup the engine cannot do
//! itself (a Gaussian blur, an angle's sine and cosine) come back as
//! explicit requests for the caller to finish.

use image::{DynamicImage, RgbImage, RgbaImage};
use vstd::prelude::*;
use vstd::string::StringSliceAdditionalSpecFns;

use crate::buffer::{map_coords, Image, Pixel};
use crate::colorfx;
use crate::colorfx::fits_rgba;
use crate::edgesfx;
use crate::errors::FxError;
use crate::glitchfx;
use crate::params::{milli_of, spec_get, string_bytes, u64_of, i64_of, bool_of, ParamValue, Params};
use crate::text::bytes_eq;

verus! {

/// A name for what image::DynamicImage::grayscale returns: the luma
/// samples of the input, a pure function of the pixel data.
pub uninterp spec fn gray_of(data: Seq<u8>, w: int, h: int, ch: int) -> Seq<u8>;

/// Relies on image::DynamicImage::grayscale: the luma image of the
/// input, with the same dimensions and one channel.
#[verifier::external_body]
fn grayscale_image(img: &Image) -> (out: Image)
    requires
        img.wf(),
        img.channels == 3 || img.channels == 4,
        img.width < 0x1_0000_0000,
        img.height < 0x1_0000_0000,
    ensures
        out.wf(),
        out.width == img.width,
        out.height == img.height,
        out.channels == 1,
        out.data@ == gray_of(img.data@, img.width as int, img.height as int, img.channels as int),
{
    let w = img.width as u32;
    let h = img.height as u32;
    let dynimg = if img.channels == 3 {
        DynamicImage::ImageRgb8(RgbImage::from_raw(w, h, img.data.clone()).unwrap())
    } else {
        DynamicImage::ImageRgba8(RgbaImage::from_raw(w, h, img.data.clone()).unwrap())
    };
    let data = dynimg.grayscale().to_luma8().into_raw();
    Image { width: img.width, height: img.height, channels: 1, data }
}

/// The inverted pixel: color channels flipped, alpha kept.
pub open spec fn invert_pixel(p: Pixel) -> Pixel {
    Pixel { r: (255 - p.r) as u8, g: (255 - p.g) as u8, b: (255 - p.b) as u8, a: p.a }
}

pub open spec fn invert_rel(inp: Image, out: Image) -> bool {
    &&& out.wf()
    &&& out.width == inp.width
    &&& out.height == inp.height
    &&& out.channels == inp.channels
    &&& forall|x: int, y: int|
        0 <= x < inp.width && 0 <= y < inp.height ==> #[trigger] out.rgba_at(x, y) == invert_pixel(
            inp.rgba_at(x, y),
        )
}

/// Invert every color channel, keeping alpha and the channel layout.
pub fn invert(img: &Image) -> (out: Image)
    requires
        img.wf(),
        fits_rgba(*img),
    ensures
        invert_rel(*img, out),
{
    let w = img.width;
    let h = img.height;
    let ch = img.channels;
    proof {
        assert(w * h * ch <= w * h * 4) by (nonlinear_arith)
            requires
                ch <= 4,
                w >= 0,
                h >= 0,
        ;
    }
    let (out, results) = map_coords(
        w,
        h,
        ch,
        (|x: usize, y: usize| -> (p: Pixel)
            requires
                (x < img.width) && (y < img.height) && img.wf(),
            ensures
                (p == invert_pixel(img.rgba_at(x as int, y as int))),
            {
                let q = img.get_rgba(x, y);
                Pixel { r: 255 - q.r, g: 255 - q.g, b: 255 - q.b, a: q.a }
            }),
    );
    proof {
        assert forall|x: int, y: int| 0 <= x < img.width && 0 <= y < img.height implies #[trigger] out.rgba_at(
            x,
            y,
        ) == invert_pixel(img.rgba_at(x, y)) by {
            let xu = x as usize;
            let yu = y as usize;
            let pp = results@[yu as int * w as int + xu as int];
            assert(out.at(x, y, 0) == pp.r && (out.channels >= 3 ==> out.at(x, y, 1) == pp.g
                && out.at(x, y, 2) == pp.b) && (out.channels == 4 ==> out.at(x, y, 3) == pp.a));
            if out.channels == 1 {
                assert(invert_pixel(img.rgba_at(x, y)).g == pp.r && invert_pixel(
                    img.rgba_at(x, y),
                ).b == pp.r);
            }
        }
    }
    out
}

/// What a dispatched step asks of the caller: either the finished image,
/// or the resolved parameters of a step whose scalar setup (a Gaussian
/// blur over the outside decoder, the sine and cosine of an angle) the
/// engine leaves to its surroundings.
pub enum Outcome {
    Done(Image),
    NeedsBlur { sigma_milli: i64 },
    NeedsEmboss { strength_milli: i64, angle_milli: i64 },
    NeedsScanLines { thickness: u32, spacing: u32, angle_milli: i64, opacity_milli: i64 },
}

/// The string payload of a parameter, or empty when it is not a string.
pub open spec fn str_or_empty(v: ParamValue) -> Seq<u8> {
    match v {
        ParamValue::Str(s) => string_bytes(s),
        _ => Seq::empty(),
    }
}

/// An optional matrix dimension, as the dithering step reads it.
pub open spec fn opt_u32_of(v: ParamValue) -> Option<u32> {
    match v {
        ParamValue::Int(i) => if i >= 0 {
            Some((i as u64) as u32)
        } else {
            None
        },
        _ => None,
    }
}

/// An optional bias in thousandths, clamped to its carrier.
pub open spec fn opt_milli32_of(v: ParamValue) -> Option<i32> {
    match v {
        ParamValue::Int(_) => Some(clamp_i32(milli_of(v, 0))),
        ParamValue::Milli(_) => Some(clamp_i32(milli_of(v, 0))),
        _ => None,
    }
}

pub open spec fn clamp_i32(v: int) -> i32 {
    if v > 0x7FFF_FFFF {
        0x7FFF_FFFFi32
    } else if v < -0x8000_0000 {
        -0x8000_0000i32
    } else {
        v as i32
    }
}

fn opt_u32_exec(v: &Params, key: &str) -> (r: Option<u32>)
    ensures
        r == opt_u32_of(spec_get(v@, key.spec_bytes())),
{
    match v.get(key) {
        ParamValue::Int(i) => {
            if i >= 0 {
                Some((i as u64) as u32)
            } else {
                None
            }
        },
        _ => None,
    }
}

fn opt_milli32_exec(v: &Params, key: &str) -> (r: Option<i32>)
    ensures
        r == opt_milli32_of(spec_get(v@, key.spec_bytes())),
{
    match v.get(key) {
        ParamValue::Int(_) => Some(clamp_i32_exec(v.get_milli(key, 0))),
        ParamValue::Milli(_) => Some(clamp_i32_exec(v.get_milli(key, 0))),
        _ => None,
    }
}

fn clamp_i32_exec(v: i64) -> (r: i32)
    ensures
        r == clamp_i32(v as int),
{
    if v > 0x7FFF_FFFF {
        0x7FFF_FFFF
    } else if v < -0x8000_0000 {
        -0x8000_0000
    } else {
        v as i32
    }
}

/// The extrusion pass count, capped at the engine's working range.
pub open spec fn resolve_depth(v: int) -> int {
    if v > 1_000_000 {
        1_000_000
    } else {
        v
    }
}

/// A non-negative integer parameter turned into thousandths, capped so
/// the squared value still fits the engine's working range.
pub open spec fn thr_milli_of(v: int) -> int {
    (if v > 1_000_000_000 {
        1_000_000_000int
    } else {
        v
    }) * 1000
}

fn thr_milli_exec(v: u64) -> (r: i64)
    ensures
        r as int == thr_milli_of(v as int),
        0 <= r <= 1_000_000_000_000,
{
    if v > 1_000_000_000 {
        1_000_000_000_000
    } else {
        (v as i64) * 1000
    }
}

/// Which entry of the dispatch table a name selects, matched in table
/// order; anything else is unknown and passes through.
#[derive(Clone, Copy, PartialEq, Eq, Structural, Debug)]
pub enum DispatchKind {
    Grayscale,
    Invert,
    Brightness,
    Sepia,
    Contrast,
    Saturation,
    AddNoise,
    Deepfry,
    HueRotate,
    ColorReplacer,
    Vaporwave,
    Dither,
    NeonEdge,
    Sketch,
    Emboss,
    QuantizedEdge,
    ExtrusionEdge,
    Blur,
    Pixelate,
    OilPainting,
    Glitch,
    PixelSort,
    Rotate,
    Desync,
    Wind,
    ScanLines,
    Unknown,
}

/// The table entry the name bytes select.
pub open spec fn dispatch_name(nb: Seq<u8>) -> DispatchKind {
    if nb == "grayscale".spec_bytes() {
        DispatchKind::Grayscale
    } else if nb == "invert".spec_bytes() {
        DispatchKind::Invert
    } else if nb == "brightness".spec_bytes() {
        DispatchKind::Brightness
    } else if nb == "sepia".spec_bytes() {
        DispatchKind::Sepia
    } else if nb == "contrast".spec_bytes() {
        DispatchKind::Contrast
    } else if nb == "saturation".spec_bytes() {
        DispatchKind::Saturation
    } else if nb == "add_noise".spec_bytes() {
        DispatchKind::AddNoise
    } else if nb == "deepfry".spec_bytes() {
        DispatchKind::Deepfry
    } else if nb == "hue_rotate".spec_bytes() {
        DispatchKind::HueRotate
    } else if nb == "color_replacer".spec_bytes() {
        DispatchKind::ColorReplacer
    } else if nb == "vaporwave".spec_bytes() {
        DispatchKind::Vaporwave
    } else if nb == "dither".spec_bytes() {
        DispatchKind::Dither
    } else if nb == "neon_edge".spec_bytes() {
        DispatchKind::NeonEdge
    } else if nb == "sketch".spec_bytes() {
        DispatchKind::Sketch
    } else if nb == "emboss".spec_bytes() {
        DispatchKind::Emboss
    } else if nb == "quantized_edge".spec_bytes() {
        DispatchKind::QuantizedEdge
    } else if nb == "extrusion_edge".spec_bytes() {
        DispatchKind::ExtrusionEdge
    } else if nb == "blur".spec_bytes() {
        DispatchKind::Blur
    } else if nb == "pixelate".spec_bytes() {
        DispatchKind::Pixelate
    } else if nb == "oil_painting".spec_bytes() {
        DispatchKind::OilPainting
    } else if nb == "glitch".spec_bytes() {
        DispatchKind::Glitch
    } else if nb == "pixel_sort".spec_bytes() {
        DispatchKind::PixelSort
    } else if nb == "rotate".spec_bytes() {
        DispatchKind::Rotate
    } else if nb == "desync".spec_bytes() {
        DispatchKind::Desync
    } else if nb == "wind".spec_bytes() {
        DispatchKind::Wind
    } else if nb == "scan_lines".spec_bytes() {
        DispatchKind::ScanLines
    } else {
        DispatchKind::Unknown
    }
}

/// The bytes of the empty string.
proof fn lemma_empty_str_bytes()
    ensures
        "".spec_bytes() =~= Seq::<u8>::empty(),
{
    reveal_strlit("");
    assert("".spec_bytes() =~= Seq::<u8>::empty());
}

/// The dispatcher's contract for the "grayscale" entry.
pub open spec fn post_grayscale(
    img: Image,
    pv: Seq<(Seq<u8>, ParamValue)>,
    r: Result<Outcome, FxError>,
) -> bool {
    (r matches Ok(Outcome::Done(out)) && out.wf()
        && out.width == img.width && out.height == img.height && out.channels == 1
        && out.data@ == gray_of(
        img.data@,
        img.width as int,
        img.height as int,
        img.channels as int,
    ))
}

/// The dispatcher's contract for the "invert" entry.
pub open spec fn post_invert(
    img: Image,
    pv: Seq<(Seq<u8>, ParamValue)>,
    r: Result<Outcome, FxError>,
) -> bool {
    (r matches Ok(Outcome::Done(out)) && invert_rel(
        img,
        out,
    ))
}

/// The dispatcher's contract for the "brightness" entry.
pub open spec fn post_brightness(
    img: Image,
    pv: Seq<(Seq<u8>, ParamValue)>,
    r: Result<Outcome, FxError>,
) -> bool {
    ({
        let fm = milli_of(spec_get(pv, "factor".spec_bytes()), 1000);
        &&& (fm < 0 || fm > 2000) ==> r == Result::<Outcome, FxError>::Err(
            FxError::BrightnessFactorOutOfRange,
        )
        &&& (0 <= fm <= 2000) ==> (r matches Ok(Outcome::Done(out))
            && colorfx::brightness_rel(img, out, fm))
    })
}

/// The dispatcher's contract for the "sepia" entry.
pub open spec fn post_sepia(
    img: Image,
    pv: Seq<(Seq<u8>, ParamValue)>,
    r: Result<Outcome, FxError>,
) -> bool {
    (r matches Ok(Outcome::Done(out))
        && colorfx::sepia_rel(img, out))
}

/// The dispatcher's contract for the "contrast" entry.
pub open spec fn post_contrast(
    img: Image,
    pv: Seq<(Seq<u8>, ParamValue)>,
    r: Result<Outcome, FxError>,
) -> bool {
    (r matches Ok(Outcome::Done(out))
        && colorfx::contrast_rel(
        img,
        out,
        milli_of(spec_get(pv, "factor".spec_bytes()), 1000),
    ))
}

/// The dispatcher's contract for the "saturation" entry.
pub open spec fn post_saturation(
    img: Image,
    pv: Seq<(Seq<u8>, ParamValue)>,
    r: Result<Outcome, FxError>,
) -> bool {
    ({
        let fm = milli_of(spec_get(pv, "factor".spec_bytes()), 1000);
        &&& fm < 0 ==> r == Result::<Outcome, FxError>::Err(
            FxError::SaturationFactorNegative,
        )
        &&& fm >= 0 ==> (r matches Ok(Outcome::Done(out)) && colorfx::saturation_rel(
            img,
            out,
            fm,
        ))
    })
}

/// The dispatcher's contract for the "add_noise" entry.
pub open spec fn post_add_noise(
    img: Image,
    pv: Seq<(Seq<u8>, ParamValue)>,
    r: Result<Outcome, FxError>,
) -> bool {
    ({
        let im = milli_of(spec_get(pv, "intensity".spec_bytes()), 100);
        &&& (im < 0 || im > 1000) ==> r == Result::<Outcome, FxError>::Err(
            FxError::NoiseIntensityOutOfRange,
        )
        &&& (0 <= im <= 1000) ==> (r matches Ok(Outcome::Done(out)) && colorfx::noise_rel(
            img,
            out,
        ))
    })
}

/// The dispatcher's contract for the "deepfry" entry.
pub open spec fn post_deepfry(
    img: Image,
    pv: Seq<(Seq<u8>, ParamValue)>,
    r: Result<Outcome, FxError>,
) -> bool {
    ({
        let fm = milli_of(spec_get(pv, "factor".spec_bytes()), 1000);
        &&& (colorfx::deep_fry_brightness(fm) < 0 || colorfx::deep_fry_brightness(fm)
            > 2000) <==> r == Result::<Outcome, FxError>::Err(
            FxError::BrightnessFactorOutOfRange,
        )
        &&& (0 <= colorfx::deep_fry_brightness(fm) <= 2000 && colorfx::deep_fry_saturation(
            fm,
        ) < 0) <==> r == Result::<Outcome, FxError>::Err(FxError::SaturationFactorNegative)
        &&& (0 <= colorfx::deep_fry_brightness(fm) <= 2000 && colorfx::deep_fry_saturation(
            fm,
        ) >= 0 && (colorfx::deep_fry_noise(fm) < 0 || colorfx::deep_fry_noise(fm) > 1000))
            <==> r == Result::<Outcome, FxError>::Err(FxError::NoiseIntensityOutOfRange)
        &&& r is Ok <==> (0 <= colorfx::deep_fry_brightness(fm) <= 2000
            && colorfx::deep_fry_saturation(fm) >= 0 && 0 <= colorfx::deep_fry_noise(fm)
            <= 1000)
        &&& r is Ok ==> (r matches Ok(Outcome::Done(done)) && done.wf())
        &&& r matches Ok(Outcome::Done(out)) ==> exists|a: Image, b: Image, c: Image|
            #![trigger colorfx::brightness_rel(a, b, colorfx::deep_fry_brightness(fm)), colorfx::saturation_rel(b, c, colorfx::deep_fry_saturation(fm))]
            colorfx::contrast_rel(img, a, 2 * fm) && colorfx::brightness_rel(
                a,
                b,
                colorfx::deep_fry_brightness(fm),
            ) && colorfx::saturation_rel(b, c, colorfx::deep_fry_saturation(fm))
                && colorfx::noise_rel(c, out)
    })
}

/// The dispatcher's contract for the "hue_rotate" entry.
pub open spec fn post_hue_rotate(
    img: Image,
    pv: Seq<(Seq<u8>, ParamValue)>,
    r: Result<Outcome, FxError>,
) -> bool {
    (r matches Ok(Outcome::Done(out))
        && colorfx::hue_rotate_rel(
        img,
        out,
        milli_of(spec_get(pv, "angle".spec_bytes()), 90000),
    ))
}

/// The dispatcher's contract for the "color_replacer" entry.
pub open spec fn post_color_replacer(
    img: Image,
    pv: Seq<(Seq<u8>, ParamValue)>,
    r: Result<Outcome, FxError>,
) -> bool {
    ({
        let t = str_or_empty(spec_get(pv, "target_color".spec_bytes()));
        let rep = str_or_empty(spec_get(pv, "replacement_color".spec_bytes()));
        let tol = ((u64_of(spec_get(pv, "tolerance".spec_bytes()), 50) as u64) as u8);
        &&& crate::color_utils::spec_color_of(t) is None ==> r == Result::<
            Outcome,
            FxError,
        >::Err(FxError::UnknownTargetColor)
        &&& (crate::color_utils::spec_color_of(t) is Some
            && crate::color_utils::spec_color_of(rep) is None) ==> r == Result::<
            Outcome,
            FxError,
        >::Err(FxError::UnknownReplacementColor)
        &&& (crate::color_utils::spec_color_of(t) is Some
            && crate::color_utils::spec_color_of(rep) is Some) ==> (r matches Ok(
            Outcome::Done(out),
        ) && colorfx::color_replacer_rel(
            img,
            out,
            crate::color_utils::spec_color_of(t).unwrap(),
            crate::color_utils::spec_color_of(rep).unwrap(),
            tol,
        ))
    })
}

/// The dispatcher's contract for the "vaporwave" entry.
pub open spec fn post_vaporwave(
    img: Image,
    pv: Seq<(Seq<u8>, ParamValue)>,
    r: Result<Outcome, FxError>,
) -> bool {
    (r matches Ok(Outcome::Done(out))
        && colorfx::vaporwave_rel(img, out))
}

/// The dispatcher's contract for the "dither" entry.
pub open spec fn post_dither(
    img: Image,
    pv: Seq<(Seq<u8>, ParamValue)>,
    r: Result<Outcome, FxError>,
) -> bool {
    ({
        let levels = ((u64_of(spec_get(pv, "levels".spec_bytes()), 4) as u64) as u8);
        &&& levels < 2 ==> r == Result::<Outcome, FxError>::Err(
            FxError::DitherLevelsTooSmall,
        )
        &&& levels >= 2 ==> (r matches Ok(Outcome::Done(out)) && colorfx::dither_rel(
            img,
            out,
            levels as int,
            colorfx::resolve_matrix_size(
                opt_u32_of(spec_get(pv, "matrix_size".spec_bytes())),
            ),
            colorfx::resolve_point_size(
                opt_u32_of(spec_get(pv, "point_size".spec_bytes())),
            ),
            colorfx::resolve_bias(
                opt_milli32_of(spec_get(pv, "threshold_bias".spec_bytes())),
            ),
        ))
    })
}

/// The dispatcher's contract for the "neon_edge" entry.
pub open spec fn post_neon_edge(
    img: Image,
    pv: Seq<(Seq<u8>, ParamValue)>,
    r: Result<Outcome, FxError>,
) -> bool {
    (r matches Ok(Outcome::Done(out)) && exists|
        ex: Image,
        ey: Image,
    |
        #![trigger edgesfx::convolve_rel(img, edgesfx::sobel_x_kernel(), ex), edgesfx::convolve_rel(img, edgesfx::sobel_y_kernel(), ey)]
        edgesfx::convolve_rel(img, edgesfx::sobel_x_kernel(), ex)
            && edgesfx::convolve_rel(img, edgesfx::sobel_y_kernel(), ey)
            && edgesfx::neon_combine_rel(
            ex,
            ey,
            out,
            milli_of(spec_get(pv, "strength".spec_bytes()), 1000),
            milli_of(spec_get(pv, "color_shift".spec_bytes()), 0),
            milli_of(spec_get(pv, "brightness".spec_bytes()), 1000),
        ))
}

/// The dispatcher's contract for the "sketch" entry.
pub open spec fn post_sketch(
    img: Image,
    pv: Seq<(Seq<u8>, ParamValue)>,
    r: Result<Outcome, FxError>,
) -> bool {
    (r matches Ok(Outcome::Done(out)) && exists|
        e: Image,
    |
        (#[trigger] edgesfx::convolve_rel(img, edgesfx::laplacian_kernel(), e))
            && edgesfx::sketch_combine_rel(
            e,
            out,
            milli_of(spec_get(pv, "contrast".spec_bytes()), 1000),
            milli_of(spec_get(pv, "intensity".spec_bytes()), 10000),
            bool_of(spec_get(pv, "invert".spec_bytes()), false),
        ))
}

/// The dispatcher's contract for the "emboss" entry.
pub open spec fn post_emboss(
    img: Image,
    pv: Seq<(Seq<u8>, ParamValue)>,
    r: Result<Outcome, FxError>,
) -> bool {
    r == Result::<Outcome, FxError>::Ok(
        Outcome::NeedsEmboss {
            strength_milli: milli_of(
                spec_get(pv, "strength".spec_bytes()),
                100_000_000,
            ) as i64,
            angle_milli: milli_of(spec_get(pv, "angle".spec_bytes()), 45000) as i64,
        },
    )
}

/// The dispatcher's contract for the "quantized_edge" entry.
pub open spec fn post_quantized_edge(
    img: Image,
    pv: Seq<(Seq<u8>, ParamValue)>,
    r: Result<Outcome, FxError>,
) -> bool {
    (r matches Ok(Outcome::Done(out)) && exists|e: Image|
        (#[trigger] edgesfx::canny_rel(
            img,
            e,
            thr_milli_of(u64_of(spec_get(pv, "threshold".spec_bytes()), 80)),
        )) && edgesfx::quantize_rel(
            e,
            out,
            ((u64_of(spec_get(pv, "level".spec_bytes()), 1) as u64) as u8) as int,
        ))
}

/// The dispatcher's contract for the "extrusion_edge" entry.
pub open spec fn post_extrusion_edge(
    img: Image,
    pv: Seq<(Seq<u8>, ParamValue)>,
    r: Result<Outcome, FxError>,
) -> bool {
    let sm = milli_of(spec_get(pv, "strength".spec_bytes()), 2000);
    let depth = resolve_depth(u64_of(spec_get(pv, "depth".spec_bytes()), 15));
    (r matches Ok(Outcome::Done(out)) && exists|e: Image|
        (#[trigger] edgesfx::canny_rel(
            img,
            e,
            thr_milli_of(u64_of(spec_get(pv, "threshold".spec_bytes()), 100)),
        )) && out.wf() && out.width == img.width && out.height == img.height
        && out.channels == img.channels && (depth == 0 ==> out.same_image(img))
        && edgesfx::extrude_inv(img, e, sm, depth, out, depth + 1, 0, 0) && forall|
        x: int,
        y: int,
    |
        0 <= x < img.width && 0 <= y < img.height ==> #[trigger] edgesfx::extrude_candidate(
            img,
            e,
            sm,
            depth,
            x,
            y,
            out.rgba_at(x, y),
        ))
}

/// The dispatcher's contract for the "blur" entry.
pub open spec fn post_blur(
    img: Image,
    pv: Seq<(Seq<u8>, ParamValue)>,
    r: Result<Outcome, FxError>,
) -> bool {
    r == Result::<Outcome, FxError>::Ok(
        Outcome::NeedsBlur {
            sigma_milli: milli_of(spec_get(pv, "sigma".spec_bytes()), 2000) as i64,
        },
    )
}

/// The dispatcher's contract for the "pixelate" entry.
pub open spec fn post_pixelate(
    img: Image,
    pv: Seq<(Seq<u8>, ParamValue)>,
    r: Result<Outcome, FxError>,
) -> bool {
    ({
        let bs = ((u64_of(spec_get(pv, "block_size".spec_bytes()), 10) as u64) as u32);
        &&& bs == 0 ==> r == Result::<Outcome, FxError>::Err(FxError::PixelateBlockZero)
        &&& bs >= 1 ==> (r matches Ok(Outcome::Done(out)) && glitchfx::pixelate_rel(
            img,
            out,
            bs as int,
        ))
    })
}

/// The dispatcher's contract for the "oil_painting" entry.
pub open spec fn post_oil_painting(
    img: Image,
    pv: Seq<(Seq<u8>, ParamValue)>,
    r: Result<Outcome, FxError>,
) -> bool {
    ({
        let radius = ((u64_of(spec_get(pv, "radius".spec_bytes()), 4) as u64) as u32);
        let levels = u64_of(spec_get(pv, "intensity".spec_bytes()), 30);
        &&& (levels == 0 || levels > 255) ==> r == Result::<Outcome, FxError>::Err(
            FxError::OilPaintingLevelsOutOfRange,
        )
        &&& (1 <= levels <= 255) ==> (r matches Ok(Outcome::Done(out))
            && glitchfx::oil_rel(img, out, radius as int, levels))
    })
}

/// The dispatcher's contract for the "glitch" entry.
pub open spec fn post_glitch(
    img: Image,
    pv: Seq<(Seq<u8>, ParamValue)>,
    r: Result<Outcome, FxError>,
) -> bool {
    ({
        let d = glitchfx::spec_parse_glitch(
            str_or_empty(spec_get(pv, "direction".spec_bytes())),
        );
        let amount = ((u64_of(spec_get(pv, "amount".spec_bytes()), 50) as u64) as u32);
        &&& amount == 0 ==> (r matches Ok(Outcome::Done(out)) && out.same_image(img))
        &&& (amount >= 1 && d is None) ==> r == Result::<Outcome, FxError>::Err(
            FxError::InvalidGlitchDirection,
        )
        &&& (amount >= 1 && d is Some && (img.width == 0 || img.height == 0)) ==> r
            == Result::<Outcome, FxError>::Err(FxError::GlitchOnEmptyImage)
        &&& (amount >= 1 && d is Some && img.width >= 1 && img.height >= 1) ==> (r matches Ok(
            Outcome::Done(done),
        ) && done.wf())
        &&& r matches Ok(Outcome::Done(out)) ==> (out.wf() && out.width == img.width
            && out.height == img.height && out.channels == img.channels && (amount == 0
            ==> out.same_image(img)) && (!bool_of(
            spec_get(pv, "noisy".spec_bytes()),
            false,
        ) ==> glitchfx::glitch_provenance(img, out)))
    })
}

/// The dispatcher's contract for the "pixel_sort" entry.
pub open spec fn post_pixel_sort(
    img: Image,
    pv: Seq<(Seq<u8>, ParamValue)>,
    r: Result<Outcome, FxError>,
) -> bool {
    ({
        let d = glitchfx::spec_parse_sort_pixels(
            str_or_empty(spec_get(pv, "direction".spec_bytes())),
        );
        let lo = ((u64_of(spec_get(pv, "low-threshold".spec_bytes()), 150) as u64) as u8);
        let hi = ((u64_of(spec_get(pv, "high-threshold".spec_bytes()), 200) as u64) as u8);
        let win = ((u64_of(spec_get(pv, "window_size".spec_bytes()), 100) as u64) as usize);
        &&& r matches Ok(Outcome::Done(out)) && out.wf() && out.width == img.width
            && out.height == img.height && out.channels == 3
        &&& r matches Ok(Outcome::Done(out)) ==> ((d == glitchfx::SortPixelsDir::Row || d
            == glitchfx::SortPixelsDir::Other) ==> glitchfx::sort_pixels_rel(
            img,
            out,
            lo,
            hi,
            win as int,
        ))
        &&& r matches Ok(Outcome::Done(out)) ==> (d == glitchfx::SortPixelsDir::Column
            ==> exists|a: Image, b: Image|
            #![trigger glitchfx::rotate90_rel(img, a), glitchfx::sort_pixels_rel(a, b, lo, hi, win as int)]
            glitchfx::rotate90_rel(img, a) && glitchfx::sort_pixels_rel(a, b, lo, hi, win as int)
                && glitchfx::rotate270_rel(b, out))
        &&& r matches Ok(Outcome::Done(out)) ==> (d == glitchfx::SortPixelsDir::Both ==> exists|
            a: Image,
            b: Image,
            c: Image,
        |
            #![trigger glitchfx::sort_pixels_rel(img, a, lo, hi, win as int), glitchfx::rotate90_rel(a, b), glitchfx::sort_pixels_rel(b, c, lo, hi, win as int)]
            glitchfx::sort_pixels_rel(img, a, lo, hi, win as int) && glitchfx::rotate90_rel(a, b)
                && glitchfx::sort_pixels_rel(b, c, lo, hi, win as int) && glitchfx::rotate270_rel(
                c,
                out,
            ))
    })
}

/// The dispatcher's contract for the "rotate" entry.
pub open spec fn post_rotate(
    img: Image,
    pv: Seq<(Seq<u8>, ParamValue)>,
    r: Result<Outcome, FxError>,
) -> bool {
    ({
        let am = thr_milli_of(u64_of(spec_get(pv, "angle".spec_bytes()), 90));
        let a = am % 360000;
        &&& !(a == 0 || a == 90000 || a == 180000 || a == 270000) ==> r == Result::<
            Outcome,
            FxError,
        >::Err(FxError::InvalidRotationAngle)
        &&& a == 90000 ==> (r matches Ok(Outcome::Done(out)) && glitchfx::rotate90_rel(
            img,
            out,
        ))
        &&& a == 180000 ==> (r matches Ok(Outcome::Done(out)) && glitchfx::rotate180_rel(
            img,
            out,
        ))
        &&& a == 270000 ==> (r matches Ok(Outcome::Done(out)) && glitchfx::rotate270_rel(
            img,
            out,
        ))
        &&& a == 0 ==> (r matches Ok(Outcome::Done(out)) && out.same_image(img))
    })
}

/// The dispatcher's contract for the "desync" entry.
pub open spec fn post_desync(
    img: Image,
    pv: Seq<(Seq<u8>, ParamValue)>,
    r: Result<Outcome, FxError>,
) -> bool {
    (r matches Ok(Outcome::Done(out))
        && glitchfx::desync_rel(
        img,
        out,
        ((i64_of(spec_get(pv, "x_shift".spec_bytes()), 10) as i64) as i32) as int,
        ((i64_of(spec_get(pv, "y_shift".spec_bytes()), 10) as i64) as i32) as int,
    ))
}

/// The dispatcher's contract for the "wind" entry.
pub open spec fn post_wind(
    img: Image,
    pv: Seq<(Seq<u8>, ParamValue)>,
    r: Result<Outcome, FxError>,
) -> bool {
    ({
        let strength = ((u64_of(spec_get(pv, "strength".spec_bytes()), 10) as u64) as u32);
        &&& strength == 0 ==> r == Result::<Outcome, FxError>::Err(
            FxError::WindStrengthZero,
        )
        &&& strength >= 1 ==> (r matches Ok(Outcome::Done(out)) && glitchfx::wind_rel(
            img,
            out,
            glitchfx::spec_parse_wind(
                str_or_empty_or(
                    spec_get(pv, "direction".spec_bytes()),
                    "right".spec_bytes(),
                ),
            ),
            strength as int,
        ))
    })
}

/// The dispatcher's contract for the "scan_lines" entry.
pub open spec fn post_scan_lines(
    img: Image,
    pv: Seq<(Seq<u8>, ParamValue)>,
    r: Result<Outcome, FxError>,
) -> bool {
    ({
        let th = ((u64_of(spec_get(pv, "line_thickness".spec_bytes()), 2) as u64) as u32);
        let sp = ((u64_of(spec_get(pv, "line_spacing".spec_bytes()), 10) as u64) as u32);
        &&& (th == 0 && sp == 0) ==> r == Result::<Outcome, FxError>::Err(
            FxError::ScanLinePeriodZero,
        )
        &&& !(th == 0 && sp == 0) ==> r == Result::<Outcome, FxError>::Ok(
            Outcome::NeedsScanLines {
                thickness: th,
                spacing: sp,
                angle_milli: milli_of(spec_get(pv, "angle".spec_bytes()), 0) as i64,
                opacity_milli: milli_of(spec_get(pv, "opacity".spec_bytes()), 500) as i64,
            },
        )
    })
}

fn step_grayscale(
    img: &Image,
    params: &Params,
    rng: &mut rand::rngs::ThreadRng,
) -> (r: Result<Outcome, FxError>)
    requires
        img.wf(),
        fits_rgba(*img),
        img.channels == 3 || img.channels == 4,
        img.width < 0x1_0000_0000,
        img.height < 0x1_0000_0000,
    ensures
        post_grayscale(*img, params@, r),
{
    Ok(Outcome::Done(grayscale_image(img)))
}

fn step_invert(
    img: &Image,
    params: &Params,
    rng: &mut rand::rngs::ThreadRng,
) -> (r: Result<Outcome, FxError>)
    requires
        img.wf(),
        fits_rgba(*img),
        img.channels == 3 || img.channels == 4,
        img.width < 0x1_0000_0000,
        img.height < 0x1_0000_0000,
    ensures
        post_invert(*img, params@, r),
{
    Ok(Outcome::Done(invert(img)))
}

fn step_brightness(
    img: &Image,
    params: &Params,
    rng: &mut rand::rngs::ThreadRng,
) -> (r: Result<Outcome, FxError>)
    requires
        img.wf(),
        fits_rgba(*img),
        img.channels == 3 || img.channels == 4,
        img.width < 0x1_0000_0000,
        img.height < 0x1_0000_0000,
    ensures
        post_brightness(*img, params@, r),
{
    let fm = params.get_milli("factor", 1000);
    match colorfx::brightness(img, fm) {
        Ok(out) => Ok(Outcome::Done(out)),
        Err(e) => Err(e),
    }
}

fn step_sepia(
    img: &Image,
    params: &Params,
    rng: &mut rand::rngs::ThreadRng,
) -> (r: Result<Outcome, FxError>)
    requires
        img.wf(),
        fits_rgba(*img),
        img.channels == 3 || img.channels == 4,
        img.width < 0x1_0000_0000,
        img.height < 0x1_0000_0000,
    ensures
        post_sepia(*img, params@, r),
{
    match colorfx::sepia(img) {
        Ok(out) => Ok(Outcome::Done(out)),
        Err(e) => Err(e),
    }
}

fn step_contrast(
    img: &Image,
    params: &Params,
    rng: &mut rand::rngs::ThreadRng,
) -> (r: Result<Outcome, FxError>)
    requires
        img.wf(),
        fits_rgba(*img),
        img.channels == 3 || img.channels == 4,
        img.width < 0x1_0000_0000,
        img.height < 0x1_0000_0000,
    ensures
        post_contrast(*img, params@, r),
{
    let fm = params.get_milli("factor", 1000);
    Ok(Outcome::Done(colorfx::contrast(img, fm)))
}

fn step_saturation(
    img: &Image,
    params: &Params,
    rng: &mut rand::rngs::ThreadRng,
) -> (r: Result<Outcome, FxError>)
    requires
        img.wf(),
        fits_rgba(*img),
        img.channels == 3 || img.channels == 4,
        img.width < 0x1_0000_0000,
        img.height < 0x1_0000_0000,
    ensures
        post_saturation(*img, params@, r),
{
    let fm = params.get_milli("factor", 1000);
    match colorfx::saturation(img, fm) {
        Ok(out) => Ok(Outcome::Done(out)),
        Err(e) => Err(e),
    }
}

fn step_add_noise(
    img: &Image,
    params: &Params,
    rng: &mut rand::rngs::ThreadRng,
) -> (r: Result<Outcome, FxError>)
    requires
        img.wf(),
        fits_rgba(*img),
        img.channels == 3 || img.channels == 4,
        img.width < 0x1_0000_0000,
        img.height < 0x1_0000_0000,
    ensures
        post_add_noise(*img, params@, r),
{
    let im = params.get_milli("intensity", 100);
    match colorfx::add_noise(img, im, rng) {
        Ok(out) => Ok(Outcome::Done(out)),
        Err(e) => Err(e),
    }
}

fn step_deepfry(
    img: &Image,
    params: &Params,
    rng: &mut rand::rngs::ThreadRng,
) -> (r: Result<Outcome, FxError>)
    requires
        img.wf(),
        fits_rgba(*img),
        img.channels == 3 || img.channels == 4,
        img.width < 0x1_0000_0000,
        img.height < 0x1_0000_0000,
    ensures
        post_deepfry(*img, params@, r),
{
    let fm = params.get_milli("factor", 1000);
    match colorfx::deep_fry(img, fm, rng) {
        Ok(out) => Ok(Outcome::Done(out)),
        Err(e) => Err(e),
    }
}

fn step_hue_rotate(
    img: &Image,
    params: &Params,
    rng: &mut rand::rngs::ThreadRng,
) -> (r: Result<Outcome, FxError>)
    requires
        img.wf(),
        fits_rgba(*img),
        img.channels == 3 || img.channels == 4,
        img.width < 0x1_0000_0000,
        img.height < 0x1_0000_0000,
    ensures
        post_hue_rotate(*img, params@, r),
{
    let am = params.get_milli("angle", 90000);
    match colorfx::hue_rotate(img, am) {
        Ok(out) => Ok(Outcome::Done(out)),
        Err(e) => Err(e),
    }
}

fn step_color_replacer(
    img: &Image,
    params: &Params,
    rng: &mut rand::rngs::ThreadRng,
) -> (r: Result<Outcome, FxError>)
    requires
        img.wf(),
        fits_rgba(*img),
        img.channels == 3 || img.channels == 4,
        img.width < 0x1_0000_0000,
        img.height < 0x1_0000_0000,
    ensures
        post_color_replacer(*img, params@, r),
{
    let target = match params.get_str("target_color") {
        Some(s) => s,
        None => String::new(),
    };
    let replacement = match params.get_str("replacement_color") {
        Some(s) => s,
        None => String::new(),
    };
    let tol = params.get_u64("tolerance", 50) as u8;
    proof {
        lemma_empty_str_bytes();
        assert(crate::params::string_bytes(target) =~= str_or_empty(
            spec_get(params@, "target_color".spec_bytes()),
        ));
        assert(crate::params::string_bytes(replacement) =~= str_or_empty(
            spec_get(params@, "replacement_color".spec_bytes()),
        ));
    }
    match colorfx::color_replacer(img, target.as_str(), replacement.as_str(), tol) {
        Ok(out) => Ok(Outcome::Done(out)),
        Err(e) => Err(e),
    }
}

fn step_vaporwave(
    img: &Image,
    params: &Params,
    rng: &mut rand::rngs::ThreadRng,
) -> (r: Result<Outcome, FxError>)
    requires
        img.wf(),
        fits_rgba(*img),
        img.channels == 3 || img.channels == 4,
        img.width < 0x1_0000_0000,
        img.height < 0x1_0000_0000,
    ensures
        post_vaporwave(*img, params@, r),
{
    match colorfx::vaporwave(img) {
        Ok(out) => Ok(Outcome::Done(out)),
        Err(e) => Err(e),
    }
}

fn step_dither(
    img: &Image,
    params: &Params,
    rng: &mut rand::rngs::ThreadRng,
) -> (r: Result<Outcome, FxError>)
    requires
        img.wf(),
        fits_rgba(*img),
        img.channels == 3 || img.channels == 4,
        img.width < 0x1_0000_0000,
        img.height < 0x1_0000_0000,
    ensures
        post_dither(*img, params@, r),
{
    let levels = params.get_u64("levels", 4) as u8;
    let ms = opt_u32_exec(params, "matrix_size");
    let ps = opt_u32_exec(params, "point_size");
    let bias = opt_milli32_exec(params, "threshold_bias");
    match colorfx::dither(img, levels, ms, ps, bias) {
        Ok(out) => Ok(Outcome::Done(out)),
        Err(e) => Err(e),
    }
}

fn step_neon_edge(
    img: &Image,
    params: &Params,
    rng: &mut rand::rngs::ThreadRng,
) -> (r: Result<Outcome, FxError>)
    requires
        img.wf(),
        fits_rgba(*img),
        img.channels == 3 || img.channels == 4,
        img.width < 0x1_0000_0000,
        img.height < 0x1_0000_0000,
    ensures
        post_neon_edge(*img, params@, r),
{
    let sm = params.get_milli("strength", 1000);
    let shm = params.get_milli("color_shift", 0);
    let bm = params.get_milli("brightness", 1000);
    match edgesfx::neon_edge(img, sm, shm, bm) {
        Ok(out) => Ok(Outcome::Done(out)),
        Err(e) => Err(e),
    }
}

fn step_sketch(
    img: &Image,
    params: &Params,
    rng: &mut rand::rngs::ThreadRng,
) -> (r: Result<Outcome, FxError>)
    requires
        img.wf(),
        fits_rgba(*img),
        img.channels == 3 || img.channels == 4,
        img.width < 0x1_0000_0000,
        img.height < 0x1_0000_0000,
    ensures
        post_sketch(*img, params@, r),
{
    let im = params.get_milli("intensity", 10000);
    let cm = params.get_milli("contrast", 1000);
    let inv = params.get_bool("invert", false);
    match edgesfx::sketch(img, im, cm, inv) {
        Ok(out) => Ok(Outcome::Done(out)),
        Err(e) => Err(e),
    }
}

fn step_emboss(
    img: &Image,
    params: &Params,
    rng: &mut rand::rngs::ThreadRng,
) -> (r: Result<Outcome, FxError>)
    requires
        img.wf(),
        fits_rgba(*img),
        img.channels == 3 || img.channels == 4,
        img.width < 0x1_0000_0000,
        img.height < 0x1_0000_0000,
    ensures
        post_emboss(*img, params@, r),
{
    let sm = params.get_milli("strength", 100_000_000);
    let am = params.get_milli("angle", 45000);
    Ok(Outcome::NeedsEmboss { strength_milli: sm, angle_milli: am })
}

#[verifier::rlimit(100)]
#[verifier::spinoff_prover]
fn step_quantized_edge(
    img: &Image,
    params: &Params,
    rng: &mut rand::rngs::ThreadRng,
) -> (r: Result<Outcome, FxError>)
    requires
        img.wf(),
        fits_rgba(*img),
        img.channels == 3 || img.channels == 4,
        img.width < 0x1_0000_0000,
        img.height < 0x1_0000_0000,
    ensures
        post_quantized_edge(*img, params@, r),
{
    let thr = thr_milli_exec(params.get_u64("threshold", 80));
    let levels = params.get_u64("level", 1) as u8;
    match edgesfx::quantized_edge(img, levels, thr) {
        Ok(out) => Ok(Outcome::Done(out)),
        Err(e) => Err(e),
    }
}

#[verifier::rlimit(100)]
#[verifier::spinoff_prover]
fn step_extrusion_edge(
    img: &Image,
    params: &Params,
    rng: &mut rand::rngs::ThreadRng,
) -> (r: Result<Outcome, FxError>)
    requires
        img.wf(),
        fits_rgba(*img),
        img.channels == 3 || img.channels == 4,
        img.width < 0x1_0000_0000,
        img.height < 0x1_0000_0000,
    ensures
        post_extrusion_edge(*img, params@, r),
{
    let thr = thr_milli_exec(params.get_u64("threshold", 100));
    let sm = params.get_milli("strength", 2000);
    let depth_raw = params.get_u64("depth", 15);
    let depth: u32 = if depth_raw > 1_000_000 {
        1_000_000
    } else {
        depth_raw as u32
    };
    match edgesfx::edge_extrusion(img, sm, depth, thr) {
        Ok(out) => Ok(Outcome::Done(out)),
        Err(e) => Err(e),
    }
}

fn step_blur(
    img: &Image,
    params: &Params,
    rng: &mut rand::rngs::ThreadRng,
) -> (r: Result<Outcome, FxError>)
    requires
        img.wf(),
        fits_rgba(*img),
        img.channels == 3 || img.channels == 4,
        img.width < 0x1_0000_0000,
        img.height < 0x1_0000_0000,
    ensures
        post_blur(*img, params@, r),
{
    let sm = params.get_milli("sigma", 2000);
    Ok(Outcome::NeedsBlur { sigma_milli: sm })
}

fn step_pixelate(
    img: &Image,
    params: &Params,
    rng: &mut rand::rngs::ThreadRng,
) -> (r: Result<Outcome, FxError>)
    requires
        img.wf(),
        fits_rgba(*img),
        img.channels == 3 || img.channels == 4,
        img.width < 0x1_0000_0000,
        img.height < 0x1_0000_0000,
    ensures
        post_pixelate(*img, params@, r),
{
    let bs = params.get_u64("block_size", 10) as u32;
    if bs == 0 {
        Err(FxError::PixelateBlockZero)
    } else {
        Ok(Outcome::Done(glitchfx::pixelate(img, bs)))
    }
}

fn step_oil_painting(
    img: &Image,
    params: &Params,
    rng: &mut rand::rngs::ThreadRng,
) -> (r: Result<Outcome, FxError>)
    requires
        img.wf(),
        fits_rgba(*img),
        img.channels == 3 || img.channels == 4,
        img.width < 0x1_0000_0000,
        img.height < 0x1_0000_0000,
    ensures
        post_oil_painting(*img, params@, r),
{
    let radius = params.get_u64("radius", 4) as u32;
    let levels = params.get_u64("intensity", 30);
    if levels == 0 || levels > 255 {
        Err(FxError::OilPaintingLevelsOutOfRange)
    } else {
        Ok(Outcome::Done(glitchfx::oil_painting(img, radius, levels as u8)))
    }
}

fn step_glitch(
    img: &Image,
    params: &Params,
    rng: &mut rand::rngs::ThreadRng,
) -> (r: Result<Outcome, FxError>)
    requires
        img.wf(),
        fits_rgba(*img),
        img.channels == 3 || img.channels == 4,
        img.width < 0x1_0000_0000,
        img.height < 0x1_0000_0000,
    ensures
        post_glitch(*img, params@, r),
{
    let amount = params.get_u64("amount", 50) as u32;
    let mo_raw = params.get_u64("max_offset", 10);
    let max_offset: i32 = if mo_raw > 0x7FFF_FFFF {
        0x7FFF_FFFF
    } else {
        mo_raw as i32
    };
    let direction = match params.get_str("direction") {
        Some(s) => s,
        None => String::new(),
    };
    proof {
        lemma_empty_str_bytes();
        assert(crate::params::string_bytes(direction) =~= str_or_empty(
            spec_get(params@, "direction".spec_bytes()),
        ));
    }
    let noisy = params.get_bool("noisy", false);
    if amount == 0 {
        // Zero glitches: the image passes through before the direction is
        // ever examined.
        return match glitchfx::glitch(img, 0, max_offset, direction.as_str(), noisy, rng) {
            Ok(out) => Ok(Outcome::Done(out)),
            Err(e) => Err(e),
        };
    }
    if glitchfx::parse_glitch_direction(direction.as_str()).is_none() {
        return Err(FxError::InvalidGlitchDirection);
    }
    if img.width == 0 || img.height == 0 {
        return Err(FxError::GlitchOnEmptyImage);
    }
    match glitchfx::glitch(img, amount, max_offset, direction.as_str(), noisy, rng) {
        Ok(out) => Ok(Outcome::Done(out)),
        Err(e) => Err(e),
    }
}

fn step_pixel_sort(
    img: &Image,
    params: &Params,
    rng: &mut rand::rngs::ThreadRng,
) -> (r: Result<Outcome, FxError>)
    requires
        img.wf(),
        fits_rgba(*img),
        img.channels == 3 || img.channels == 4,
        img.width < 0x1_0000_0000,
        img.height < 0x1_0000_0000,
    ensures
        post_pixel_sort(*img, params@, r),
{
    let lo = params.get_u64("low-threshold", 150) as u8;
    let hi = params.get_u64("high-threshold", 200) as u8;
    let win = params.get_u64("window_size", 100) as usize;
    let direction = match params.get_str("direction") {
        Some(s) => s,
        None => String::new(),
    };
    Ok(Outcome::Done(glitchfx::pixel_sort(img, direction.as_str(), lo, hi, win)))
}

fn step_rotate(
    img: &Image,
    params: &Params,
    rng: &mut rand::rngs::ThreadRng,
) -> (r: Result<Outcome, FxError>)
    requires
        img.wf(),
        fits_rgba(*img),
        img.channels == 3 || img.channels == 4,
        img.width < 0x1_0000_0000,
        img.height < 0x1_0000_0000,
    ensures
        post_rotate(*img, params@, r),
{
    let am = thr_milli_exec(params.get_u64("angle", 90));
    match glitchfx::rotate(img, am) {
        Ok(out) => Ok(Outcome::Done(out)),
        Err(e) => Err(e),
    }
}

fn step_desync(
    img: &Image,
    params: &Params,
    rng: &mut rand::rngs::ThreadRng,
) -> (r: Result<Outcome, FxError>)
    requires
        img.wf(),
        fits_rgba(*img),
        img.channels == 3 || img.channels == 4,
        img.width < 0x1_0000_0000,
        img.height < 0x1_0000_0000,
    ensures
        post_desync(*img, params@, r),
{
    let xs = params.get_i64("x_shift", 10) as i32;
    let ys = params.get_i64("y_shift", 10) as i32;
    match glitchfx::desync(img, xs, ys) {
        Ok(out) => Ok(Outcome::Done(out)),
        Err(e) => Err(e),
    }
}

fn step_wind(
    img: &Image,
    params: &Params,
    rng: &mut rand::rngs::ThreadRng,
) -> (r: Result<Outcome, FxError>)
    requires
        img.wf(),
        fits_rgba(*img),
        img.channels == 3 || img.channels == 4,
        img.width < 0x1_0000_0000,
        img.height < 0x1_0000_0000,
    ensures
        post_wind(*img, params@, r),
{
    let strength = params.get_u64("strength", 10) as u32;
    let direction = match params.get_str("direction") {
        Some(s) => s,
        None => right_string(),
    };
    match glitchfx::wind(img, direction.as_str(), strength) {
        Ok(out) => Ok(Outcome::Done(out)),
        Err(e) => Err(e),
    }
}

fn step_scan_lines(
    img: &Image,
    params: &Params,
    rng: &mut rand::rngs::ThreadRng,
) -> (r: Result<Outcome, FxError>)
    requires
        img.wf(),
        fits_rgba(*img),
        img.channels == 3 || img.channels == 4,
        img.width < 0x1_0000_0000,
        img.height < 0x1_0000_0000,
    ensures
        post_scan_lines(*img, params@, r),
{
    let th = params.get_u64("line_thickness", 2) as u32;
    let sp = params.get_u64("line_spacing", 10) as u32;
    if th == 0 && sp == 0 {
        Err(FxError::ScanLinePeriodZero)
    } else {
        let am = params.get_milli("angle", 0);
        let om = params.get_milli("opacity", 500);
        Ok(
            Outcome::NeedsScanLines {
                thickness: th,
                spacing: sp,
                angle_milli: am,
                opacity_milli: om,
            },
        )
    }
}

/// Resolve one transformation step and run it.  Every recognized name
/// reads its parameters with the documented defaults, validates them, and
/// either produces the finished image or reports exactly which validation
/// failed; an unknown name passes the image through unchanged.  Steps
/// that need a scalar the engine leaves to its surroundings come back as
/// an explicit request carrying the resolved parameters.
#[verifier::rlimit(100)]
#[verifier::spinoff_prover]
pub fn apply_transformation(
    img: &Image,
    name: &str,
    params: &Params,
    rng: &mut rand::rngs::ThreadRng,
) -> (r: Result<Outcome, FxError>)
    requires
        img.wf(),
        fits_rgba(*img),
        img.channels == 3 || img.channels == 4,
        img.width < 0x1_0000_0000,
        img.height < 0x1_0000_0000,
    ensures
        ({
            let nb = name.spec_bytes();
            let pv = params@;
            let k = dispatch_name(nb);
            &&& k == DispatchKind::Grayscale ==> post_grayscale(*img, pv, r)
            &&& k == DispatchKind::Invert ==> post_invert(*img, pv, r)
            &&& k == DispatchKind::Brightness ==> post_brightness(*img, pv, r)
            &&& k == DispatchKind::Sepia ==> post_sepia(*img, pv, r)
            &&& k == DispatchKind::Contrast ==> post_contrast(*img, pv, r)
            &&& k == DispatchKind::Saturation ==> post_saturation(*img, pv, r)
            &&& k == DispatchKind::AddNoise ==> post_add_noise(*img, pv, r)
            &&& k == DispatchKind::Deepfry ==> post_deepfry(*img, pv, r)
            &&& k == DispatchKind::HueRotate ==> post_hue_rotate(*img, pv, r)
            &&& k == DispatchKind::ColorReplacer ==> post_color_replacer(*img, pv, r)
            &&& k == DispatchKind::Vaporwave ==> post_vaporwave(*img, pv, r)
            &&& k == DispatchKind::Dither ==> post_dither(*img, pv, r)
            &&& k == DispatchKind::NeonEdge ==> post_neon_edge(*img, pv, r)
            &&& k == DispatchKind::Sketch ==> post_sketch(*img, pv, r)
            &&& k == DispatchKind::Emboss ==> post_emboss(*img, pv, r)
            &&& k == DispatchKind::QuantizedEdge ==> post_quantized_edge(*img, pv, r)
            &&& k == DispatchKind::ExtrusionEdge ==> post_extrusion_edge(*img, pv, r)
            &&& k == DispatchKind::Blur ==> post_blur(*img, pv, r)
            &&& k == DispatchKind::Pixelate ==> post_pixelate(*img, pv, r)
            &&& k == DispatchKind::OilPainting ==> post_oil_painting(*img, pv, r)
            &&& k == DispatchKind::Glitch ==> post_glitch(*img, pv, r)
            &&& k == DispatchKind::PixelSort ==> post_pixel_sort(*img, pv, r)
            &&& k == DispatchKind::Rotate ==> post_rotate(*img, pv, r)
            &&& k == DispatchKind::Desync ==> post_desync(*img, pv, r)
            &&& k == DispatchKind::Wind ==> post_wind(*img, pv, r)
            &&& k == DispatchKind::ScanLines ==> post_scan_lines(*img, pv, r)
            &&& k == DispatchKind::Unknown ==> (r matches Ok(Outcome::Done(out))
                && out.same_image(*img))
        }),
{
    let nm = name.as_bytes();
    if bytes_eq(nm, "grayscale".as_bytes()) {
        step_grayscale(img, params, rng)
    } else if bytes_eq(nm, "invert".as_bytes()) {
        step_invert(img, params, rng)
    } else if bytes_eq(nm, "brightness".as_bytes()) {
        step_brightness(img, params, rng)
    } else if bytes_eq(nm, "sepia".as_bytes()) {
        step_sepia(img, params, rng)
    } else if bytes_eq(nm, "contrast".as_bytes()) {
        step_contrast(img, params, rng)
    } else if bytes_eq(nm, "saturation".as_bytes()) {
        step_saturation(img, params, rng)
    } else if bytes_eq(nm, "add_noise".as_bytes()) {
        step_add_noise(img, params, rng)
    } else if bytes_eq(nm, "deepfry".as_bytes()) {
        step_deepfry(img, params, rng)
    } else if bytes_eq(nm, "hue_rotate".as_bytes()) {
        step_hue_rotate(img, params, rng)
    } else if bytes_eq(nm, "color_replacer".as_bytes()) {
        step_color_replacer(img, params, rng)
    } else if bytes_eq(nm, "vaporwave".as_bytes()) {
        step_vaporwave(img, params, rng)
    } else if bytes_eq(nm, "dither".as_bytes()) {
        step_dither(img, params, rng)
    } else if bytes_eq(nm, "neon_edge".as_bytes()) {
        step_neon_edge(img, params, rng)
    } else if bytes_eq(nm, "sketch".as_bytes()) {
        step_sketch(img, params, rng)
    } else if bytes_eq(nm, "emboss".as_bytes()) {
        step_emboss(img, params, rng)
    } else if bytes_eq(nm, "quantized_edge".as_bytes()) {
        step_quantized_edge(img, params, rng)
    } else if bytes_eq(nm, "extrusion_edge".as_bytes()) {
        step_extrusion_edge(img, params, rng)
    } else if bytes_eq(nm, "blur".as_bytes()) {
        step_blur(img, params, rng)
    } else if bytes_eq(nm, "pixelate".as_bytes()) {
        step_pixelate(img, params, rng)
    } else if bytes_eq(nm, "oil_painting".as_bytes()) {
        step_oil_painting(img, params, rng)
    } else if bytes_eq(nm, "glitch".as_bytes()) {
        step_glitch(img, params, rng)
    } else if bytes_eq(nm, "pixel_sort".as_bytes()) {
        step_pixel_sort(img, params, rng)
    } else if bytes_eq(nm, "rotate".as_bytes()) {
        step_rotate(img, params, rng)
    } else if bytes_eq(nm, "desync".as_bytes()) {
        step_desync(img, params, rng)
    } else if bytes_eq(nm, "wind".as_bytes()) {
        step_wind(img, params, rng)
    } else if bytes_eq(nm, "scan_lines".as_bytes()) {
        step_scan_lines(img, params, rng)
    } else {
        Ok(Outcome::Done(crate::glitchfx::clone_image(img)))
    }
}

/// The direction string the wind filter falls back to.
fn right_string() -> (s: String)
    ensures
        string_bytes(s) == "right".spec_bytes(),
{
    let s = "right".to_owned();
    proof {
        assert(string_bytes(s) =~= "right".spec_bytes());
    }
    s
}

/// The string payload of a parameter, or a fallback when it is not one.
pub open spec fn str_or_empty_or(v: ParamValue, dflt: Seq<u8>) -> Seq<u8> {
    match v {
        ParamValue::Str(s) => string_bytes(s),
        _ => dflt,
    }
}


} // verus!
