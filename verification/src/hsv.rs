//! RGB to HSV conversion and back, in exact fixed point.
//!
//! Hue is kept in units of 60/65536 degrees, so one 60-degree sector of the
//! color wheel spans 65536 and a full turn spans 6 * 65536 = 393216.
//! Saturation is kept in units of 1/65536 with 65536 standing for 1.0;
//! value is kept in units of 1/255 with 255 standing for 1.0.  The scale is
//! fine enough that converting a color to HSV and back reproduces it
//! exactly, which is proved below.

use vstd::arithmetic::div_mod::{lemma_fundamental_div_mod, lemma_mod_bound};
use vstd::prelude::*;

use crate::arith::{lemma_divmod_pin, rnd_div, rnd_div_u64};
use crate::color_utils::Rgb;

verus! {

/// A color in fixed-point HSV.
#[derive(Clone, Copy, PartialEq, Eq, Structural, Debug)]
pub struct Hsv {
    pub h: u32,
    pub s: u32,
    pub v: u8,
}

pub open spec fn hsv_wf(c: Hsv) -> bool {
    c.h < 393216 && c.s <= 65536
}

pub open spec fn max3(a: u8, b: u8, c: u8) -> u8 {
    if a >= b && a >= c {
        a
    } else if b >= c {
        b
    } else {
        c
    }
}

pub open spec fn min3(a: u8, b: u8, c: u8) -> u8 {
    if a <= b && a <= c {
        a
    } else if b <= c {
        b
    } else {
        c
    }
}

/// The hue of an RGB color, in 1/65536 sectors.  The numerator follows the
/// standard max/delta formula, brought into [0, 360) by working modulo six
/// sectors; an achromatic color reports hue 0.
pub open spec fn spec_hue16(r: u8, g: u8, b: u8) -> int {
    let mx = max3(r, g, b) as int;
    let mn = min3(r, g, b) as int;
    let d = mx - mn;
    if d == 0 {
        0
    } else {
        let num = if mx == r {
            g - b + 6 * d
        } else if mx == g {
            b - r + 2 * d
        } else {
            r - g + 4 * d
        };
        ((num / d) % 6) * 65536 + rnd_div((num % d) * 65536, d)
    }
}

pub open spec fn spec_rgb_to_hsv(r: u8, g: u8, b: u8) -> Hsv {
    let mx = max3(r, g, b);
    let mn = min3(r, g, b);
    let d = mx - mn;
    Hsv {
        h: spec_hue16(r, g, b) as u32,
        s: if mx == 0 {
            0u32
        } else {
            rnd_div(d * 65536, mx as int) as u32
        },
        v: mx,
    }
}

/// The chroma/intermediate/match decomposition on the fixed-point scale:
/// chroma `c = v*s`, the intermediate channel follows the position within
/// the sector, and `m = v - c` lifts all channels.
pub open spec fn spec_hsv_to_rgb(c: Hsv) -> Rgb {
    let sector = c.h as int / 65536;
    let frac = c.h as int % 65536;
    let cc = rnd_div(c.v as int * c.s as int, 65536);
    let m = c.v as int - cc;
    let x = if sector % 2 == 0 {
        rnd_div(cc * frac, 65536)
    } else {
        rnd_div(cc * (65536 - frac), 65536)
    };
    if sector == 0 {
        Rgb { r: (cc + m) as u8, g: (x + m) as u8, b: m as u8 }
    } else if sector == 1 {
        Rgb { r: (x + m) as u8, g: (cc + m) as u8, b: m as u8 }
    } else if sector == 2 {
        Rgb { r: m as u8, g: (cc + m) as u8, b: (x + m) as u8 }
    } else if sector == 3 {
        Rgb { r: m as u8, g: (x + m) as u8, b: (cc + m) as u8 }
    } else if sector == 4 {
        Rgb { r: (x + m) as u8, g: m as u8, b: (cc + m) as u8 }
    } else {
        Rgb { r: (cc + m) as u8, g: m as u8, b: (x + m) as u8 }
    }
}

/// Scaling `d/D` up to the 1/65536 grid and rounding keeps it at most 1.
proof fn lemma_ratio16_le(d: int, dd: int)
    requires
        1 <= dd <= 255,
        0 <= d <= dd,
    ensures
        0 <= rnd_div(d * 65536, dd) <= 65536,
        d < dd ==> rnd_div(d * 65536, dd) <= 65535,
{
    lemma_fundamental_div_mod(2 * (d * 65536) + dd, 2 * dd);
    lemma_mod_bound(2 * (d * 65536) + dd, 2 * dd);
    let q = (2 * (d * 65536) + dd) / (2 * dd);
    let r0 = (2 * (d * 65536) + dd) % (2 * dd);
    assert(2 * (d * 65536) + dd == 2 * dd * q + r0);
    if q < 0 {
        assert(2 * dd * q + r0 < 0) by (nonlinear_arith)
            requires
                q < 0,
                dd >= 1,
                0 <= r0 < 2 * dd,
        ;
    }
    if q > 65536 {
        assert(2 * dd * q + r0 > 2 * (dd * 65536) + dd) by (nonlinear_arith)
            requires
                q > 65536,
                dd >= 1,
                r0 >= 0,
        ;
        assert(2 * (d * 65536) <= 2 * (dd * 65536)) by (nonlinear_arith)
            requires
                d <= dd,
        ;
    }
    if d < dd && q > 65535 {
        assert(2 * dd * q + r0 >= 2 * (dd * 65536)) by (nonlinear_arith)
            requires
                q >= 65536,
                dd >= 1,
                r0 >= 0,
        ;
        assert(false) by (nonlinear_arith)
            requires
                2 * (d * 65536) + dd >= 2 * (dd * 65536),
                d <= dd - 1,
                1 <= dd <= 255,
        ;
    }
}

/// Round-trip of the rounded ratio: scaling `d/D` to the 1/65536 grid and
/// back recovers `d` exactly, both directly and through the complement.
proof fn lemma_ratio16_round_trip(d: int, dd: int)
    requires
        1 <= dd <= 255,
        0 <= d <= dd,
    ensures
        rnd_div(rnd_div(d * 65536, dd) * dd, 65536) == d,
        rnd_div((65536 - rnd_div(d * 65536, dd)) * dd, 65536) == dd - d,
{
    lemma_fundamental_div_mod(2 * (d * 65536) + dd, 2 * dd);
    lemma_mod_bound(2 * (d * 65536) + dd, 2 * dd);
    let f = (2 * (d * 65536) + dd) / (2 * dd);
    let r0 = (2 * (d * 65536) + dd) % (2 * dd);
    assert(2 * (d * 65536) + dd == 2 * dd * f + r0);
    assert(rnd_div(d * 65536, dd) == f);
    assert(2 * (f * dd) == 2 * (d * 65536) + dd - r0) by (nonlinear_arith)
        requires
            2 * (d * 65536) + dd == 2 * dd * f + r0,
    ;
    // Forward: (2*f*dd + 65536) / 131072 == d.
    assert(2 * (f * dd) + 65536 == 131072 * d + 65536 + dd - r0);
    assert(0 <= 65536 + dd - r0 < 131072);
    assert((131072 * d + (65536 + dd - r0)) / 131072 == d) by (nonlinear_arith)
        requires
            0 <= 65536 + dd - r0 < 131072,
    ;
    // Complement: (2*(65536-f)*dd + 65536) / 131072 == dd - d.
    assert(2 * ((65536 - f) * dd) == 131072 * dd - 2 * (f * dd)) by (nonlinear_arith);
    assert(2 * ((65536 - f) * dd) + 65536 == 131072 * (dd - d) + 65536 - dd + r0);
    assert(0 <= 65536 - dd + r0 < 131072);
    assert((131072 * (dd - d) + (65536 - dd + r0)) / 131072 == dd - d) by (nonlinear_arith)
        requires
            0 <= 65536 - dd + r0 < 131072,
    ;
}

proof fn lemma_rnd_div_zero(d: int)
    requires
        d >= 1,
    ensures
        rnd_div(0, d) == 0,
{
    assert(d / (2 * d) == 0) by (nonlinear_arith)
        requires
            d >= 1,
    ;
}

proof fn lemma_rnd_div_full(cc: int)
    requires
        cc >= 0,
    ensures
        rnd_div(cc * 65536, 65536) == cc,
{
    assert((2 * (cc * 65536) + 65536) / (131072int) == cc) by (nonlinear_arith)
        requires
            cc >= 0,
    ;
}

/// Converting a color to HSV and back reproduces it exactly.  On the
/// 1/65536 fixed-point grid the round trip loses nothing, which is within
/// the one-step quantization error the conversion pair is allowed.
#[verifier::rlimit(100)]
pub proof fn lemma_hsv_round_trip(r: u8, g: u8, b: u8)
    ensures
        spec_hsv_to_rgb(spec_rgb_to_hsv(r, g, b)) == (Rgb { r, g, b }),
{
    let mx = max3(r, g, b) as int;
    let mn = min3(r, g, b) as int;
    let d = mx - mn;
    let c = spec_rgb_to_hsv(r, g, b);
    assert(mn <= r as int <= mx && mn <= g as int <= mx && mn <= b as int <= mx);
    if d == 0 {
        assert(r as int == mx && g as int == mx && b as int == mx);
        if mx != 0 {
            lemma_rnd_div_zero(mx);
        }
        assert(c.s == 0 && c.h == 0 && c.v as int == mx);
        lemma_rnd_div_zero(65536);
        assert(c.v as int * c.s as int == 0) by (nonlinear_arith)
            requires
                c.s == 0,
        ;
        assert(rnd_div(c.v as int * c.s as int, 65536) == 0);
        assert(spec_hsv_to_rgb(c).r as int == mx);
        assert(spec_hsv_to_rgb(c).g as int == mx);
        assert(spec_hsv_to_rgb(c).b as int == mx);
    } else {
        assert(mx >= 1);
        lemma_ratio16_le(d, mx);
        assert(c.s as int == rnd_div(d * 65536, mx));
        assert(c.v as int == mx);
        // Chroma decodes back to the delta, and the offset to the minimum.
        lemma_ratio16_round_trip(d, mx);
        assert(c.v as int * c.s as int == rnd_div(d * 65536, mx) * mx) by (nonlinear_arith)
            requires
                c.v as int == mx,
                c.s as int == rnd_div(d * 65536, mx),
        ;
        let cc = rnd_div(c.v as int * c.s as int, 65536);
        assert(cc == d);
        let m = c.v as int - cc;
        assert(m == mn);
        // The hue encodes a sector and the rounded in-sector fraction.
        let num = if mx == r {
            g - b + 6 * d
        } else if mx == g {
            b - r + 2 * d
        } else {
            r - g + 4 * d
        };
        lemma_fundamental_div_mod(num, d);
        lemma_mod_bound(num, d);
        let q = num / d;
        let rem = num % d;
        lemma_ratio16_le(rem, d);
        let f = rnd_div(rem * 65536, d);
        assert(0 <= f <= 65535);
        lemma_ratio16_round_trip(rem, d);
        assert(rnd_div(f * d, 65536) == rem);
        assert(rnd_div((65536 - f) * d, 65536) == d - rem);
        assert(c.h as int == (q % 6) * 65536 + f);
        if mx == r {
            if g >= b && g - b < d {
                lemma_divmod_pin(num, d, 6, g - b);
                assert(q == 6 && rem == g - b);
                lemma_divmod_pin(c.h as int, 65536, 0, f);
                let x = rnd_div(cc * f, 65536);
                assert(cc * f == f * d) by (nonlinear_arith)
                    requires
                        cc == d,
                ;
                assert(x == g - b);
                assert(b as int == mn);
                assert(spec_hsv_to_rgb(c) == (Rgb { r, g, b }));
            } else if g >= b {
                // g - b == d: the hue lands exactly on the next sector.
                lemma_divmod_pin(num, d, 7, 0);
                assert(rem == 0);
                lemma_rnd_div_zero(d);
                assert(f == 0);
                lemma_divmod_pin(c.h as int, 65536, 1, 0);
                lemma_rnd_div_full(cc);
                let x = rnd_div(cc * (65536 - 0), 65536);
                assert(x == d);
                assert(g as int == mx && b as int == mn);
                assert(spec_hsv_to_rgb(c) == (Rgb { r, g, b }));
            } else {
                // g < b: the wheel wraps into the last sector.
                lemma_divmod_pin(num, d, 5, d - (b - g));
                assert(q == 5 && rem == d - (b - g));
                lemma_divmod_pin(c.h as int, 65536, 5, f);
                let x = rnd_div(cc * (65536 - f), 65536);
                assert(cc * (65536 - f) == (65536 - f) * d) by (nonlinear_arith)
                    requires
                        cc == d,
                ;
                assert(x == b - g);
                assert(g as int == mn);
                assert(spec_hsv_to_rgb(c) == (Rgb { r, g, b }));
            }
        } else if mx == g {
            assert((r as int) < mx);
            if b <= r {
                if r == b {
                    lemma_divmod_pin(num, d, 2, 0);
                    lemma_rnd_div_zero(d);
                    assert(f == 0);
                    lemma_divmod_pin(c.h as int, 65536, 2, 0);
                    lemma_rnd_div_zero(65536);
                    let x = rnd_div(cc * 0, 65536);
                    assert(x == 0);
                    assert(r as int == mn && b as int == mn);
                    assert(spec_hsv_to_rgb(c) == (Rgb { r, g, b }));
                } else {
                    lemma_divmod_pin(num, d, 1, d - (r - b));
                    assert(q == 1 && rem == d - (r - b));
                    lemma_divmod_pin(c.h as int, 65536, 1, f);
                    let x = rnd_div(cc * (65536 - f), 65536);
                    assert(cc * (65536 - f) == (65536 - f) * d) by (nonlinear_arith)
                        requires
                            cc == d,
                    ;
                    assert(x == r - b);
                    assert(b as int == mn);
                    assert(spec_hsv_to_rgb(c) == (Rgb { r, g, b }));
                }
            } else {
                if b - r < d {
                    lemma_divmod_pin(num, d, 2, b - r);
                    assert(q == 2 && rem == b - r);
                    lemma_divmod_pin(c.h as int, 65536, 2, f);
                    let x = rnd_div(cc * f, 65536);
                    assert(cc * f == f * d) by (nonlinear_arith)
                        requires
                            cc == d,
                    ;
                    assert(x == b - r);
                    assert(r as int == mn);
                    assert(spec_hsv_to_rgb(c) == (Rgb { r, g, b }));
                } else {
                    lemma_divmod_pin(num, d, 3, 0);
                    assert(rem == 0);
                    lemma_rnd_div_zero(d);
                    assert(f == 0);
                    lemma_divmod_pin(c.h as int, 65536, 3, 0);
                    lemma_rnd_div_full(cc);
                    let x = rnd_div(cc * (65536 - 0), 65536);
                    assert(x == d);
                    assert(b as int == mx && r as int == mn);
                    assert(spec_hsv_to_rgb(c) == (Rgb { r, g, b }));
                }
            }
        } else {
            assert(mx == b);
            assert((r as int) < mx && (g as int) < mx);
            assert(r - g < d && g - r < d);
            if r <= g {
                if r == g {
                    lemma_divmod_pin(num, d, 4, 0);
                    lemma_rnd_div_zero(d);
                    assert(f == 0);
                    lemma_divmod_pin(c.h as int, 65536, 4, 0);
                    lemma_rnd_div_zero(65536);
                    let x = rnd_div(cc * 0, 65536);
                    assert(x == 0);
                    assert(r as int == mn && g as int == mn);
                    assert(spec_hsv_to_rgb(c) == (Rgb { r, g, b }));
                } else {
                    lemma_divmod_pin(num, d, 3, d - (g - r));
                    assert(q == 3 && rem == d - (g - r));
                    lemma_divmod_pin(c.h as int, 65536, 3, f);
                    let x = rnd_div(cc * (65536 - f), 65536);
                    assert(cc * (65536 - f) == (65536 - f) * d) by (nonlinear_arith)
                        requires
                            cc == d,
                    ;
                    assert(x == g - r);
                    assert(r as int == mn);
                    assert(spec_hsv_to_rgb(c) == (Rgb { r, g, b }));
                }
            } else {
                lemma_divmod_pin(num, d, 4, r - g);
                assert(q == 4 && rem == r - g);
                lemma_divmod_pin(c.h as int, 65536, 4, f);
                let x = rnd_div(cc * f, 65536);
                assert(cc * f == f * d) by (nonlinear_arith)
                    requires
                        cc == d,
                ;
                assert(x == r - g);
                assert(g as int == mn);
                assert(spec_hsv_to_rgb(c) == (Rgb { r, g, b }));
            }
        }
    }
}

/// Convert an RGB color to fixed-point HSV.
pub fn rgb_to_hsv(r: u8, g: u8, b: u8) -> (c: Hsv)
    ensures
        c == spec_rgb_to_hsv(r, g, b),
        hsv_wf(c),
{
    let mx: u8 = if r >= g && r >= b {
        r
    } else if g >= b {
        g
    } else {
        b
    };
    let mn: u8 = if r <= g && r <= b {
        r
    } else if g <= b {
        g
    } else {
        b
    };
    let d: u64 = (mx - mn) as u64;
    let s: u32 = if mx == 0 {
        0
    } else {
        proof {
            lemma_ratio16_le(d as int, mx as int);
        }
        rnd_div_u64(d * 65536, mx as u64) as u32
    };
    let h: u32 = if d == 0 {
        0
    } else {
        let num: u64 = if mx == r {
            g as u64 + 6 * d - b as u64
        } else if mx == g {
            b as u64 + 2 * d - r as u64
        } else {
            r as u64 + 4 * d - g as u64
        };
        let rem: u64 = num % d;
        proof {
            lemma_mod_bound(num as int, d as int);
            lemma_ratio16_le(rem as int, d as int);
        }
        let frac16: u64 = rnd_div_u64(rem * 65536, d);
        ((num / d) % 6) as u32 * 65536 + frac16 as u32
    };
    Hsv { h, s, v: mx }
}

/// Convert a fixed-point HSV color back to RGB.
pub fn hsv_to_rgb(c: Hsv) -> (out: Rgb)
    requires
        hsv_wf(c),
    ensures
        out == spec_hsv_to_rgb(c),
{
    let sector: u32 = c.h / 65536;
    let frac: u64 = (c.h % 65536) as u64;
    proof {
        assert(rnd_div(c.v as int * c.s as int, 65536) <= c.v as int) by (nonlinear_arith)
            requires
                c.s <= 65536,
                0 <= c.v <= 255,
        ;
        assert(rnd_div(c.v as int * c.s as int, 65536) >= 0) by (nonlinear_arith)
            requires
                c.s >= 0,
                c.v >= 0,
        ;
        assert(c.v as int * c.s as int <= 255 * 65536) by (nonlinear_arith)
            requires
                c.s <= 65536,
                c.v <= 255,
        ;
    }
    let cc: u64 = rnd_div_u64(c.v as u64 * c.s as u64, 65536);
    let m: u64 = c.v as u64 - cc;
    proof {
        assert(cc as int * frac as int <= 255 * 65536 && cc as int * (65536 - frac as int) <= 255
            * 65536) by (nonlinear_arith)
            requires
                0 <= frac <= 65536,
                0 <= cc <= 255,
        ;
        if sector % 2 == 0 {
            assert(0 <= rnd_div(cc as int * frac as int, 65536) <= cc as int) by (nonlinear_arith)
                requires
                    0 <= frac <= 65536,
                    0 <= cc <= 255,
            ;
        } else {
            assert(0 <= rnd_div(cc as int * (65536 - frac as int), 65536)
                <= cc as int) by (nonlinear_arith)
                requires
                    0 <= frac <= 65536,
                    0 <= cc <= 255,
            ;
        }
    }
    let x: u64 = if sector % 2 == 0 {
        rnd_div_u64(cc * frac, 65536)
    } else {
        rnd_div_u64(cc * (65536 - frac), 65536)
    };
    if sector == 0 {
        Rgb { r: (cc + m) as u8, g: (x + m) as u8, b: m as u8 }
    } else if sector == 1 {
        Rgb { r: (x + m) as u8, g: (cc + m) as u8, b: m as u8 }
    } else if sector == 2 {
        Rgb { r: m as u8, g: (cc + m) as u8, b: (x + m) as u8 }
    } else if sector == 3 {
        Rgb { r: m as u8, g: (x + m) as u8, b: (cc + m) as u8 }
    } else if sector == 4 {
        Rgb { r: (x + m) as u8, g: m as u8, b: (cc + m) as u8 }
    } else {
        Rgb { r: (cc + m) as u8, g: m as u8, b: (x + m) as u8 }
    }
}

} // verus!
