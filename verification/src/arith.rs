//! Index arithmetic for row-major pixel buffers, and small integer helpers
//! (clamping, rounding division, integer square root) shared by the filters.

use vstd::prelude::*;

verus! {

/// Flat index of sample `c` of the pixel at column `x`, row `y` in a
/// row-major buffer `w` pixels wide with `ch` samples per pixel.
pub open spec fn pix_idx(w: int, ch: int, x: int, y: int, c: int) -> int {
    (y * w + x) * ch + c
}

pub proof fn lemma_pix_idx_bound(w: int, h: int, ch: int, x: int, y: int, c: int)
    requires
        0 <= x < w,
        0 <= y < h,
        0 <= c < ch,
    ensures
        0 <= y * w,
        y * w <= y * w + x,
        y * w + x <= (y * w + x) * ch,
        (y * w + x) * ch <= (y * w + x) * ch + c,
        0 <= pix_idx(w, ch, x, y, c),
        pix_idx(w, ch, x, y, c) < w * h * ch,
{
    assert(0 <= y * w && y * w + x <= (y * w + x) * ch && (y * w + x) * ch + c < w * h
        * ch) by (nonlinear_arith)
        requires
            0 <= x < w,
            0 <= y < h,
            0 <= c < ch,
    ;
}

pub proof fn lemma_pix_idx_bound_all(w: int, h: int, ch: int)
    ensures
        forall|x: int, y: int, c: int|
            0 <= x < w && 0 <= y < h && 0 <= c < ch ==> 0 <= #[trigger] pix_idx(w, ch, x, y, c)
                < w * h * ch,
{
    assert forall|x: int, y: int, c: int|
        0 <= x < w && 0 <= y < h && 0 <= c < ch implies 0 <= #[trigger] pix_idx(w, ch, x, y, c)
        < w * h * ch by {
        lemma_pix_idx_bound(w, h, ch, x, y, c);
    }
}

/// Indices grow with the lexicographic order of (row, column, sample).
pub proof fn lemma_pix_idx_lt(
    w: int,
    ch: int,
    x1: int,
    y1: int,
    c1: int,
    x2: int,
    y2: int,
    c2: int,
)
    requires
        0 <= x1 < w,
        0 <= x2 < w,
        0 <= c1 < ch,
        0 <= c2 < ch,
        0 <= y1,
        0 <= y2,
        y1 < y2 || (y1 == y2 && x1 < x2) || (y1 == y2 && x1 == x2 && c1 < c2),
    ensures
        0 <= pix_idx(w, ch, x1, y1, c1),
        pix_idx(w, ch, x1, y1, c1) < pix_idx(w, ch, x2, y2, c2),
{
    assert(0 <= (y1 * w + x1) * ch + c1) by (nonlinear_arith)
        requires
            0 <= x1,
            0 <= y1,
            0 <= c1,
            0 <= w,
            0 <= ch,
    ;
    assert((y1 * w + x1) * ch + c1 < (y2 * w + x2) * ch + c2) by (nonlinear_arith)
        requires
            0 <= x1 < w,
            0 <= x2 < w,
            0 <= c1 < ch,
            0 <= c2 < ch,
            0 <= y1,
            0 <= y2,
            y1 < y2 || (y1 == y2 && x1 < x2) || (y1 == y2 && x1 == x2 && c1 < c2),
    ;
}

/// Row-major pixel positions grow with the lexicographic order of
/// (row, column).
pub proof fn lemma_row_major_lt(w: int, x1: int, y1: int, x2: int, y2: int)
    requires
        0 <= x1 < w,
        0 <= x2 < w,
        0 <= y1,
        0 <= y2,
        y1 < y2 || (y1 == y2 && x1 < x2),
    ensures
        0 <= y1 * w + x1,
        y1 * w + x1 < y2 * w + x2,
{
    assert(0 <= y1 * w + x1 && y1 * w + x1 < y2 * w + x2) by (nonlinear_arith)
        requires
            0 <= x1 < w,
            0 <= x2 < w,
            0 <= y1,
            0 <= y2,
            y1 < y2 || (y1 == y2 && x1 < x2),
    ;
}

/// Clamp an integer to the 8-bit sample range.
pub open spec fn clamp255(v: int) -> u8 {
    if v < 0 {
        0u8
    } else if v > 255 {
        255u8
    } else {
        v as u8
    }
}

pub fn clamp_i64(v: i64) -> (r: u8)
    ensures
        r == clamp255(v as int),
{
    if v < 0 {
        0
    } else if v > 255 {
        255
    } else {
        v as u8
    }
}

pub fn clamp_i128(v: i128) -> (r: u8)
    ensures
        r == clamp255(v as int),
{
    if v < 0 {
        0
    } else if v > 255 {
        255
    } else {
        v as u8
    }
}

/// `a / b` rounded to the nearest integer, halves up; meaningful for `b > 0`.
pub open spec fn rnd_div(a: int, b: int) -> int {
    (2 * a + b) / (2 * b)
}

/// Rounding division on non-negative 64-bit values.
pub fn rnd_div_u64(a: u64, b: u64) -> (r: u64)
    requires
        b >= 1,
        b <= u64::MAX / 2,
        2 * a + b <= u64::MAX,
    ensures
        r == rnd_div(a as int, b as int),
{
    (2 * a + b) / (2 * b)
}

/// `p / q` rounded to the nearest integer, halves away from zero; `q > 0`.
/// This is the rounding used when a displacement may be negative.
pub open spec fn rnd_div_away(p: int, q: int) -> int {
    if p >= 0 {
        (2 * p + q) / (2 * q)
    } else {
        -((2 * (-p) + q) / (2 * q))
    }
}

pub fn rnd_div_away_i64(p: i64, q: i64) -> (r: i64)
    requires
        q >= 1,
        -(i64::MAX / 4) <= p <= i64::MAX / 4,
        q <= i64::MAX / 4,
    ensures
        r == rnd_div_away(p as int, q as int),
{
    if p >= 0 {
        (2 * p + q) / (2 * q)
    } else {
        -((2 * (-p) + q) / (2 * q))
    }
}

/// Pin down a quotient and remainder from one witness decomposition.
pub proof fn lemma_divmod_pin(num: int, d: int, q0: int, r0: int)
    requires
        d >= 1,
        num == q0 * d + r0,
        0 <= r0 < d,
    ensures
        num / d == q0,
        num % d == r0,
{
    vstd::arithmetic::div_mod::lemma_fundamental_div_mod(num, d);
    vstd::arithmetic::div_mod::lemma_mod_bound(num, d);
    let q = num / d;
    let rem = num % d;
    assert(q == q0 && rem == r0) by (nonlinear_arith)
        requires
            num == d * q + rem,
            0 <= rem < d,
            num == q0 * d + r0,
            0 <= r0 < d,
    ;
}

/// Flooring division on 128-bit values; the spec-level `/` on `int` floors
/// for a positive divisor, which is what every fixed-point formula here
/// means, so the executable division has to floor as well.
pub fn floor_div_i128(a: i128, b: i128) -> (q: i128)
    requires
        1 <= b,
        -(i128::MAX / 2) <= a,
    ensures
        q == a as int / b as int,
{
    if a >= 0 {
        let q = (a as u128) / (b as u128);
        q as i128
    } else {
        let n: u128 = (-a) as u128;
        let d: u128 = b as u128;
        let qq = n / d;
        let rr = n % d;
        proof {
            vstd::arithmetic::div_mod::lemma_fundamental_div_mod(n as int, d as int);
            vstd::arithmetic::div_mod::lemma_mod_bound(n as int, d as int);
        }
        if rr == 0 {
            proof {
                assert(a as int == (-(qq as int)) * (b as int) + 0) by (nonlinear_arith)
                    requires
                        n as int == d as int * qq as int,
                        a as int == -(n as int),
                        b as int == d as int,
                ;
                lemma_divmod_pin(a as int, b as int, -(qq as int), 0);
            }
            -(qq as i128)
        } else {
            proof {
                assert(n == d * qq + rr && 0 <= rr < d);
                assert(a as int == (-(qq as int) - 1) * (b as int) + (b - rr)) by (nonlinear_arith)
                    requires
                        n == d * qq + rr,
                        a as int == -(n as int),
                        b as int == d as int,
                ;
                lemma_divmod_pin(a as int, b as int, -(qq as int) - 1, b as int - rr as int);
            }
            -((qq + 1) as i128)
        }
    }
}

/// The non-negative remainder of `a` modulo `m`, matching the spec-level
/// `%`, which keeps the remainder in `[0, m)` for a positive modulus.
pub fn euclid_mod_i64(a: i64, m: i64) -> (r: i64)
    requires
        1 <= m,
        -(i64::MAX) <= a,
    ensures
        r == a as int % m as int,
        0 <= r < m,
{
    if a >= 0 {
        ((a as u64) % (m as u64)) as i64
    } else {
        let n: u64 = (-a) as u64;
        let d: u64 = m as u64;
        let k = n / d;
        let rr = n % d;
        proof {
            vstd::arithmetic::div_mod::lemma_fundamental_div_mod(n as int, d as int);
            vstd::arithmetic::div_mod::lemma_mod_bound(n as int, d as int);
        }
        if rr == 0 {
            proof {
                assert(a as int == (-(k as int)) * (m as int) + 0) by (nonlinear_arith)
                    requires
                        n as int == d as int * k as int,
                        a as int == -(n as int),
                        m as int == d as int,
                ;
                lemma_divmod_pin(a as int, m as int, -(k as int), 0);
            }
            0
        } else {
            proof {
                assert(a as int == (-(k as int) - 1) * (m as int) + (m as int
                    - rr as int)) by (nonlinear_arith)
                    requires
                        n as int == d as int * k as int + rr as int,
                        a as int == -(n as int),
                        m as int == d as int,
                ;
                lemma_divmod_pin(a as int, m as int, -(k as int) - 1, m as int - rr as int);
            }
            m - (rr as i64)
        }
    }
}

/// Rounding division on 128-bit values, halves away from zero.
pub fn rnd_div_away_i128(p: i128, q: i128) -> (r: i128)
    requires
        q >= 1,
        -(i128::MAX / 4) <= p <= i128::MAX / 4,
        q <= i128::MAX / 4,
    ensures
        r == rnd_div_away(p as int, q as int),
{
    if p >= 0 {
        let n = (2 * p + q) as u128;
        let d = (2 * q) as u128;
        (n / d) as i128
    } else {
        let n = (2 * (-p) + q) as u128;
        let d = (2 * q) as u128;
        -((n / d) as i128)
    }
}

/// Two distinct pixel positions never share a sample index.
pub proof fn lemma_pix_idx_ne(
    w: int,
    ch: int,
    x1: int,
    y1: int,
    c1: int,
    x2: int,
    y2: int,
    c2: int,
)
    requires
        0 <= x1 < w,
        0 <= x2 < w,
        0 <= c1 < ch,
        0 <= c2 < ch,
        0 <= y1,
        0 <= y2,
        !(x1 == x2 && y1 == y2),
    ensures
        pix_idx(w, ch, x1, y1, c1) != pix_idx(w, ch, x2, y2, c2),
{
    if y1 < y2 || (y1 == y2 && x1 < x2) {
        lemma_pix_idx_lt(w, ch, x1, y1, c1, x2, y2, c2);
    } else {
        lemma_pix_idx_lt(w, ch, x2, y2, c2, x1, y1, c1);
    }
}

/// The integer square root, by counting up.
pub open spec fn sqrt_floor(n: nat) -> nat
    decreases n,
{
    if n == 0 {
        0
    } else {
        let p = sqrt_floor((n - 1) as nat);
        if (p + 1) * (p + 1) <= n {
            p + 1
        } else {
            p
        }
    }
}

pub proof fn lemma_sqrt_floor(n: nat)
    ensures
        sqrt_floor(n) * sqrt_floor(n) <= n,
        n < (sqrt_floor(n) + 1) * (sqrt_floor(n) + 1),
    decreases n,
{
    if n > 0 {
        lemma_sqrt_floor((n - 1) as nat);
        let p = sqrt_floor((n - 1) as nat);
        let s = sqrt_floor(n);
        if (p + 1) * (p + 1) <= n {
            assert(s == p + 1);
            assert(n < (s + 1) * (s + 1)) by (nonlinear_arith)
                requires
                    n <= (p + 1) * (p + 1),
                    s == p + 1,
                    p >= 0,
            ;
        } else {
            assert(s == p);
        }
    } else {
        assert(sqrt_floor(n) == 0);
        assert(n < (sqrt_floor(n) + 1) * (sqrt_floor(n) + 1)) by (nonlinear_arith)
            requires
                n == 0,
                sqrt_floor(n) == 0,
        ;
    }
}

pub proof fn lemma_sqrt_floor_unique(n: nat, r: nat)
    requires
        r * r <= n,
        n < (r + 1) * (r + 1),
    ensures
        r == sqrt_floor(n),
{
    lemma_sqrt_floor(n);
    let s = sqrt_floor(n);
    if r < s {
        assert((r + 1) * (r + 1) <= s * s) by (nonlinear_arith)
            requires
                r < s,
        ;
    }
    if s < r {
        assert((s + 1) * (s + 1) <= r * r) by (nonlinear_arith)
            requires
                s < r,
        ;
    }
}

/// Integer square root of a value no larger than `255*255 + 255*255`,
/// which covers a per-channel gradient magnitude.
pub fn isqrt(n: u64) -> (r: u64)
    requires
        n <= 0x2_0000_0000,
    ensures
        r == sqrt_floor(n as nat),
{
    let mut lo: u64 = 0;
    let mut hi: u64 = 92682;
    proof {
        assert(92682 * 92682 > 0x2_0000_0000int) by (nonlinear_arith);
    }
    while lo + 1 < hi
        invariant
            n <= 0x2_0000_0000,
            lo * lo <= n,
            n < hi * hi,
            lo < hi,
            hi <= 92682,
        decreases hi - lo,
    {
        let mid = lo + (hi - lo) / 2;
        proof {
            assert(mid * mid < u64::MAX) by (nonlinear_arith)
                requires
                    mid <= 92682,
            ;
        }
        if mid * mid <= n {
            lo = mid;
        } else {
            hi = mid;
        }
    }
    proof {
        assert(hi * hi <= (lo + 1) * (lo + 1)) by (nonlinear_arith)
            requires
                hi <= lo + 1,
                hi >= 0,
                lo >= 0,
        ;
        lemma_sqrt_floor_unique(n as nat, lo as nat);
    }
    lo
}

} // verus!
