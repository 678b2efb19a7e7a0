//! Fixed-point geometry: lengths in millimetres, angles in whole degrees,
//! trigonometric ratios scaled by `TRIG_SCALE`.
use vstd::prelude::*;

verus! {

/// Denominator of every trigonometric ratio (`sin 90° == TRIG_SCALE`).
pub const TRIG_SCALE: i64 = 10000;

/// Sine of `d` degrees for `0 <= d <= 90`, scaled by `TRIG_SCALE` and rounded.
pub open spec fn quarter_sine(d: u32) -> int {
    match d {
        0 => 0, 1 => 175, 2 => 349, 3 => 523, 4 => 698, 5 => 872,
        6 => 1045, 7 => 1219, 8 => 1392, 9 => 1564, 10 => 1736, 11 => 1908,
        12 => 2079, 13 => 2250, 14 => 2419, 15 => 2588, 16 => 2756, 17 => 2924,
        18 => 3090, 19 => 3256, 20 => 3420, 21 => 3584, 22 => 3746, 23 => 3907,
        24 => 4067, 25 => 4226, 26 => 4384, 27 => 4540, 28 => 4695, 29 => 4848,
        30 => 5000, 31 => 5150, 32 => 5299, 33 => 5446, 34 => 5592, 35 => 5736,
        36 => 5878, 37 => 6018, 38 => 6157, 39 => 6293, 40 => 6428, 41 => 6561,
        42 => 6691, 43 => 6820, 44 => 6947, 45 => 7071, 46 => 7193, 47 => 7314,
        48 => 7431, 49 => 7547, 50 => 7660, 51 => 7771, 52 => 7880, 53 => 7986,
        54 => 8090, 55 => 8192, 56 => 8290, 57 => 8387, 58 => 8480, 59 => 8572,
        60 => 8660, 61 => 8746, 62 => 8829, 63 => 8910, 64 => 8988, 65 => 9063,
        66 => 9135, 67 => 9205, 68 => 9272, 69 => 9336, 70 => 9397, 71 => 9455,
        72 => 9511, 73 => 9563, 74 => 9613, 75 => 9659, 76 => 9703, 77 => 9744,
        78 => 9781, 79 => 9816, 80 => 9848, 81 => 9877, 82 => 9903, 83 => 9925,
        84 => 9945, 85 => 9962, 86 => 9976, 87 => 9986, 88 => 9994, 89 => 9998,
        _ => 10000,
    }
}

/// Sine of an angle of `d` degrees (any integer), scaled by `TRIG_SCALE`.
pub open spec fn sine(d: int) -> int {
    let a = d % 360;
    if a <= 90 {
        quarter_sine(a as u32)
    } else if a <= 180 {
        quarter_sine((180 - a) as u32)
    } else if a <= 270 {
        -quarter_sine((a - 180) as u32)
    } else {
        -quarter_sine((360 - a) as u32)
    }
}

/// Cosine of an angle of `d` degrees, scaled by `TRIG_SCALE`.
pub open spec fn cosine(d: int) -> int {
    sine(d + 90)
}

/// `a / b` rounded toward zero, for `b > 0`.
pub open spec fn trunc_div(a: int, b: int) -> int {
    if a >= 0 {
        a / b
    } else {
        -((-a) / b)
    }
}

/// `a` multiplied by the ratio `c / TRIG_SCALE`, rounded toward zero.
pub open spec fn scaled(a: int, c: int) -> int {
    trunc_div(a * c, TRIG_SCALE as int)
}

/// Normalises any angle in degrees to `0..360`.
pub open spec fn normal_degrees(d: int) -> int {
    d % 360
}

/// The quarter-turn table, one arm per whole degree.
fn quarter_sine_exec(d: u32) -> (r: i64)
    requires
        d <= 90,
    ensures
        r == quarter_sine(d),
        0 <= r <= TRIG_SCALE,
{
    match d {
        0 => 0, 1 => 175, 2 => 349, 3 => 523, 4 => 698, 5 => 872,
        6 => 1045, 7 => 1219, 8 => 1392, 9 => 1564, 10 => 1736, 11 => 1908,
        12 => 2079, 13 => 2250, 14 => 2419, 15 => 2588, 16 => 2756, 17 => 2924,
        18 => 3090, 19 => 3256, 20 => 3420, 21 => 3584, 22 => 3746, 23 => 3907,
        24 => 4067, 25 => 4226, 26 => 4384, 27 => 4540, 28 => 4695, 29 => 4848,
        30 => 5000, 31 => 5150, 32 => 5299, 33 => 5446, 34 => 5592, 35 => 5736,
        36 => 5878, 37 => 6018, 38 => 6157, 39 => 6293, 40 => 6428, 41 => 6561,
        42 => 6691, 43 => 6820, 44 => 6947, 45 => 7071, 46 => 7193, 47 => 7314,
        48 => 7431, 49 => 7547, 50 => 7660, 51 => 7771, 52 => 7880, 53 => 7986,
        54 => 8090, 55 => 8192, 56 => 8290, 57 => 8387, 58 => 8480, 59 => 8572,
        60 => 8660, 61 => 8746, 62 => 8829, 63 => 8910, 64 => 8988, 65 => 9063,
        66 => 9135, 67 => 9205, 68 => 9272, 69 => 9336, 70 => 9397, 71 => 9455,
        72 => 9511, 73 => 9563, 74 => 9613, 75 => 9659, 76 => 9703, 77 => 9744,
        78 => 9781, 79 => 9816, 80 => 9848, 81 => 9877, 82 => 9903, 83 => 9925,
        84 => 9945, 85 => 9962, 86 => 9976, 87 => 9986, 88 => 9994, 89 => 9998,
        _ => 10000,
    }
}

/// Sine of `d` degrees, scaled by `TRIG_SCALE`.
pub fn sin_deg(d: u32) -> (r: i64)
    ensures
        r == sine(d as int),
        -TRIG_SCALE <= r <= TRIG_SCALE,
{
    let a = d % 360;
    if a <= 90 {
        quarter_sine_exec(a)
    } else if a <= 180 {
        quarter_sine_exec(180 - a)
    } else if a <= 270 {
        -quarter_sine_exec(a - 180)
    } else {
        -quarter_sine_exec(360 - a)
    }
}

/// Cosine of `d` degrees, scaled by `TRIG_SCALE`.
pub fn cos_deg(d: u32) -> (r: i64)
    ensures
        r == cosine(d as int),
        -TRIG_SCALE <= r <= TRIG_SCALE,
{
    let a = d % 360;
    proof {
        assert((d as int + 90) % 360 == (a as int + 90) % 360);
    }
    sin_deg(a + 90)
}

/// `a * c / TRIG_SCALE`, rounded toward zero.
pub fn scale(a: i64, c: i64) -> (r: i64)
    requires
        -1_000_000_000_000 <= a <= 1_000_000_000_000,
        -TRIG_SCALE <= c <= TRIG_SCALE,
    ensures
        r == scaled(a as int, c as int),
        -1_000_000_000_000 <= r <= 1_000_000_000_000,
{
    proof {
        assert(-10_000_000_000_000_000 <= a as int * c as int <= 10_000_000_000_000_000) by (nonlinear_arith)
            requires
                -1_000_000_000_000 <= a <= 1_000_000_000_000,
                -10000 <= c <= 10000,
        ;
    }
    let p: i128 = (a as i128) * (c as i128);
    if p >= 0 {
        let q: i128 = p / (TRIG_SCALE as i128);
        q as i64
    } else {
        let q: i128 = (-p) / (TRIG_SCALE as i128);
        -(q as i64)
    }
}

/// Largest `r` with `r * r <= n`.
pub fn isqrt(n: u64) -> (r: u64)
    ensures
        r * r <= n < (r + 1) * (r + 1),
{
    let mut lo: u128 = 0;
    let mut hi: u128 = 0x1_0000_0000;
    proof {
        assert(hi * hi == 0x1_0000_0000_0000_0000);
    }
    while lo + 1 < hi
        invariant
            lo < hi <= 0x1_0000_0000,
            lo * lo <= n,
            n < hi * hi,
        decreases hi - lo,
    {
        let mid: u128 = lo + (hi - lo) / 2;
        proof {
            assert(mid * mid <= 0x1_0000_0000_0000_0000) by (nonlinear_arith)
                requires
                    mid <= 0x1_0000_0000,
            ;
        }
        if mid * mid <= n as u128 {
            lo = mid;
        } else {
            hi = mid;
        }
    }
    lo as u64
}

} // verus!

verus! {

/// Squared planar distance between two points.
pub open spec fn dist_sq(ax: int, ay: int, bx: int, by: int) -> int {
    (ax - bx) * (ax - bx) + (ay - by) * (ay - by)
}

/// Squared planar distance between two points within two thousand kilometres of the origin.
pub fn distance_sq(ax: i64, ay: i64, bx: i64, by: i64) -> (r: i128)
    requires
        -2_000_000_000 <= ax <= 2_000_000_000,
        -2_000_000_000 <= ay <= 2_000_000_000,
        -2_000_000_000 <= bx <= 2_000_000_000,
        -2_000_000_000 <= by <= 2_000_000_000,
    ensures
        r == dist_sq(ax as int, ay as int, bx as int, by as int),
        r >= 0,
{
    let dx: i128 = ax as i128 - bx as i128;
    let dy: i128 = ay as i128 - by as i128;
    proof {
        assert(0 <= dx * dx <= 16_000_000_000_000_000_000) by (nonlinear_arith)
            requires -4_000_000_000 <= dx <= 4_000_000_000;
        assert(0 <= dy * dy <= 16_000_000_000_000_000_000) by (nonlinear_arith)
            requires -4_000_000_000 <= dy <= 4_000_000_000;
    }
    dx * dx + dy * dy
}

} // verus!

verus! {

/// `v * num / den` rounded toward zero, for small values.
pub fn fraction(v: i64, num: i64, den: i64) -> (r: i64)
    requires
        -1_000_000_000_000 <= v <= 1_000_000_000_000,
        0 <= num <= den,
        0 < den <= 1000,
    ensures
        r == trunc_div(v * num, den as int),
        v >= 0 ==> 0 <= r <= v,
        v < 0 ==> v <= r <= 0,
{
    proof {
        if v >= 0 {
            assert(0 <= v * num <= v * den) by (nonlinear_arith)
                requires v >= 0, 0 <= num <= den;
            assert((v * num) / (den as int) <= (v * den) / (den as int)) by (nonlinear_arith)
                requires 0 <= v * num <= v * den, den > 0;
            assert((v * den) / (den as int) == v) by (nonlinear_arith)
                requires den > 0;
        } else {
            assert(0 <= (-v) * num <= (-v) * den) by (nonlinear_arith)
                requires v < 0, 0 <= num <= den;
            assert(((-v) * num) / (den as int) <= ((-v) * den) / (den as int)) by (nonlinear_arith)
                requires 0 <= (-v) * num <= (-v) * den, den > 0;
            assert(((-v) * den) / (den as int) == -v) by (nonlinear_arith)
                requires den > 0;
            assert(-(v * num) == (-v) * num) by (nonlinear_arith);
        }
        assert(-1_000_000_000_000_000 <= v * num <= 1_000_000_000_000_000) by (nonlinear_arith)
            requires -1_000_000_000_000 <= v <= 1_000_000_000_000, 0 <= num <= 1000;
    }
    let p = v * num;
    if p >= 0 {
        p / den
    } else {
        -((-p) / den)
    }
}

/// `v` clamped to `lo..=hi` (to `lo` first when the range is empty).
pub open spec fn clamp_between(v: int, lo: int, hi: int) -> int {
    if v < lo {
        lo
    } else if v > hi {
        hi
    } else {
        v
    }
}

pub fn clamp_to(v: i64, lo: i64, hi: i64) -> (r: i64)
    ensures
        r == clamp_between(v as int, lo as int, hi as int),
{
    if v < lo {
        lo
    } else if v > hi {
        hi
    } else {
        v
    }
}

} // verus!
