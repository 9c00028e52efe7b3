//! Color utilities in integer fixed point.
//!
//! A color channel in [0, 1] is represented as an integer in `0 ..= CFP`
//! (`CFP` = 2^20). The standard piecewise sRGB transfer function is computed
//! exactly in this scale: the 2.4-power of the decoding direction is an
//! integer fifth root of a sixth power, and the encoding direction is the
//! exact monotone inverse of the decoding direction, found by binary search.
use vstd::arithmetic::div_mod::{
    lemma_div_is_ordered, lemma_div_multiples_vanish, lemma_div_pos_is_pos,
};
use vstd::prelude::*;

verus! {

/// Fixed-point one for color channels.
pub const CFP: u64 = 1048576;

pub open spec fn pow5(r: int) -> int {
    r * r * r * r * r
}

pub open spec fn pow6(t: int) -> int {
    t * t * t * t * t * t
}

/// `r` is the integer fifth root of `x`.
pub open spec fn is_fifth_root(x: int, r: int) -> bool {
    0 <= r && pow5(r) <= x && x < pow5(r + 1)
}

/// The integer fifth root of a non-negative `x`.
pub open spec fn fifth_root(x: int) -> int {
    choose|r: int| is_fifth_root(x, r)
}

/// The piecewise sRGB decoding (sRGB to linear) over `0 ..= CFP`:
/// below the linear cutoff the value is divided by 12.92 (= 323/25);
/// above it the value is `((s + 0.055) / 1.055) ^ 2.4`, computed as the
/// squared fifth root of the sixth power.
pub open spec fn spec_srgb_to_linear(s: int) -> int {
    if 20000 * s <= 848297984 {
        25 * s / 323
    } else {
        let t = (200 * s + 11534336) / 211;
        let r = fifth_root(pow6(t));
        r * r / 268435456
    }
}

proof fn lemma_pow5_le(a: int, b: int)
    requires
        0 <= a <= b,
    ensures
        pow5(a) <= pow5(b),
{
    assert(a * a * a * a * a <= b * b * b * b * b) by (nonlinear_arith)
        requires
            0 <= a <= b,
    ;
}

proof fn lemma_pow5_lt(a: int, b: int)
    requires
        0 <= a < b,
    ensures
        pow5(a) < pow5(b),
{
    assert(a * a * a * a * a < b * b * b * b * b) by (nonlinear_arith)
        requires
            0 <= a < b,
    ;
}

proof fn lemma_pow6_le(a: int, b: int)
    requires
        0 <= a <= b,
    ensures
        pow6(a) <= pow6(b),
{
    assert(a * a * a * a * a * a <= b * b * b * b * b * b) by (nonlinear_arith)
        requires
            0 <= a <= b,
    ;
}

proof fn lemma_pow6_nonneg(a: int)
    requires
        0 <= a,
    ensures
        0 <= pow6(a),
{
    lemma_pow6_le(0, a);
}

/// A fifth root is unique, so a witness pins `fifth_root`.
proof fn lemma_fifth_root_is(x: int, r: int)
    requires
        is_fifth_root(x, r),
    ensures
        fifth_root(x) == r,
{
    assert(is_fifth_root(x, fifth_root(x))) by {
        assert(exists|w: int| is_fifth_root(x, w));
    }
    let r2 = fifth_root(x);
    if r2 < r {
        lemma_pow5_le(r2 + 1, r);
        assert(false);
    } else if r < r2 {
        lemma_pow5_le(r + 1, r2);
        assert(false);
    }
}

proof fn lemma_fifth_root_monotone(x: int, y: int, rx: int, ry: int)
    requires
        is_fifth_root(x, rx),
        is_fifth_root(y, ry),
        x <= y,
    ensures
        rx <= ry,
{
    if ry < rx {
        lemma_pow5_le(ry + 1, rx);
        assert(false);
    }
}

/// Every non-negative integer has a fifth root.
proof fn lemma_fifth_root_exists(x: int)
    requires
        0 <= x,
    ensures
        is_fifth_root(x, fifth_root(x)),
    decreases x,
{
    if x == 0 {
        assert(is_fifth_root(0, 0));
        lemma_fifth_root_is(0, 0);
    } else {
        lemma_fifth_root_exists(x - 1);
        let r = fifth_root(x - 1);
        if x < pow5(r + 1) {
            assert(is_fifth_root(x, r));
            lemma_fifth_root_is(x, r);
        } else {
            assert(x == pow5(r + 1));
            lemma_pow5_lt(r + 1, r + 2);
            assert(is_fifth_root(x, r + 1));
            lemma_fifth_root_is(x, r + 1);
        }
    }
}

/// Exact fifth power of a bounded value.
fn pow5_u128(m: u64) -> (r: u128)
    requires
        m <= 0x2000000,
    ensures
        r == pow5(m as int),
{
    let m1 = m as u128;
    proof {
        assert(m1 * m1 <= 0x4000000000000) by (nonlinear_arith)
            requires
                m1 <= 0x2000000,
        ;
    }
    let m2 = m1 * m1;
    proof {
        assert(m2 * m2 <= 0x10000000000000000000000000) by (nonlinear_arith)
            requires
                m2 <= 0x4000000000000,
        ;
    }
    let m4 = m2 * m2;
    proof {
        assert(m4 * m1 <= 0x20000000000000000000000000000000) by (nonlinear_arith)
            requires
                m4 <= 0x10000000000000000000000000,
                m1 <= 0x2000000,
        ;
    }
    let m5 = m4 * m1;
    proof {
        assert(m5 == m1 * m1 * m1 * m1 * m1) by (nonlinear_arith)
            requires
                m2 == m1 * m1,
                m4 == m2 * m2,
                m5 == m4 * m1,
        ;
    }
    m5
}

/// Exact sixth power of a bounded value.
fn pow6_u128(t: u64) -> (r: u128)
    requires
        t <= 0x100000,
    ensures
        r == pow6(t as int),
{
    let t1 = t as u128;
    proof {
        assert(t1 * t1 <= 0x10000000000) by (nonlinear_arith)
            requires
                t1 <= 0x100000,
        ;
    }
    let t2 = t1 * t1;
    proof {
        assert(t2 * t2 <= 0x100000000000000000000) by (nonlinear_arith)
            requires
                t2 <= 0x10000000000,
        ;
    }
    let t4 = t2 * t2;
    proof {
        assert(t4 * t2 <= 0x1000000000000000000000000000000) by (nonlinear_arith)
            requires
                t4 <= 0x100000000000000000000,
                t2 <= 0x10000000000,
        ;
    }
    let t6 = t4 * t2;
    proof {
        assert(t6 == t1 * t1 * t1 * t1 * t1 * t1) by (nonlinear_arith)
            requires
                t2 == t1 * t1,
                t4 == t2 * t2,
                t6 == t4 * t2,
        ;
    }
    t6
}

/// Integer fifth root by binary search.
fn fifth_root_u128(x: u128) -> (r: u64)
    requires
        x < pow5(0x2000000),
    ensures
        r as int == fifth_root(x as int),
        is_fifth_root(x as int, r as int),
        r < 0x2000000,
{
    let mut lo: u64 = 0;
    let mut hi: u64 = 0x2000000;
    while lo + 1 < hi
        invariant
            lo < hi <= 0x2000000,
            pow5(lo as int) <= x as int,
            (x as int) < pow5(hi as int),
        decreases hi - lo,
    {
        let mid = lo + (hi - lo) / 2;
        let p = pow5_u128(mid);
        if p <= x {
            lo = mid;
        } else {
            hi = mid;
        }
    }
    proof {
        assert(hi == lo + 1);
        lemma_fifth_root_is(x as int, lo as int);
    }
    lo
}

/// sRGB to linear, exact in `CFP` fixed point.
pub fn srgb_to_linear(s: u32) -> (r: u32)
    requires
        s <= CFP,
    ensures
        r as int == spec_srgb_to_linear(s as int),
        r <= CFP,
{
    let s64 = s as u64;
    if s64 * 20000 <= 848297984 {
        proof {
            lemma_div_is_ordered(25 * s64 as int, 25 * 1048576int, 323);
        }
        ((s64 * 25) / 323) as u32
    } else {
        let t = (200 * s64 + 11534336) / 211;
        proof {
            lemma_div_pos_is_pos(200 * s64 as int + 11534336, 211);
            lemma_div_is_ordered(200 * s64 as int + 11534336, 211 * 1048576int, 211);
            lemma_div_multiples_vanish(1048576, 211);
        }
        let x = pow6_u128(t);
        proof {
            lemma_pow6_le(t as int, 1048576);
            assert(pow6(1048576) < pow5(0x2000000));
            lemma_pow6_nonneg(t as int);
        }
        let r5 = fifth_root_u128(x);
        proof {
            assert(pow6(1048576) == pow5(0x1000000));
            if r5 > 0x1000000 {
                lemma_pow5_le(0x1000000int + 1, r5 as int);
                lemma_pow5_lt(0x1000000int, 0x1000000int + 1);
                assert(false);
            }
            assert(r5 * r5 <= 0x1000000000000) by (nonlinear_arith)
                requires
                    0 <= r5 <= 0x1000000,
            ;
            lemma_div_is_ordered((r5 * r5) as int, 0x1000000000000, 268435456);
        }
        let prod: u64 = r5 * r5;
        (prod / 268435456) as u32
    }
}

/// sRGB decoding is monotone over `0 ..= CFP`.
pub proof fn lemma_srgb_to_linear_monotone(a: int, b: int)
    requires
        0 <= a <= b <= CFP,
    ensures
        spec_srgb_to_linear(a) <= spec_srgb_to_linear(b),
{
    if 20000 * b <= 848297984 {
        lemma_div_is_ordered(25 * a, 25 * b, 323);
    } else if 20000 * a > 848297984 {
        lemma_pow_branch_monotone(a, b);
    } else {
        lemma_div_is_ordered(25 * a, 25 * 42414int, 323);
        assert(25 * 42414 / 323 == 3282);
        lemma_lin_at_boundary();
        lemma_pow_at_boundary();
        lemma_pow_branch_monotone(42415, b);
    }
}

proof fn lemma_lin_at_boundary()
    ensures
        spec_srgb_to_linear(42414) == 3282,
{
    assert(20000 * 42414 <= 848297984);
    assert(25 * 42414 / 323 == 3282);
}

proof fn lemma_pow_at_boundary()
    ensures
        spec_srgb_to_linear(42415) == 3282,
{
    assert(20000 * 42415 > 848297984);
    assert((200 * 42415 + 11534336) / 211 == 94868);
    assert(pow5(938736) <= pow6(94868) && pow6(94868) < pow5(938737));
    lemma_fifth_root_is(pow6(94868), 938736);
    assert(938736 * 938736 / 268435456 == 3282);
}

/// Monotone within the power branch.
proof fn lemma_pow_branch_monotone(a: int, b: int)
    requires
        0 <= a <= b <= CFP,
        20000 * a > 848297984,
        20000 * b > 848297984,
    ensures
        spec_srgb_to_linear(a) <= spec_srgb_to_linear(b),
{
    let ta = (200 * a + 11534336) / 211;
    let tb = (200 * b + 11534336) / 211;
    lemma_div_is_ordered(200 * a + 11534336, 200 * b + 11534336, 211);
    lemma_div_pos_is_pos(200 * a + 11534336, 211);
    lemma_pow6_le(ta, tb);
    lemma_pow6_nonneg(ta);
    lemma_fifth_root_exists(pow6(ta));
    lemma_fifth_root_exists(pow6(tb));
    let ra = fifth_root(pow6(ta));
    let rb = fifth_root(pow6(tb));
    lemma_fifth_root_monotone(pow6(ta), pow6(tb), ra, rb);
    assert(ra * ra <= rb * rb) by (nonlinear_arith)
        requires
            0 <= ra <= rb,
    ;
    lemma_div_is_ordered(ra * ra, rb * rb, 268435456);
}

/// `r` is the exact sRGB encoding of the linear value `l`: the largest
/// sRGB step whose decoding does not exceed `l`.
pub open spec fn l2s_ok(l: int, r: int) -> bool {
    0 <= r <= CFP && spec_srgb_to_linear(r) <= l && (r == CFP || l < spec_srgb_to_linear(r + 1))
}

/// The linear-to-sRGB encoding: the monotone inverse of `spec_srgb_to_linear`.
pub open spec fn spec_linear_to_srgb(l: int) -> int {
    choose|r: int| l2s_ok(l, r)
}

/// The inverse characterization pins a single value.
pub proof fn lemma_l2s_unique(l: int, r: int)
    requires
        l2s_ok(l, r),
    ensures
        spec_linear_to_srgb(l) == r,
{
    assert(l2s_ok(l, spec_linear_to_srgb(l))) by {
        assert(exists|w: int| l2s_ok(l, w));
    }
    let r2 = spec_linear_to_srgb(l);
    if r2 < r {
        lemma_srgb_to_linear_monotone(r2 + 1, r);
        assert(false);
    } else if r < r2 {
        lemma_srgb_to_linear_monotone(r + 1, r2);
        assert(false);
    }
}

/// Linear to sRGB: the exact monotone inverse of `srgb_to_linear`,
/// found by binary search.
pub fn linear_to_srgb(l: u32) -> (r: u32)
    requires
        l <= CFP,
    ensures
        r as int == spec_linear_to_srgb(l as int),
        l2s_ok(l as int, r as int),
        r <= CFP,
{
    let mut lo: u32 = 0;
    let mut hi: u32 = CFP as u32;
    proof {
        assert(spec_srgb_to_linear(0) == 0);
    }
    while lo < hi
        invariant
            lo <= hi <= CFP,
            spec_srgb_to_linear(lo as int) <= l as int,
            hi == CFP || (l as int) < spec_srgb_to_linear(hi as int + 1),
        decreases hi - lo,
    {
        let mid = lo + (hi - lo + 1) / 2;
        let v = srgb_to_linear(mid);
        if v <= l {
            lo = mid;
        } else {
            hi = mid - 1;
        }
    }
    proof {
        lemma_l2s_unique(l as int, lo as int);
    }
    lo
}

/// Round trip of the color transfer functions: encoding the decoding of an
/// sRGB value `x` gives back a value `r >= x` with exactly the same linear
/// image, so the pair of conversions loses no more than the quantization
/// plateau of the transfer curve.
pub proof fn lemma_srgb_round_trip(x: int, r: int)
    requires
        0 <= x <= CFP,
        l2s_ok(spec_srgb_to_linear(x), r),
    ensures
        x <= r,
        spec_srgb_to_linear(r) == spec_srgb_to_linear(x),
        r == spec_linear_to_srgb(spec_srgb_to_linear(x)),
{
    let l = spec_srgb_to_linear(x);
    if r < x {
        lemma_srgb_to_linear_monotone(r + 1, x);
        assert(false);
    }
    lemma_srgb_to_linear_monotone(x, r);
    lemma_l2s_unique(l, r);
}

/// The largest of three channels.
pub open spec fn max3(r: int, g: int, b: int) -> int {
    if r >= g && r >= b {
        r
    } else if g >= b {
        g
    } else {
        b
    }
}

/// The smallest of three channels.
pub open spec fn min3(r: int, g: int, b: int) -> int {
    if r <= g && r <= b {
        r
    } else if g <= b {
        g
    } else {
        b
    }
}

/// HSV value: the largest channel.
pub open spec fn spec_hsv_value(r: int, g: int, b: int) -> int {
    max3(r, g, b)
}

/// HSV saturation in `CFP` fixed point; zero for black.
pub open spec fn spec_hsv_saturation(r: int, g: int, b: int) -> int {
    let mx = max3(r, g, b);
    if mx == 0 {
        0
    } else {
        (mx - min3(r, g, b)) * (CFP as int) / mx
    }
}

/// Hue in whole degrees, `0` for achromatic input (no division by zero can
/// arise: the chroma is divided only when it is positive).
pub open spec fn spec_hsv_hue(r: int, g: int, b: int) -> int {
    let mx = max3(r, g, b);
    let mn = min3(r, g, b);
    if mx == mn {
        0
    } else {
        let d = mx - mn;
        if mx == r {
            (g - b) * 60 / d + if g < b {
                360int
            } else {
                0int
            }
        } else if mx == g {
            (b - r) * 60 / d + 120
        } else {
            (r - g) * 60 / d + 240
        }
    }
}

/// Floor division of a bounded signed value by a positive divisor, computed
/// on magnitudes so that the result matches mathematical division exactly.
pub fn div_floor_i64(a: i64, b: i64) -> (q: i64)
    requires
        0 < b,
        -0x4000000000000000 < a < 0x4000000000000000,
        b < 0x4000000000000000,
    ensures
        q == a as int / b as int,
{
    if a >= 0 {
        let q0 = (a as u64) / (b as u64);
        proof {
            lemma_div_pos_is_pos(a as int, b as int);
            vstd::arithmetic::div_mod::lemma_div_nonincreasing(a as int, b as int);
        }
        q0 as i64
    } else {
        let m = (-a) as u64;
        let q0 = m / (b as u64);
        let r0 = m % (b as u64);
        proof {
            vstd::arithmetic::div_mod::lemma_fundamental_div_mod(m as int, b as int);
            lemma_div_pos_is_pos(m as int, b as int);
            vstd::arithmetic::div_mod::lemma_div_nonincreasing(m as int, b as int);
        }
        if r0 == 0 {
            proof {
                assert(a as int == (-(q0 as int)) * (b as int) + 0) by (nonlinear_arith)
                    requires
                        m == q0 * b,
                        a == -(m as int),
                ;
                vstd::arithmetic::div_mod::lemma_fundamental_div_mod_converse_div(
                    a as int,
                    b as int,
                    -(q0 as int),
                    0,
                );
            }
            -(q0 as i64)
        } else {
            proof {
                assert(a as int == (-(q0 as int) - 1) * (b as int) + (b as int - r0 as int))
                    by (nonlinear_arith)
                    requires
                        m == q0 * b + r0,
                        a == -(m as int),
                ;
                vstd::arithmetic::div_mod::lemma_fundamental_div_mod_converse_div(
                    a as int,
                    b as int,
                    -(q0 as int) - 1,
                    b as int - r0 as int,
                );
            }
            -(q0 as i64) - 1
        }
    }
}

/// A negative value divided by a positive divisor is at most `-1`.
proof fn lemma_div_neg(x: int, d: int)
    requires
        x < 0,
        0 < d,
    ensures
        x / d <= -1,
{
    vstd::arithmetic::div_mod::lemma_fundamental_div_mod(x, d);
    vstd::arithmetic::div_mod::lemma_mod_bound(x, d);
    let q = x / d;
    if q >= 0 {
        assert(d * q >= 0) by (nonlinear_arith)
            requires
                d > 0,
                q >= 0,
        ;
        assert(false);
    }
}

/// RGB (in `CFP` fixed point) to HSV: hue in whole degrees, saturation and
/// value in `CFP` fixed point. Achromatic input has hue and saturation zero.
pub fn rgb_to_hsv(r: u32, g: u32, b: u32) -> (hsv: (i32, u32, u32))
    requires
        r <= CFP,
        g <= CFP,
        b <= CFP,
    ensures
        hsv.0 as int == spec_hsv_hue(r as int, g as int, b as int),
        hsv.1 as int == spec_hsv_saturation(r as int, g as int, b as int),
        hsv.2 as int == spec_hsv_value(r as int, g as int, b as int),
        0 <= hsv.0 <= 359,
        hsv.1 <= CFP,
        hsv.2 <= CFP,
{
    let mx = if r >= g && r >= b {
        r
    } else if g >= b {
        g
    } else {
        b
    };
    let mn = if r <= g && r <= b {
        r
    } else if g <= b {
        g
    } else {
        b
    };
    let v = mx;
    let s: u32 = if mx == 0 {
        0
    } else {
        proof {
            lemma_div_is_ordered((mx - mn) * (CFP as int), mx as int * (CFP as int), mx as int);
            lemma_div_multiples_vanish(CFP as int, mx as int);
        }
        (((mx as u64 - mn as u64) * CFP) / (mx as u64)) as u32
    };
    let h: i32 = if mx == mn {
        0
    } else {
        let d = (mx - mn) as i64;
        if mx == r {
            let q = div_floor_i64((g as i64 - b as i64) * 60, d);
            proof {
                lemma_div_is_ordered((g as int - b as int) * 60, 60 * d as int, d as int);
                lemma_div_is_ordered(-60 * d as int, (g as int - b as int) * 60, d as int);
                lemma_div_multiples_vanish(60, d as int);
                lemma_div_multiples_vanish(-60, d as int);
            }
            if g < b {
                proof {
                    lemma_div_neg((g as int - b as int) * 60, d as int);
                }
                (q + 360) as i32
            } else {
                proof {
                    lemma_div_pos_is_pos((g as int - b as int) * 60, d as int);
                }
                q as i32
            }
        } else if mx == g {
            let q = div_floor_i64((b as i64 - r as i64) * 60, d);
            proof {
                lemma_div_is_ordered((b as int - r as int) * 60, 60 * d as int, d as int);
                lemma_div_is_ordered(-60 * d as int, (b as int - r as int) * 60, d as int);
                lemma_div_multiples_vanish(60, d as int);
                lemma_div_multiples_vanish(-60, d as int);
            }
            (q + 120) as i32
        } else {
            let q = div_floor_i64((r as i64 - g as i64) * 60, d);
            proof {
                lemma_div_is_ordered((r as int - g as int) * 60, 60 * d as int, d as int);
                lemma_div_is_ordered(-60 * d as int, (r as int - g as int) * 60, d as int);
                lemma_div_multiples_vanish(60, d as int);
                lemma_div_multiples_vanish(-60, d as int);
            }
            (q + 240) as i32
        }
    };
    (h, s, v)
}

/// A byte channel scaled into `CFP` fixed point.
pub open spec fn spec_byte_to_fx(c: int) -> int {
    c * (CFP as int) / 255
}

/// A `CFP` fixed-point channel scaled down to a byte, rounding to the
/// nearest step so that scaling a byte up and back down is the identity.
pub open spec fn spec_fx_to_byte(l: int) -> int {
    (l * 255 + 524288) / (CFP as int)
}

pub fn byte_to_fx(c: u8) -> (r: u32)
    ensures
        r as int == spec_byte_to_fx(c as int),
        r <= CFP,
{
    proof {
        lemma_div_is_ordered(c as int * (CFP as int), 255 * (CFP as int), 255);
        lemma_div_multiples_vanish(CFP as int, 255);
    }
    ((c as u64 * CFP) / 255) as u32
}

pub fn fx_to_byte(l: u32) -> (r: u8)
    requires
        l <= CFP,
    ensures
        r as int == spec_fx_to_byte(l as int),
{
    proof {
        lemma_div_is_ordered(l as int * 255 + 524288, (CFP as int) * 255 + 524288, CFP as int);
        assert(((CFP as int) * 255 + 524288) / (CFP as int) == 255);
    }
    ((l as u64 * 255 + 524288) / CFP) as u8
}

/// A byte sRGB channel decoded to a byte linear channel.
pub open spec fn spec_linearize_byte(c: int) -> int {
    spec_fx_to_byte(spec_srgb_to_linear(spec_byte_to_fx(c)))
}

/// A byte linear channel encoded to a byte sRGB channel.
pub open spec fn spec_delinearize_byte(c: int) -> int {
    spec_fx_to_byte(spec_linear_to_srgb(spec_byte_to_fx(c)))
}

pub fn linearize_byte(c: u8) -> (r: u8)
    ensures
        r as int == spec_linearize_byte(c as int),
{
    fx_to_byte(srgb_to_linear(byte_to_fx(c)))
}

pub fn delinearize_byte(c: u8) -> (r: u8)
    ensures
        r as int == spec_delinearize_byte(c as int),
{
    fx_to_byte(linear_to_srgb(byte_to_fx(c)))
}

} // verus!
