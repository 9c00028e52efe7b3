//! Candidate placements and their geometry, in integer fixed point.
//!
//! Lengths and trigonometric values are scaled by `FX` (2^16). Angles are
//! radians scaled by `FX`; the sine is the classical rational one-parameter
//! approximation on a half turn, mirrored to the full turn, so rotation is an
//! exact integer function of the angle.
use crate::atlas::{spec_logical_h, spec_logical_w, Frame};
use crate::color::div_floor_i64;
use vstd::arithmetic::div_mod::{
    lemma_div_is_ordered, lemma_div_multiples_vanish, lemma_div_pos_is_pos,
};
use vstd::prelude::*;

verus! {

/// Fixed-point one for geometry.
pub const FX: i64 = 65536;

/// Pi scaled by `FX`.
pub const PI_FX: i64 = 205887;

/// A full turn scaled by `FX`.
pub const TWO_PI_FX: i64 = 411774;

/// A quarter turn scaled by `FX` (rounded up so that twice it is `PI_FX + 1`;
/// the sine tables the offset exactly).
pub const HALF_PI_FX: i64 = 102944;

/// Largest candidate coordinate magnitude.
pub const COORD_MAX: i64 = 1048576;

/// Largest candidate scale (1024 in `FX` units).
pub const SCALE_MAX_FX: i64 = 67108864;

/// The rational sine approximation on `0 ..= PI_FX`:
/// `16 x (pi - x) / (5 pi^2 - 4 x (pi - x))`, scaled by `FX`.
pub open spec fn spec_sin_half(x: int) -> int {
    let p = x * (PI_FX - x);
    16 * p * (FX as int) / (5 * PI_FX * PI_FX - 4 * p)
}

/// Sine over one full turn `0 ..= TWO_PI_FX`.
pub open spec fn spec_sin_turn(x: int) -> int {
    if x <= PI_FX {
        spec_sin_half(x)
    } else {
        -spec_sin_half(x - PI_FX)
    }
}

/// An arbitrary angle reduced to `0 .. TWO_PI_FX`.
pub open spec fn spec_angle_norm(a: int) -> int {
    a % (TWO_PI_FX as int)
}

/// Sine of an `FX`-scaled angle, `FX`-scaled.
pub open spec fn spec_sin(a: int) -> int {
    spec_sin_turn(spec_angle_norm(a))
}

/// Cosine of an `FX`-scaled angle, `FX`-scaled.
pub open spec fn spec_cos(a: int) -> int {
    spec_sin(a + HALF_PI_FX)
}

/// The half-turn sine is within `0 ..= FX`.
pub proof fn lemma_sin_half_bounds(x: int)
    requires
        0 <= x <= PI_FX,
    ensures
        0 <= spec_sin_half(x) <= FX,
{
    let p = x * (PI_FX - x);
    let den = 5 * PI_FX * PI_FX - 4 * p;
    assert(0 <= p && 4 * p <= PI_FX * PI_FX) by (nonlinear_arith)
        requires
            0 <= x <= PI_FX,
            p == x * (PI_FX - x),
    ;
    assert(den >= 4 * PI_FX * PI_FX > 0) by (nonlinear_arith)
        requires
            4 * p <= PI_FX * PI_FX,
            den == 5 * PI_FX * PI_FX - 4 * p,
    ;
    lemma_div_pos_is_pos(16 * p * (FX as int), den);
    assert(16 * p * (FX as int) <= den * (FX as int)) by (nonlinear_arith)
        requires
            0 <= p,
            den == 5 * PI_FX * PI_FX - 4 * p,
            4 * p <= PI_FX * PI_FX,
    ;
    lemma_div_is_ordered(16 * p * (FX as int), den * (FX as int), den);
    lemma_div_multiples_vanish(FX as int, den);
}

/// The full-turn sine is within `-FX ..= FX`.
pub proof fn lemma_sin_turn_bounds(x: int)
    requires
        0 <= x < TWO_PI_FX,
    ensures
        -FX <= spec_sin_turn(x) <= FX,
{
    if x <= PI_FX {
        lemma_sin_half_bounds(x);
    } else {
        lemma_sin_half_bounds(x - PI_FX);
    }
}

/// Sine bound for every angle.
pub proof fn lemma_sin_bounds(a: int)
    ensures
        -FX <= spec_sin(a) <= FX,
{
    vstd::arithmetic::div_mod::lemma_mod_bound(a, TWO_PI_FX as int);
    lemma_sin_turn_bounds(spec_angle_norm(a));
}

/// Cosine bound for every angle.
pub proof fn lemma_cos_bounds(a: int)
    ensures
        -FX <= spec_cos(a) <= FX,
{
    lemma_sin_bounds(a + HALF_PI_FX);
}

/// Floor modulus of a bounded signed value by a positive divisor.
pub fn mod_floor_i64(a: i64, b: i64) -> (r: i64)
    requires
        0 < b,
        -0x2000000000000000 < a < 0x2000000000000000,
        b < 0x2000000000000000,
    ensures
        r == a as int % b as int,
        0 <= r < b,
{
    proof {
        vstd::arithmetic::div_mod::lemma_fundamental_div_mod(a as int, b as int);
        vstd::arithmetic::div_mod::lemma_mod_bound(a as int, b as int);
    }
    let q = div_floor_i64(a, b);
    proof {
        vstd::arithmetic::mul::lemma_mul_is_commutative(q as int, b as int);
    }
    a - q * b
}

/// Sine of an `FX`-scaled angle, exactly `spec_sin`.
pub fn sin_fx(a: i64) -> (r: i64)
    requires
        -0x4000000000000 < a < 0x4000000000000,
    ensures
        r == spec_sin(a as int),
        -FX <= r <= FX,
{
    let x = mod_floor_i64(a, TWO_PI_FX);
    let r = if x <= PI_FX {
        sin_half(x)
    } else {
        -sin_half(x - PI_FX)
    };
    proof {
        lemma_sin_bounds(a as int);
    }
    r
}

/// Cosine of an `FX`-scaled angle, exactly `spec_cos`.
pub fn cos_fx(a: i64) -> (r: i64)
    requires
        -0x1000000000000 < a < 0x1000000000000,
    ensures
        r == spec_cos(a as int),
        -FX <= r <= FX,
{
    sin_fx(a + HALF_PI_FX)
}

fn sin_half(x: i64) -> (r: i64)
    requires
        0 <= x <= PI_FX,
    ensures
        r == spec_sin_half(x as int),
        0 <= r <= FX,
{
    proof {
        lemma_sin_half_bounds(x as int);
        assert(0 <= x as int * (PI_FX - x as int) <= PI_FX * PI_FX) by (nonlinear_arith)
            requires
                0 <= x <= PI_FX,
        ;
    }
    let p = x * (PI_FX - x);
    let num = 16 * p * FX;
    let den = 5 * PI_FX * PI_FX - 4 * p;
    proof {
        assert(4 * (x as int * (PI_FX - x as int)) <= PI_FX * PI_FX) by (nonlinear_arith)
            requires
                0 <= x <= PI_FX,
        ;
    }
    ((num as u64) / (den as u64)) as i64
}

/// One candidate placement: a sprite index, a canvas position, a uniform
/// scale and a rotation, the last two in `FX` fixed point.
#[derive(Clone, Copy, Debug, PartialEq, Eq, Structural)]
pub struct Shape {
    pub img_index: usize,
    pub x: i64,
    pub y: i64,
    pub scale: i64,
    pub rot: i64,
}

/// The candidate's numeric fields are within the model's budget: position
/// within the coordinate range, scale positive and bounded, rotation reduced
/// to one turn.
pub open spec fn shape_bounded(s: Shape) -> bool {
    &&& -COORD_MAX <= s.x <= COORD_MAX
    &&& -COORD_MAX <= s.y <= COORD_MAX
    &&& 1 <= s.scale <= SCALE_MAX_FX
    &&& 0 <= s.rot < TWO_PI_FX
}

/// A candidate is valid for a library of `n_sprites` sprites.
pub open spec fn shape_ok(s: Shape, n_sprites: int) -> bool {
    &&& s.img_index < n_sprites
    &&& shape_bounded(s)
}

/// The sprite-local column sampled by canvas pixel `(px, py)`: the pixel
/// offset is rotated back, divided by the scale and recentered on a sprite
/// of logical width `lw`.
pub open spec fn spec_local_u(s: Shape, px: int, py: int, lw: int) -> int {
    let c = spec_cos(s.rot as int);
    let sn = spec_sin(s.rot as int);
    ((px - s.x) * c + (py - s.y) * sn) / (s.scale as int) + lw / 2
}

/// The sprite-local row sampled by canvas pixel `(px, py)`.
pub open spec fn spec_local_v(s: Shape, px: int, py: int, lh: int) -> int {
    let c = spec_cos(s.rot as int);
    let sn = spec_sin(s.rot as int);
    ((py - s.y) * c - (px - s.x) * sn) / (s.scale as int) + lh / 2
}

/// Sprite-local coordinates of a canvas pixel under the inverse of the
/// candidate's scale-rotate-translate transform.
pub fn local_uv(s: &Shape, px: i64, py: i64, lw: i64, lh: i64) -> (uv: (i64, i64))
    requires
        shape_bounded(*s),
        -COORD_MAX <= px <= COORD_MAX,
        -COORD_MAX <= py <= COORD_MAX,
        0 <= lw <= 8192,
        0 <= lh <= 8192,
    ensures
        uv.0 == spec_local_u(*s, px as int, py as int, lw as int),
        uv.1 == spec_local_v(*s, px as int, py as int, lh as int),
{
    let c = cos_fx(s.rot);
    let sn = sin_fx(s.rot);
    let dx = px - s.x;
    let dy = py - s.y;
    proof {
        lemma_mul_abs_bound(dx as int, c as int, 0x200000, FX as int);
        lemma_mul_abs_bound(dy as int, sn as int, 0x200000, FX as int);
        lemma_mul_abs_bound(dx as int, sn as int, 0x200000, FX as int);
        lemma_mul_abs_bound(dy as int, c as int, 0x200000, FX as int);
        lemma_div_magnitude(dx as int * c as int + dy as int * sn as int, s.scale as int);
        lemma_div_magnitude(dy as int * c as int - dx as int * sn as int, s.scale as int);
    }
    let u = div_floor_i64(dx * c + dy * sn, s.scale) + ((lw as u64 / 2) as i64);
    let v = div_floor_i64(dy * c - dx * sn, s.scale) + ((lh as u64 / 2) as i64);
    (u, v)
}

/// `|a| <= ab` and `|b| <= bb` bound the product by `ab * bb`.
proof fn lemma_mul_abs_bound(a: int, b: int, ab: int, bb: int)
    requires
        -ab <= a <= ab,
        -bb <= b <= bb,
        0 <= ab,
        0 <= bb,
    ensures
        -(ab * bb) <= a * b <= ab * bb,
{
    assert(-(ab * bb) <= a * b <= ab * bb) by (nonlinear_arith)
        requires
            -ab <= a <= ab,
            -bb <= b <= bb,
            0 <= ab,
            0 <= bb,
    ;
}

/// Floor division by a positive divisor keeps the magnitude bounded.
proof fn lemma_div_magnitude(a: int, d: int)
    requires
        0 < d,
    ensures
        a >= 0 ==> 0 <= a / d <= a,
        a < 0 ==> a <= a / d <= 0,
{
    if a >= 0 {
        lemma_div_pos_is_pos(a, d);
        vstd::arithmetic::div_mod::lemma_div_nonincreasing(a, d);
    } else {
        vstd::arithmetic::div_mod::lemma_fundamental_div_mod(a, d);
        vstd::arithmetic::div_mod::lemma_mod_bound(a, d);
        let q = a / d;
        let r = a % d;
        if q > 0 {
            assert(false) by (nonlinear_arith)
                requires
                    d >= 1,
                    q >= 1,
                    a < 0,
                    a == d * q + r,
                    0 <= r < d,
            ;
        }
        if q < a {
            assert(false) by (nonlinear_arith)
                requires
                    d >= 1,
                    q <= a - 1,
                    a < 0,
                    a == d * q + r,
                    0 <= r < d,
            ;
        }
    }
}

/// A quad corner: position in `FX` canvas units, atlas texture coordinates
/// and target-image coordinates as `FX` fractions.
#[derive(Clone, Copy, Debug, PartialEq, Eq, Structural)]
pub struct QuadVertex {
    pub x: i64,
    pub y: i64,
    pub u: i64,
    pub v: i64,
    pub tx: i64,
    pub ty: i64,
}

/// The four corners of a candidate's screen quad, in the order top-left,
/// bottom-left, bottom-right, top-right of the sprite's logical rectangle.
#[derive(Clone, Copy, Debug, PartialEq, Eq, Structural)]
pub struct Quad {
    pub tl: QuadVertex,
    pub bl: QuadVertex,
    pub br: QuadVertex,
    pub tr: QuadVertex,
}

/// The x position of the corner with sign pair `(sx, sy)`: the sprite's
/// half-extents are scaled, rotated and translated to the candidate position.
pub open spec fn spec_corner_x(s: Shape, lw: int, lh: int, sx: int, sy: int) -> int {
    let cx = sx * (lw * s.scale / 2);
    let cy = sy * (lh * s.scale / 2);
    s.x * FX + (cx * spec_cos(s.rot as int) - cy * spec_sin(s.rot as int)) / (FX as int)
}

/// The y position of the corner with sign pair `(sx, sy)`.
pub open spec fn spec_corner_y(s: Shape, lw: int, lh: int, sx: int, sy: int) -> int {
    let cx = sx * (lw * s.scale / 2);
    let cy = sy * (lh * s.scale / 2);
    s.y * FX + (cx * spec_sin(s.rot as int) + cy * spec_cos(s.rot as int)) / (FX as int)
}

/// An atlas texel coordinate as an `FX` fraction of the sheet side.
pub open spec fn spec_uv_frac(c: int, sheet: int) -> int {
    c * FX / sheet
}

fn corner(s: &Shape, lw: i64, lh: i64, sx: i64, sy: i64) -> (p: (i64, i64))
    requires
        shape_bounded(*s),
        0 <= lw <= 8192,
        0 <= lh <= 8192,
        sx == -1 || sx == 1,
        sy == -1 || sy == 1,
    ensures
        p.0 == spec_corner_x(*s, lw as int, lh as int, sx as int, sy as int),
        p.1 == spec_corner_y(*s, lw as int, lh as int, sx as int, sy as int),
        -0x10000000000 <= p.0 <= 0x10000000000,
        -0x10000000000 <= p.1 <= 0x10000000000,
{
    let c = cos_fx(s.rot);
    let sn = sin_fx(s.rot);
    proof {
        assert(0 <= lw * s.scale <= 0x8000000000) by (nonlinear_arith)
            requires
                0 <= lw <= 8192,
                1 <= s.scale <= SCALE_MAX_FX,
        ;
        assert(0 <= lh * s.scale <= 0x8000000000) by (nonlinear_arith)
            requires
                0 <= lh <= 8192,
                1 <= s.scale <= SCALE_MAX_FX,
        ;
    }
    let hw = (lw * s.scale) / 2;
    let hh = (lh * s.scale) / 2;
    proof {
        lemma_div_is_ordered(0, lw as int * s.scale as int, 2);
        lemma_div_is_ordered(lw as int * s.scale as int, 0x8000000000, 2);
        lemma_div_is_ordered(0, lh as int * s.scale as int, 2);
        lemma_div_is_ordered(lh as int * s.scale as int, 0x8000000000, 2);
    }
    let cx = sx * hw;
    let cy = sy * hh;
    proof {
        lemma_mul_abs_bound(cx as int, c as int, 0x4000000000, FX as int);
        lemma_mul_abs_bound(cy as int, sn as int, 0x4000000000, FX as int);
        lemma_mul_abs_bound(cx as int, sn as int, 0x4000000000, FX as int);
        lemma_mul_abs_bound(cy as int, c as int, 0x4000000000, FX as int);
        lemma_div_magnitude(cx as int * c as int - cy as int * sn as int, FX as int);
        lemma_div_magnitude(cx as int * sn as int + cy as int * c as int, FX as int);
    }
    let px = s.x * FX + div_floor_i64(cx * c - cy * sn, FX);
    let py = s.y * FX + div_floor_i64(cx * sn + cy * c, FX);
    (px, py)
}

/// Build the screen-space and texture-space geometry of one candidate:
/// the four corners of its scaled, rotated, translated quad; the atlas
/// texture coordinates of the sprite's packed rectangle, cycled a quarter
/// turn when the sprite was packed rotated (the same inverse of the
/// packer's clockwise turn that the texel sampler applies, so sampling
/// through these coordinates agrees with `sprite_texel`); and each corner
/// normalized by the canvas size for sampling the target at the same
/// footprint.
pub fn build_quad(
    s: &Shape,
    fr: &Frame,
    sheet_w: usize,
    sheet_h: usize,
    canvas_w: usize,
    canvas_h: usize,
) -> (q: Quad)
    requires
        shape_bounded(*s),
        1 <= fr.w <= 4096,
        1 <= fr.h <= 4096,
        fr.x + fr.w <= sheet_w,
        fr.y + fr.h <= sheet_h,
        1 <= sheet_w <= 4096,
        1 <= sheet_h <= 4096,
        1 <= canvas_w <= 4096,
        1 <= canvas_h <= 4096,
    ensures
        q == spec_build_quad(
            *s,
            *fr,
            sheet_w as int,
            sheet_h as int,
            canvas_w as int,
            canvas_h as int,
        ),
{
    let lw = if fr.rotated {
        fr.h as i64
    } else {
        fr.w as i64
    };
    let lh = if fr.rotated {
        fr.w as i64
    } else {
        fr.h as i64
    };
    let p0 = corner(s, lw, lh, -1, -1);
    let p1 = corner(s, lw, lh, -1, 1);
    let p2 = corner(s, lw, lh, 1, 1);
    let p3 = corner(s, lw, lh, 1, -1);
    // Packed-rectangle corners; a rotated frame cycles them a quarter turn
    // counterclockwise, undoing the packer's clockwise turn.
    let (u_tl, u_bl, u_br, u_tr) = if fr.rotated {
        (
            (fr.x as i64 + fr.w as i64, fr.y as i64),
            (fr.x as i64, fr.y as i64),
            (fr.x as i64, fr.y as i64 + fr.h as i64),
            (fr.x as i64 + fr.w as i64, fr.y as i64 + fr.h as i64),
        )
    } else {
        (
            (fr.x as i64, fr.y as i64),
            (fr.x as i64, fr.y as i64 + fr.h as i64),
            (fr.x as i64 + fr.w as i64, fr.y as i64 + fr.h as i64),
            (fr.x as i64 + fr.w as i64, fr.y as i64),
        )
    };
    let tl = finish_vertex(p0, u_tl, sheet_w, sheet_h, canvas_w, canvas_h);
    let bl = finish_vertex(p1, u_bl, sheet_w, sheet_h, canvas_w, canvas_h);
    let br = finish_vertex(p2, u_br, sheet_w, sheet_h, canvas_w, canvas_h);
    let tr = finish_vertex(p3, u_tr, sheet_w, sheet_h, canvas_w, canvas_h);
    Quad { tl, bl, br, tr }
}

/// The quad `build_quad` returns.
pub open spec fn spec_build_quad(
    s: Shape,
    fr: Frame,
    sheet_w: int,
    sheet_h: int,
    canvas_w: int,
    canvas_h: int,
) -> Quad {
    let lw = spec_logical_w(fr);
    let lh = spec_logical_h(fr);
    let uv_tl = if fr.rotated {
        (fr.x + fr.w, fr.y as int)
    } else {
        (fr.x as int, fr.y as int)
    };
    let uv_bl = if fr.rotated {
        (fr.x as int, fr.y as int)
    } else {
        (fr.x as int, fr.y + fr.h)
    };
    let uv_br = if fr.rotated {
        (fr.x as int, fr.y + fr.h)
    } else {
        (fr.x + fr.w, fr.y + fr.h)
    };
    let uv_tr = if fr.rotated {
        (fr.x + fr.w, fr.y + fr.h)
    } else {
        (fr.x + fr.w, fr.y as int)
    };
    Quad {
        tl: spec_vertex(s, lw, lh, -1, -1, uv_tl, sheet_w, sheet_h, canvas_w, canvas_h),
        bl: spec_vertex(s, lw, lh, -1, 1, uv_bl, sheet_w, sheet_h, canvas_w, canvas_h),
        br: spec_vertex(s, lw, lh, 1, 1, uv_br, sheet_w, sheet_h, canvas_w, canvas_h),
        tr: spec_vertex(s, lw, lh, 1, -1, uv_tr, sheet_w, sheet_h, canvas_w, canvas_h),
    }
}

/// One finished corner of the quad.
pub open spec fn spec_vertex(
    s: Shape,
    lw: int,
    lh: int,
    sx: int,
    sy: int,
    uv: (int, int),
    sheet_w: int,
    sheet_h: int,
    canvas_w: int,
    canvas_h: int,
) -> QuadVertex {
    let x = spec_corner_x(s, lw, lh, sx, sy);
    let y = spec_corner_y(s, lw, lh, sx, sy);
    QuadVertex {
        x: x as i64,
        y: y as i64,
        u: spec_uv_frac(uv.0, sheet_w) as i64,
        v: spec_uv_frac(uv.1, sheet_h) as i64,
        tx: (x / canvas_w) as i64,
        ty: (y / canvas_h) as i64,
    }
}

fn finish_vertex(
    p: (i64, i64),
    uv: (i64, i64),
    sheet_w: usize,
    sheet_h: usize,
    canvas_w: usize,
    canvas_h: usize,
) -> (r: QuadVertex)
    requires
        -0x10000000000 <= p.0 <= 0x10000000000,
        -0x10000000000 <= p.1 <= 0x10000000000,
        0 <= uv.0 <= 8192,
        0 <= uv.1 <= 8192,
        1 <= sheet_w <= 4096,
        1 <= sheet_h <= 4096,
        1 <= canvas_w <= 4096,
        1 <= canvas_h <= 4096,
    ensures
        r.x == p.0,
        r.y == p.1,
        r.u as int == spec_uv_frac(uv.0 as int, sheet_w as int),
        r.v as int == spec_uv_frac(uv.1 as int, sheet_h as int),
        r.tx as int == p.0 as int / canvas_w as int,
        r.ty as int == p.1 as int / canvas_h as int,
{
    proof {
        lemma_div_pos_is_pos(uv.0 as int * FX, sheet_w as int);
        lemma_div_is_ordered(uv.0 as int * FX, 0x20000000, sheet_w as int);
        lemma_div_pos_is_pos(uv.1 as int * FX, sheet_h as int);
        lemma_div_is_ordered(uv.1 as int * FX, 0x20000000, sheet_h as int);
        lemma_div_magnitude(p.0 as int, canvas_w as int);
        lemma_div_magnitude(p.1 as int, canvas_h as int);
    }
    QuadVertex {
        x: p.0,
        y: p.1,
        u: ((uv.0 as u64 * FX as u64) / sheet_w as u64) as i64,
        v: ((uv.1 as u64 * FX as u64) / sheet_h as u64) as i64,
        tx: div_floor_i64(p.0, canvas_w as i64),
        ty: div_floor_i64(p.1, canvas_h as i64),
    }
}

} // verus!
