//! Batched fitness evaluation on the CPU: every candidate of a population is
//! scored independently against the same canvas and target, with one
//! accumulator record per candidate, exactly as the batched kernel would
//! score them in one submission.
//!
//! Pass A estimates the flat tint that best recolors the sprite to the
//! target region it covers: for every covered pixel the target color is
//! accumulated weighted by the sprite texel's alpha. Pass B accumulates the
//! signed change in squared error that pasting the candidate at that tint
//! would cause; a negative score means the paste would reduce the canvas's
//! error.
use crate::atlas::{spec_logical_h, spec_logical_w, spec_sprite_texel, sprite_texel, Atlas, Frame};
use crate::geom::{shape_ok, spec_local_u, spec_local_v, local_uv, Shape};
use crate::image::{spec_sq_err, Img, Rgba, SQ_ERR_MAX};
use vstd::arithmetic::div_mod::{
    lemma_div_is_ordered, lemma_div_multiples_vanish, lemma_div_pos_is_pos,
};
use vstd::arithmetic::mul::{lemma_mul_inequality, lemma_mul_is_commutative};
use vstd::prelude::*;

verus! {

/// Fixed-point one for the global paste opacity.
pub const OPQ_ONE: u32 = 256;

/// `255 * OPQ_ONE`: an effective alpha of one.
pub const EA_ONE: u64 = 65280;

/// Decompose a pixel index into its column and row.
pub proof fn lemma_pixel_index(i: int, w: int, h: int)
    requires
        0 <= i < w * h,
        1 <= w,
    ensures
        0 <= i % w < w,
        0 <= i / w < h,
        (i / w) * w + (i % w) == i,
{
    vstd::arithmetic::div_mod::lemma_mod_bound(i, w);
    lemma_div_pos_is_pos(i, w);
    vstd::arithmetic::div_mod::lemma_fundamental_div_mod(i, w);
    lemma_mul_is_commutative(i / w, w);
    if i / w >= h {
        assert(false) by (nonlinear_arith)
            requires
                i / w >= h,
                w * (i / w) + i % w == i,
                0 <= i % w,
                i < w * h,
                1 <= w,
        ;
    }
}

/// Per-candidate accumulators: alpha-weighted target color sums, the alpha
/// sample count, and the signed squared-error change of a paste.
#[derive(Clone, Copy, Debug, PartialEq, Eq, Structural)]
pub struct FitnessRecord {
    pub tint_r: u64,
    pub tint_g: u64,
    pub tint_b: u64,
    pub count: u64,
    pub diff: i64,
}

/// The per-candidate scores read back from one evaluation, one slot per
/// population index.
pub struct DiffBuffer {
    pub diff: Vec<i64>,
}

/// The candidate's footprint covers canvas pixel `(px, py)`: the inverse
/// transform lands inside the sprite's logical rectangle.
pub open spec fn spec_covered(s: Shape, fr: Frame, px: int, py: int) -> bool {
    let u = spec_local_u(s, px, py, spec_logical_w(fr));
    let v = spec_local_v(s, px, py, spec_logical_h(fr));
    0 <= u < spec_logical_w(fr) && 0 <= v < spec_logical_h(fr)
}

/// The sprite texel sampled at canvas pixel `(px, py)`.
pub open spec fn spec_texel_at(s: Shape, atlas: Atlas, fr: Frame, px: int, py: int) -> Rgba {
    spec_sprite_texel(
        atlas,
        fr,
        spec_local_u(s, px, py, spec_logical_w(fr)),
        spec_local_v(s, px, py, spec_logical_h(fr)),
    )
}

/// Pass A contribution of pixel index `i`: `(alpha * target.r, alpha *
/// target.g, alpha * target.b, alpha)` on covered pixels, zero elsewhere.
pub open spec fn spec_tint_at(s: Shape, atlas: Atlas, fr: Frame, target: Img, i: int) -> (
    int,
    int,
    int,
    int,
) {
    let px = i % (target.width as int);
    let py = i / (target.width as int);
    if spec_covered(s, fr, px, py) {
        let t = spec_texel_at(s, atlas, fr, px, py);
        let tp = target.pixels[i];
        (t.a * tp.r, t.a * tp.g, t.a * tp.b, t.a as int)
    } else {
        (0, 0, 0, 0)
    }
}

/// Pass A sums over the first `n` pixels.
pub open spec fn spec_tint_sum(s: Shape, atlas: Atlas, fr: Frame, target: Img, n: int) -> (
    int,
    int,
    int,
    int,
)
    decreases n,
{
    if n <= 0 {
        (0, 0, 0, 0)
    } else {
        let p = spec_tint_sum(s, atlas, fr, target, n - 1);
        let c = spec_tint_at(s, atlas, fr, target, n - 1);
        (p.0 + c.0, p.1 + c.1, p.2 + c.2, p.3 + c.3)
    }
}

/// A resolved tint channel: the alpha-weighted mean of the target channel,
/// zero when the footprint sampled no alpha at all.
pub open spec fn spec_resolve_channel(sum: int, count: int) -> int {
    if count <= 0 {
        0
    } else {
        sum / count
    }
}

/// The tint the candidate resolves to.
pub open spec fn spec_tint_of(s: Shape, atlas: Atlas, fr: Frame, target: Img) -> (int, int, int) {
    let acc = spec_tint_sum(s, atlas, fr, target, target.width * target.height);
    (
        spec_resolve_channel(acc.0, acc.3),
        spec_resolve_channel(acc.1, acc.3),
        spec_resolve_channel(acc.2, acc.3),
    )
}

/// One blended channel of a paste: the sprite channel recolored by the tint,
/// composited over the canvas at effective alpha `ea` (texel alpha times
/// global opacity, `EA_ONE` meaning fully opaque).
pub open spec fn spec_blend_channel(sp: int, tint: int, cv: int, ea: int) -> int {
    (sp * tint / 255 * ea + cv * (EA_ONE - ea)) / (EA_ONE as int)
}

/// The pixel a paste would write at a covered canvas pixel.
pub open spec fn spec_post_pixel(t: Rgba, tint: (int, int, int), cv: Rgba, q: int) -> Rgba {
    let ea = t.a * q;
    Rgba {
        r: spec_blend_channel(t.r as int, tint.0, cv.r as int, ea) as u8,
        g: spec_blend_channel(t.g as int, tint.1, cv.g as int, ea) as u8,
        b: spec_blend_channel(t.b as int, tint.2, cv.b as int, ea) as u8,
        a: cv.a,
    }
}

/// Pass B contribution of pixel index `i`: the post-paste squared error
/// minus the current squared error on covered pixels, zero elsewhere.
pub open spec fn spec_diff_at(
    s: Shape,
    atlas: Atlas,
    fr: Frame,
    target: Img,
    cpix: Seq<Rgba>,
    tint: (int, int, int),
    q: int,
    i: int,
) -> int {
    let px = i % (target.width as int);
    let py = i / (target.width as int);
    if spec_covered(s, fr, px, py) {
        let t = spec_texel_at(s, atlas, fr, px, py);
        let tp = target.pixels[i];
        let cv = cpix[i];
        spec_sq_err(spec_post_pixel(t, tint, cv, q), tp) - spec_sq_err(cv, tp)
    } else {
        0
    }
}

/// Pass B sum over the first `n` pixels.
pub open spec fn spec_diff_sum(
    s: Shape,
    atlas: Atlas,
    fr: Frame,
    target: Img,
    cpix: Seq<Rgba>,
    tint: (int, int, int),
    q: int,
    n: int,
) -> int
    decreases n,
{
    if n <= 0 {
        0
    } else {
        spec_diff_sum(s, atlas, fr, target, cpix, tint, q, n - 1) + spec_diff_at(
            s,
            atlas,
            fr,
            target,
            cpix,
            tint,
            q,
            n - 1,
        )
    }
}

/// The record one candidate evaluates to.
#[verifier::opaque]
pub open spec fn spec_eval_one(s: Shape, atlas: Atlas, target: Img, cpix: Seq<Rgba>, q: int)
    -> FitnessRecord {
    let fr = atlas.frames[s.img_index as int];
    let n = target.width * target.height;
    let acc = spec_tint_sum(s, atlas, fr, target, n as int);
    let tint = spec_tint_of(s, atlas, fr, target);
    FitnessRecord {
        tint_r: acc.0 as u64,
        tint_g: acc.1 as u64,
        tint_b: acc.2 as u64,
        count: acc.3 as u64,
        diff: spec_diff_sum(s, atlas, fr, target, cpix, tint, q, n as int) as i64,
    }
}

/// Pass A sums are non-negative, grow at most `65025` per pixel, and each
/// channel sum is at most `255` times the count.
pub proof fn lemma_tint_sum_bounds(s: Shape, atlas: Atlas, fr: Frame, target: Img, n: int)
    requires
        0 <= n,
    ensures
        ({
            let acc = spec_tint_sum(s, atlas, fr, target, n);
            &&& 0 <= acc.0 <= 255 * acc.3
            &&& 0 <= acc.1 <= 255 * acc.3
            &&& 0 <= acc.2 <= 255 * acc.3
            &&& 0 <= acc.3 <= n * 255
        }),
    decreases n,
{
    if n == 0 {
    } else {
        lemma_tint_sum_bounds(s, atlas, fr, target, n - 1);
        let c = spec_tint_at(s, atlas, fr, target, n - 1);
        let px = (n - 1) % (target.width as int);
        let py = (n - 1) / (target.width as int);
        if spec_covered(s, fr, px, py) {
            let t = spec_texel_at(s, atlas, fr, px, py);
            let tp = target.pixels[n - 1];
            assert(0 <= t.a * tp.r <= 255 * (t.a as int)) by (nonlinear_arith)
                requires
                    0 <= t.a <= 255,
                    0 <= tp.r <= 255,
            ;
            assert(0 <= t.a * tp.g <= 255 * (t.a as int)) by (nonlinear_arith)
                requires
                    0 <= t.a <= 255,
                    0 <= tp.g <= 255,
            ;
            assert(0 <= t.a * tp.b <= 255 * (t.a as int)) by (nonlinear_arith)
                requires
                    0 <= t.a <= 255,
                    0 <= tp.b <= 255,
            ;
        }
        assert((n - 1) * 255 + 255 == n * 255) by (nonlinear_arith);
    }
}

/// Pass B sums stay within `SQ_ERR_MAX` per pixel.
pub proof fn lemma_diff_sum_bounds(
    s: Shape,
    atlas: Atlas,
    fr: Frame,
    target: Img,
    cpix: Seq<Rgba>,
    tint: (int, int, int),
    q: int,
    n: int,
)
    requires
        0 <= n,
    ensures
        -(n * SQ_ERR_MAX) <= spec_diff_sum(s, atlas, fr, target, cpix, tint, q, n) <= n
            * SQ_ERR_MAX,
    decreases n,
{
    if n == 0 {
    } else {
        lemma_diff_sum_bounds(s, atlas, fr, target, cpix, tint, q, n - 1);
        let px = (n - 1) % (target.width as int);
        let py = (n - 1) / (target.width as int);
        if spec_covered(s, fr, px, py) {
            let t = spec_texel_at(s, atlas, fr, px, py);
            let tp = target.pixels[n - 1];
            let cv = cpix[n - 1];
            crate::image::lemma_sq_err_bounds(spec_post_pixel(t, tint, cv, q), tp);
            crate::image::lemma_sq_err_bounds(cv, tp);
        }
        assert((n - 1) * SQ_ERR_MAX + SQ_ERR_MAX == n * SQ_ERR_MAX) by (nonlinear_arith);
    }
}

/// A resolved tint channel, with its mean bound.
pub fn resolve_channel(sum: u64, count: u64) -> (r: u64)
    requires
        sum <= 255 * count,
    ensures
        r == spec_resolve_channel(sum as int, count as int),
        r <= 255,
{
    if count == 0 {
        0
    } else {
        proof {
            lemma_div_is_ordered(sum as int, 255 * count as int, count as int);
            lemma_mul_is_commutative(255, count as int);
            lemma_div_multiples_vanish(255, count as int);
            lemma_div_pos_is_pos(sum as int, count as int);
        }
        sum / count
    }
}

/// One blended channel of a paste.
pub fn blend_channel(sp: u8, tint: u64, cv: u8, ea: u64) -> (r: u8)
    requires
        tint <= 255,
        ea <= EA_ONE,
    ensures
        r as int == spec_blend_channel(sp as int, tint as int, cv as int, ea as int),
        r <= 255,
{
    proof {
        assert(0 <= sp as int * tint as int <= 65025) by (nonlinear_arith)
            requires
                sp <= 255,
                tint <= 255,
        ;
        lemma_div_pos_is_pos(sp as int * tint as int, 255);
        lemma_div_is_ordered(sp as int * tint as int, 65025, 255);
    }
    let tinted = (sp as u64 * tint) / 255;
    proof {
        lemma_mul_inequality(tinted as int, 255, ea as int);
        lemma_mul_inequality(cv as int, 255, EA_ONE as int - ea as int);
        assert(0 <= tinted as int * ea as int) by (nonlinear_arith)
            requires
                0 <= tinted,
                0 <= ea,
        ;
        assert(0 <= cv as int * (EA_ONE as int - ea as int)) by (nonlinear_arith)
            requires
                0 <= cv,
                ea <= EA_ONE,
        ;
        lemma_div_pos_is_pos(
            tinted as int * ea as int + cv as int * (EA_ONE as int - ea as int),
            EA_ONE as int,
        );
        lemma_div_is_ordered(
            tinted as int * ea as int + cv as int * (EA_ONE as int - ea as int),
            16646400,
            EA_ONE as int,
        );
    }
    let num = tinted * ea + (cv as u64) * (EA_ONE - ea);
    (num / EA_ONE) as u8
}

/// Evaluate one candidate against the canvas and target: pass A accumulates
/// the tint estimate over the candidate's footprint, pass B the signed
/// squared-error change of pasting it at that tint under global opacity
/// `opacity` (`OPQ_ONE` meaning fully opaque). The canvas is only read.
pub fn evaluate_one(s: &Shape, atlas: &Atlas, target: &Img, canvas: &Img, opacity: u32) -> (rec:
    FitnessRecord)
    requires
        atlas.wf(),
        target.wf(),
        canvas.wf(),
        canvas.width == target.width,
        canvas.height == target.height,
        shape_ok(*s, atlas.frames.len() as int),
        opacity <= OPQ_ONE,
    ensures
        rec == spec_eval_one(*s, *atlas, *target, canvas.pixels@, opacity as int),
{
    let fr = atlas.frames[s.img_index];
    let ghost g_fr = atlas.frames[s.img_index as int];
    let w = target.width;
    let h = target.height;
    proof {
        assert(w * h <= 0x1000000) by (nonlinear_arith)
            requires
                w <= 4096,
                h <= 4096,
        ;
    }
    let n = w * h;
    let lw = if fr.rotated {
        fr.h as i64
    } else {
        fr.w as i64
    };
    let lh = if fr.rotated {
        fr.w as i64
    } else {
        fr.h as i64
    };
    let mut tr: u64 = 0;
    let mut tg: u64 = 0;
    let mut tb: u64 = 0;
    let mut count: u64 = 0;
    let mut i: usize = 0;
    while i < n
        invariant
            i <= n,
            n == w * h,
            n <= 0x1000000,
            w == target.width,
            h == target.height,
            target.wf(),
            atlas.wf(),
            shape_ok(*s, atlas.frames.len() as int),
            g_fr == atlas.frames[s.img_index as int],
            lw as int == spec_logical_w(g_fr),
            lh as int == spec_logical_h(g_fr),
            (tr as int, tg as int, tb as int, count as int) == spec_tint_sum(
                *s,
                *atlas,
                g_fr,
                *target,
                i as int,
            ),
            tr <= 255 * count,
            tg <= 255 * count,
            tb <= 255 * count,
            count <= i * 255,
        decreases n - i,
    {
        let px = i % w;
        let py = i / w;
        proof {
            lemma_pixel_index(i as int, w as int, h as int);
        }
        let uv = local_uv(s, px as i64, py as i64, lw, lh);
        if 0 <= uv.0 && uv.0 < lw && 0 <= uv.1 && uv.1 < lh {
            let t = sprite_texel(atlas, s.img_index, uv.0, uv.1);
            proof {
                crate::image::lemma_rc_index(px as int, py as int, w as int, h as int);
                let tp = target.pixels[i as int];
                assert(0 <= t.a * tp.r <= 255 * (t.a as int)) by (nonlinear_arith)
                    requires
                        0 <= t.a <= 255,
                        0 <= tp.r <= 255,
                ;
                assert(0 <= t.a * tp.g <= 255 * (t.a as int)) by (nonlinear_arith)
                    requires
                        0 <= t.a <= 255,
                        0 <= tp.g <= 255,
                ;
                assert(0 <= t.a * tp.b <= 255 * (t.a as int)) by (nonlinear_arith)
                    requires
                        0 <= t.a <= 255,
                        0 <= tp.b <= 255,
                ;
                assert(i as int * 255 + 255 == (i + 1) as int * 255) by (nonlinear_arith);
                lemma_mul_inequality(i as int + 1, 0x1000000, 255);
            }
            let tp = target.get(px, py);
            tr = tr + (t.a as u64) * (tp.r as u64);
            tg = tg + (t.a as u64) * (tp.g as u64);
            tb = tb + (t.a as u64) * (tp.b as u64);
            count = count + (t.a as u64);
        } else {
            proof {
                assert(i as int * 255 + 255 == (i + 1) as int * 255) by (nonlinear_arith);
                lemma_mul_inequality(i as int + 1, 0x1000000, 255);
            }
        }
        i = i + 1;
    }
    let tint_r = resolve_channel(tr, count);
    let tint_g = resolve_channel(tg, count);
    let tint_b = resolve_channel(tb, count);
    let ghost g_tint = spec_tint_of(*s, *atlas, g_fr, *target);
    proof {
        assert(g_tint == (tint_r as int, tint_g as int, tint_b as int));
    }
    proof {
        reveal(spec_eval_one);
    }
    let mut diff: i64 = 0;
    let mut i: usize = 0;
    while i < n
        invariant
            i <= n,
            n == w * h,
            n <= 0x1000000,
            w == target.width,
            h == target.height,
            target.wf(),
            canvas.wf(),
            canvas.width == target.width,
            canvas.height == target.height,
            atlas.wf(),
            shape_ok(*s, atlas.frames.len() as int),
            g_fr == atlas.frames[s.img_index as int],
            lw as int == spec_logical_w(g_fr),
            lh as int == spec_logical_h(g_fr),
            tint_r <= 255,
            tint_g <= 255,
            tint_b <= 255,
            opacity <= OPQ_ONE,
            g_tint == (tint_r as int, tint_g as int, tint_b as int),
            diff as int == spec_diff_sum(
                *s,
                *atlas,
                g_fr,
                *target,
                canvas.pixels@,
                g_tint,
                opacity as int,
                i as int,
            ),
            -(i as int * SQ_ERR_MAX) <= diff as int <= i as int * SQ_ERR_MAX,
        decreases n - i,
    {
        let px = i % w;
        let py = i / w;
        proof {
            lemma_pixel_index(i as int, w as int, h as int);
            assert(i as int * SQ_ERR_MAX + SQ_ERR_MAX == (i + 1) as int * SQ_ERR_MAX)
                by (nonlinear_arith);
            lemma_mul_inequality(i as int + 1, 0x1000000, SQ_ERR_MAX as int);
        }
        let uv = local_uv(s, px as i64, py as i64, lw, lh);
        if 0 <= uv.0 && uv.0 < lw && 0 <= uv.1 && uv.1 < lh {
            proof {
                crate::image::lemma_rc_index(px as int, py as int, w as int, h as int);
            }
            let t = sprite_texel(atlas, s.img_index, uv.0, uv.1);
            let tp = target.get(px, py);
            let cv = canvas.get(px, py);
            proof {
                assert(0 <= t.a as int * opacity as int <= EA_ONE) by (nonlinear_arith)
                    requires
                        0 <= t.a <= 255,
                        0 <= opacity <= 256,
                ;
            }
            let ea = (t.a as u64) * (opacity as u64);
            let pr = blend_channel(t.r, tint_r, cv.r, ea);
            let pg = blend_channel(t.g, tint_g, cv.g, ea);
            let pb = blend_channel(t.b, tint_b, cv.b, ea);
            let post = Rgba { r: pr, g: pg, b: pb, a: cv.a };
            proof {
                assert(post == spec_post_pixel(t, g_tint, cv, opacity as int));
                crate::image::lemma_sq_err_bounds(post, tp);
                crate::image::lemma_sq_err_bounds(cv, tp);
            }
            let e_post = crate::image::color_sq_err(post, tp);
            let e_pre = crate::image::color_sq_err(cv, tp);
            diff = diff + (e_post as i64 - e_pre as i64);
        }
        i = i + 1;
    }
    FitnessRecord { tint_r: tr, tint_g: tg, tint_b: tb, count, diff }
}

/// Evaluate a whole population in one batch: one record per candidate, in
/// population order, each scored against the same canvas state.
pub fn evaluate_population(
    shapes: &Vec<Shape>,
    atlas: &Atlas,
    target: &Img,
    canvas: &Img,
    opacity: u32,
) -> (recs: Vec<FitnessRecord>)
    requires
        atlas.wf(),
        target.wf(),
        canvas.wf(),
        canvas.width == target.width,
        canvas.height == target.height,
        forall|i: int| 0 <= i < shapes.len() ==> shape_ok(#[trigger] shapes[i], atlas.frames.len() as int),
        opacity <= OPQ_ONE,
    ensures
        recs.len() == shapes.len(),
        forall|i: int|
            0 <= i < shapes.len() ==> #[trigger] recs[i] == spec_eval_one(
                shapes[i],
                *atlas,
                *target,
                canvas.pixels@,
                opacity as int,
            ),
{
    let mut recs: Vec<FitnessRecord> = Vec::new();
    let mut i: usize = 0;
    while i < shapes.len()
        invariant
            i <= shapes.len(),
            recs.len() == i,
            atlas.wf(),
            target.wf(),
            canvas.wf(),
            canvas.width == target.width,
            canvas.height == target.height,
            forall|j: int|
                0 <= j < shapes.len() ==> shape_ok(#[trigger] shapes[j], atlas.frames.len() as int),
            opacity <= OPQ_ONE,
            forall|j: int|
                0 <= j < i ==> #[trigger] recs[j] == spec_eval_one(
                    shapes[j],
                    *atlas,
                    *target,
                    canvas.pixels@,
                    opacity as int,
                ),
        decreases shapes.len() - i,
    {
        let rec = evaluate_one(&shapes[i], atlas, target, canvas, opacity);
        recs.push(rec);
        i = i + 1;
    }
    recs
}

/// Extract the per-candidate scores of a batch, one slot per index.
pub fn read_scores(recs: &Vec<FitnessRecord>) -> (buf: DiffBuffer)
    ensures
        buf.diff.len() == recs.len(),
        forall|i: int| 0 <= i < recs.len() ==> buf.diff[i] == #[trigger] recs[i].diff,
{
    let mut diff: Vec<i64> = Vec::new();
    let mut i: usize = 0;
    while i < recs.len()
        invariant
            i <= recs.len(),
            diff.len() == i,
            forall|j: int| 0 <= j < i ==> diff[j] == #[trigger] recs[j].diff,
        decreases recs.len() - i,
    {
        diff.push(recs[i].diff);
        i = i + 1;
    }
    DiffBuffer { diff }
}

} // verus!
