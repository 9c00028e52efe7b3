//! Committing an accepted candidate: resolving its tint from the fitness
//! record and baking it permanently into the canvas.
//!
//! The paste writes exactly the pixels that pass B of the evaluator scored,
//! so the change of the canvas's reference error equals the candidate's
//! score; that is proved here once and for all.
use crate::atlas::{Atlas, Frame};
use crate::fitness::{
    spec_covered, spec_diff_sum, spec_eval_one, spec_post_pixel, spec_resolve_channel,
    spec_texel_at, spec_tint_of, FitnessRecord, OPQ_ONE,
};
use crate::geom::{shape_ok, Shape};
use crate::image::{spec_total_sq_err, Img, Rgba, SQ_ERR_MAX};
use vstd::prelude::*;

verus! {

/// One accepted placement, recorded in acceptance order. The tint is the
/// resolved flat recolor in the canvas's color space.
#[derive(Clone, Copy, Debug, PartialEq, Eq, Structural)]
pub struct Placement {
    pub sprite_id: u16,
    pub img_index: usize,
    pub x: i64,
    pub y: i64,
    pub scale: i64,
    pub rot: i64,
    pub tint_r: u8,
    pub tint_g: u8,
    pub tint_b: u8,
    pub layer: usize,
}

/// The tint a fitness record resolves to, channel by channel; `0` on every
/// channel when the footprint sampled no alpha.
pub open spec fn spec_record_tint(rec: FitnessRecord) -> (int, int, int) {
    (
        spec_resolve_channel(rec.tint_r as int, rec.count as int),
        spec_resolve_channel(rec.tint_g as int, rec.count as int),
        spec_resolve_channel(rec.tint_b as int, rec.count as int),
    )
}

/// Resolve the tint of a fitness record. A record whose footprint sampled
/// zero alpha resolves to black without any division.
pub fn resolve_tint(rec: &FitnessRecord) -> (tint: (u8, u8, u8))
    requires
        rec.tint_r <= 255 * rec.count,
        rec.tint_g <= 255 * rec.count,
        rec.tint_b <= 255 * rec.count,
    ensures
        (tint.0 as int, tint.1 as int, tint.2 as int) == spec_record_tint(*rec),
        rec.count == 0 ==> tint == (0u8, 0u8, 0u8),
{
    let r = crate::fitness::resolve_channel(rec.tint_r, rec.count);
    let g = crate::fitness::resolve_channel(rec.tint_g, rec.count);
    let b = crate::fitness::resolve_channel(rec.tint_b, rec.count);
    (r as u8, g as u8, b as u8)
}

/// The pixel the paste leaves at index `i`: the blended pixel on the
/// candidate's footprint, the old canvas pixel elsewhere.
#[verifier::opaque]
pub open spec fn spec_pasted_pixel_at(
    s: Shape,
    atlas: Atlas,
    fr: Frame,
    cw: int,
    cpix: Seq<Rgba>,
    tint: (int, int, int),
    q: int,
    i: int,
) -> Rgba {
    let px = i % cw;
    let py = i / cw;
    if spec_covered(s, fr, px, py) {
        spec_post_pixel(spec_texel_at(s, atlas, fr, px, py), tint, cpix[i], q)
    } else {
        cpix[i]
    }
}

/// Paste the candidate into the canvas at the given tint and global opacity.
/// This is the only operation that mutates the canvas; every covered pixel
/// becomes exactly the post-paste pixel that pass B scored.
pub fn paste(
    canvas: &mut Img,
    s: &Shape,
    atlas: &Atlas,
    tint: (u8, u8, u8),
    opacity: u32,
)
    requires
        old(canvas).wf(),
        atlas.wf(),
        shape_ok(*s, atlas.frames.len() as int),
        opacity <= OPQ_ONE,
    ensures
        final(canvas).wf(),
        final(canvas).width == old(canvas).width,
        final(canvas).height == old(canvas).height,
        final(canvas).pixels.len() == old(canvas).pixels.len(),
        forall|i: int|
            0 <= i < old(canvas).pixels.len() ==> final(canvas).pixels[i]
                == spec_pasted_pixel_at(
                *s,
                *atlas,
                atlas.frames[s.img_index as int],
                old(canvas).width as int,
                old(canvas).pixels@,
                (tint.0 as int, tint.1 as int, tint.2 as int),
                opacity as int,
                i,
            ),
{
    let ghost g_oldw = canvas.width as int;
    let ghost g_old = canvas.pixels@;
    let ghost g_fr = atlas.frames[s.img_index as int];
    let ghost g_tint = (tint.0 as int, tint.1 as int, tint.2 as int);
    let fr = atlas.frames[s.img_index];
    let w = canvas.width;
    let h = canvas.height;
    proof {
        assert(w * h <= 0x1000000) by (nonlinear_arith)
            requires
                w <= 4096,
                h <= 4096,
        ;
    }
    let n = w * h;
    let lw = if fr.rotated {
        fr.h as i64
    } else {
        fr.w as i64
    };
    let lh = if fr.rotated {
        fr.w as i64
    } else {
        fr.h as i64
    };
    let mut i: usize = 0;
    while i < n
        invariant
            i <= n,
            n == w * h,
            n <= 0x1000000,
            canvas.wf(),
            canvas.width == w,
            canvas.height == h,
            g_oldw == w as int,
            canvas.pixels.len() == g_old.len(),
            atlas.wf(),
            shape_ok(*s, atlas.frames.len() as int),
            g_fr == atlas.frames[s.img_index as int],
            lw as int == crate::atlas::spec_logical_w(g_fr),
            lh as int == crate::atlas::spec_logical_h(g_fr),
            g_tint == (tint.0 as int, tint.1 as int, tint.2 as int),
            opacity <= OPQ_ONE,
            forall|j: int|
                0 <= j < i ==> canvas.pixels[j] == spec_pasted_pixel_at(
                    *s,
                    *atlas,
                    g_fr,
                    g_oldw,
                    g_old,
                    g_tint,
                    opacity as int,
                    j,
                ),
            forall|j: int| i <= j < n ==> canvas.pixels[j] == g_old[j],
        decreases n - i,
    {
        let px = i % w;
        let py = i / w;
        proof {
            reveal(spec_pasted_pixel_at);
            crate::fitness::lemma_pixel_index(i as int, w as int, h as int);
            crate::image::lemma_rc_index(px as int, py as int, w as int, h as int);
        }
        let uv = crate::geom::local_uv(s, px as i64, py as i64, lw, lh);
        if 0 <= uv.0 && uv.0 < lw && 0 <= uv.1 && uv.1 < lh {
            let t = crate::atlas::sprite_texel(atlas, s.img_index, uv.0, uv.1);
            let cv = canvas.get(px, py);
            proof {
                assert(0 <= t.a as int * opacity as int <= crate::fitness::EA_ONE)
                    by (nonlinear_arith)
                    requires
                        0 <= t.a <= 255,
                        0 <= opacity <= 256,
                ;
            }
            let ea = (t.a as u64) * (opacity as u64);
            let pr = crate::fitness::blend_channel(t.r, tint.0 as u64, cv.r, ea);
            let pg = crate::fitness::blend_channel(t.g, tint.1 as u64, cv.g, ea);
            let pb = crate::fitness::blend_channel(t.b, tint.2 as u64, cv.b, ea);
            let post = Rgba { r: pr, g: pg, b: pb, a: cv.a };
            proof {
                assert(post == spec_post_pixel(t, g_tint, cv, opacity as int));
            }
            canvas.set(px, py, post);
        }
        i = i + 1;
    }
}

/// The paste changes the canvas's reference error by exactly the pass B
/// score: over any prefix of the pixels, the error after equals the error
/// before plus the accumulated signed difference.
pub proof fn lemma_paste_error_decomposition(
    s: Shape,
    atlas: Atlas,
    fr: Frame,
    target: Img,
    cpix: Seq<Rgba>,
    apix: Seq<Rgba>,
    tint: (int, int, int),
    q: int,
    n: int,
)
    requires
        0 <= n <= cpix.len(),
        apix.len() == cpix.len(),
        forall|i: int|
            0 <= i < cpix.len() ==> apix[i] == spec_pasted_pixel_at(
                s,
                atlas,
                fr,
                target.width as int,
                cpix,
                tint,
                q,
                i,
            ),
    ensures
        spec_total_sq_err(apix, target, n) == spec_total_sq_err(cpix, target, n)
            + spec_diff_sum(s, atlas, fr, target, cpix, tint, q, n),
    decreases n,
{
    reveal(spec_pasted_pixel_at);
    if n > 0 {
        lemma_paste_error_decomposition(s, atlas, fr, target, cpix, apix, tint, q, n - 1);
    }
}

/// Monotonic improvement: pasting a candidate whose score is negative
/// strictly reduces the canvas's reference error, and a paste never changes
/// the error by anything other than the score.
pub proof fn lemma_commit_improves(
    s: Shape,
    atlas: Atlas,
    target: Img,
    cpix: Seq<Rgba>,
    apix: Seq<Rgba>,
    rec: FitnessRecord,
    q: int,
)
    requires
        target.wf(),
        cpix.len() == target.width * target.height,
        apix.len() == cpix.len(),
        s.img_index < atlas.frames.len(),
        rec == spec_eval_one(s, atlas, target, cpix, q),
        forall|i: int|
            0 <= i < cpix.len() ==> apix[i] == spec_pasted_pixel_at(
                s,
                atlas,
                atlas.frames[s.img_index as int],
                target.width as int,
                cpix,
                spec_tint_of(s, atlas, atlas.frames[s.img_index as int], target),
                q,
                i,
            ),
    ensures
        spec_total_sq_err(apix, target, cpix.len() as int) == spec_total_sq_err(
            cpix,
            target,
            cpix.len() as int,
        ) + rec.diff,
        rec.diff < 0 ==> spec_total_sq_err(apix, target, cpix.len() as int)
            < spec_total_sq_err(cpix, target, cpix.len() as int),
{
    reveal(spec_eval_one);
    let fr = atlas.frames[s.img_index as int];
    let tint = spec_tint_of(s, atlas, fr, target);
    let n = cpix.len() as int;
    lemma_paste_error_decomposition(s, atlas, fr, target, cpix, apix, tint, q, n);
    crate::fitness::lemma_diff_sum_bounds(s, atlas, fr, target, cpix, tint, q, n);
    assert(n <= 0x1000000) by (nonlinear_arith)
        requires
            n == target.width * target.height,
            target.width <= 4096,
            target.height <= 4096,
    ;
    vstd::arithmetic::mul::lemma_mul_inequality(n, 0x1000000, SQ_ERR_MAX as int);
}

/// Score sign consistency: because the paste's error change equals the
/// score exactly, a candidate that would strictly increase the reference
/// error has a positive score, and one that would strictly decrease it has
/// a negative score.
pub proof fn lemma_score_sign_consistency(
    s: Shape,
    atlas: Atlas,
    fr: Frame,
    target: Img,
    cpix: Seq<Rgba>,
    apix: Seq<Rgba>,
    tint: (int, int, int),
    q: int,
)
    requires
        apix.len() == cpix.len(),
        forall|i: int|
            0 <= i < cpix.len() ==> apix[i] == spec_pasted_pixel_at(
                s,
                atlas,
                fr,
                target.width as int,
                cpix,
                tint,
                q,
                i,
            ),
    ensures
        spec_total_sq_err(apix, target, cpix.len() as int) > spec_total_sq_err(
            cpix,
            target,
            cpix.len() as int,
        ) ==> spec_diff_sum(s, atlas, fr, target, cpix, tint, q, cpix.len() as int) > 0,
        spec_total_sq_err(apix, target, cpix.len() as int) < spec_total_sq_err(
            cpix,
            target,
            cpix.len() as int,
        ) ==> spec_diff_sum(s, atlas, fr, target, cpix, tint, q, cpix.len() as int) < 0,
{
    lemma_paste_error_decomposition(s, atlas, fr, target, cpix, apix, tint, q, cpix.len() as int);
}

} // verus!
