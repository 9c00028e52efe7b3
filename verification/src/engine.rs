//! The population search engine: the outer propose-refine-accept loop over
//! a population of candidate placements.
//!
//! Every step is pinned to a spec-level state machine over plain values
//! (shape sequence, generator state, canvas pixels, placement list), so a
//! whole run is a proven function of the configuration, the inputs and the
//! seed.
use crate::atlas::Atlas;
use crate::commit::{spec_pasted_pixel_at, spec_record_tint, Placement};
use crate::fitness::{spec_eval_one, FitnessRecord, OPQ_ONE};
use crate::geom::{
    shape_bounded, shape_ok, Shape, COORD_MAX, SCALE_MAX_FX, TWO_PI_FX,
};
use crate::image::{spec_total_sq_err, Img, Rgba};
use crate::rng::{spec_below, spec_step, SplitMix};
use vstd::prelude::*;

verus! {

/// The optimizer's configuration, fixed for a run.
#[derive(Clone, Copy, Debug, PartialEq, Eq, Structural)]
pub struct Config {
    /// Population size at every evaluation.
    pub total_shapes: usize,
    /// How many of the best candidates breed each refinement round.
    pub cutoff: usize,
    /// Refinement rounds per outer iteration.
    pub adjustments: usize,
    /// Survivors carried into the next outer iteration after a commit.
    pub passed_on: usize,
    /// Outer iterations in a full run.
    pub iterations: usize,
    /// Global paste opacity, `OPQ_ONE` meaning fully opaque.
    pub opacity: u32,
    /// Smallest sampled scale, in `FX` units.
    pub scale_min: i64,
    /// Largest sampled scale, in `FX` units.
    pub scale_max: i64,
    /// The random seed of the run.
    pub seed: u64,
}

pub open spec fn config_ok(cfg: Config) -> bool {
    &&& 1 <= cfg.total_shapes <= 65536
    &&& 1 <= cfg.cutoff <= cfg.total_shapes
    &&& 1 <= cfg.passed_on <= cfg.total_shapes
    &&& cfg.opacity <= OPQ_ONE
    &&& 1 <= cfg.scale_min <= cfg.scale_max <= SCALE_MAX_FX
}

/// A freshly sampled candidate and the generator state after the draws:
/// position uniform over the canvas, sprite uniform over the library, scale
/// uniform over the configured range, rotation uniform over one turn.
pub open spec fn spec_sample_shape(st: u64, w: u64, h: u64, nspr: u64, cfg: Config) -> (
    Shape,
    u64,
) {
    let x = spec_below(st, w);
    let st1 = spec_step(st);
    let y = spec_below(st1, h);
    let st2 = spec_step(st1);
    let idx = spec_below(st2, nspr);
    let st3 = spec_step(st2);
    let sc = cfg.scale_min + spec_below(st3, (cfg.scale_max - cfg.scale_min + 1) as u64);
    let st4 = spec_step(st3);
    let rot = spec_below(st4, TWO_PI_FX as u64);
    let st5 = spec_step(st4);
    (
        Shape {
            img_index: idx as usize,
            x: x as i64,
            y: y as i64,
            scale: sc as i64,
            rot: rot as i64,
        },
        st5,
    )
}

/// Draw a fresh random candidate.
pub fn sample_shape(rng: &mut SplitMix, w: usize, h: usize, nspr: usize, cfg: &Config) -> (s:
    Shape)
    requires
        config_ok(*cfg),
        1 <= w <= 4096,
        1 <= h <= 4096,
        1 <= nspr,
    ensures
        (s, final(rng).state) == spec_sample_shape(
            old(rng).state,
            w as u64,
            h as u64,
            nspr as u64,
            *cfg,
        ),
        shape_ok(s, nspr as int),
{
    let x = rng.below(w as u64);
    let y = rng.below(h as u64);
    let idx = rng.below(nspr as u64);
    let span = (cfg.scale_max - cfg.scale_min + 1) as u64;
    let sc = cfg.scale_min + rng.below(span) as i64;
    let rot = rng.below(TWO_PI_FX as u64);
    Shape { img_index: idx as usize, x: x as i64, y: y as i64, scale: sc, rot: rot as i64 }
}

/// Clamp a value into `lo ..= hi`.
pub open spec fn spec_clamp(v: int, lo: int, hi: int) -> int {
    if v < lo {
        lo
    } else if v > hi {
        hi
    } else {
        v
    }
}

/// A mutated copy of a candidate and the generator state after the draws:
/// position nudged by up to three canvas units each way, scale multiplied by
/// a factor in `[0.9, 1.1)`, rotation turned by up to a tenth of a radian
/// each way and wrapped to one turn. Position and scale are clamped to the
/// model's coordinate and scale budgets.
pub open spec fn spec_mutate_shape(s: Shape, st: u64, cfg: Config) -> (Shape, u64) {
    let dx = spec_below(st, 7) - 3;
    let st1 = spec_step(st);
    let dy = spec_below(st1, 7) - 3;
    let st2 = spec_step(st1);
    let f = 58982 + spec_below(st2, 13108);
    let st3 = spec_step(st2);
    let dr = spec_below(st3, 13108) - 6554;
    let st4 = spec_step(st3);
    (
        Shape {
            img_index: s.img_index,
            x: spec_clamp(s.x + dx, -COORD_MAX as int, COORD_MAX as int) as i64,
            y: spec_clamp(s.y + dy, -COORD_MAX as int, COORD_MAX as int) as i64,
            scale: spec_clamp(s.scale * f / 65536, cfg.scale_min as int, cfg.scale_max as int)
                as i64,
            rot: ((s.rot + dr) % (TWO_PI_FX as int)) as i64,
        },
        st4,
    )
}

fn clamp_i64(v: i64, lo: i64, hi: i64) -> (r: i64)
    requires
        lo <= hi,
    ensures
        r == spec_clamp(v as int, lo as int, hi as int),
{
    if v < lo {
        lo
    } else if v > hi {
        hi
    } else {
        v
    }
}

/// Mutate one candidate in place, returning the mutated copy.
pub fn mutate_shape(s: &Shape, rng: &mut SplitMix, cfg: &Config) -> (m: Shape)
    requires
        config_ok(*cfg),
        shape_bounded(*s),
    ensures
        (m, final(rng).state) == spec_mutate_shape(*s, old(rng).state, *cfg),
        shape_bounded(m),
        m.img_index == s.img_index,
{
    let dx = rng.below(7) as i64 - 3;
    let dy = rng.below(7) as i64 - 3;
    let f = 58982 + rng.below(13108) as i64;
    let dr = rng.below(13108) as i64 - 6554;
    proof {
        assert(1 * 58982 <= s.scale * f <= SCALE_MAX_FX as int * 72090) by (nonlinear_arith)
            requires
                1 <= s.scale <= SCALE_MAX_FX,
                58982 <= f < 72090,
        ;
        vstd::arithmetic::div_mod::lemma_div_pos_is_pos(s.scale as int * f as int, 65536);
        vstd::arithmetic::div_mod::lemma_div_is_ordered(
            s.scale as int * f as int,
            SCALE_MAX_FX as int * 72090,
            65536,
        );
    }
    let scaled = ((s.scale as u64 * f as u64) / 65536) as i64;
    let rot = crate::geom::mod_floor_i64(s.rot + dr, TWO_PI_FX);
    Shape {
        img_index: s.img_index,
        x: clamp_i64(s.x + dx, -COORD_MAX, COORD_MAX),
        y: clamp_i64(s.y + dy, -COORD_MAX, COORD_MAX),
        scale: clamp_i64(scaled, cfg.scale_min, cfg.scale_max),
        rot,
    }
}

/// A candidate paired with its fitness record for one evaluation batch.
#[derive(Clone, Copy, Debug, PartialEq, Eq, Structural)]
pub struct Scored {
    pub shape: Shape,
    pub rec: FitnessRecord,
}

/// Stable insertion of `p` into a population sorted by ascending score:
/// `p` lands after every element whose score is not larger, so elements
/// with equal scores keep their prior relative order.
pub open spec fn spec_insert(sorted: Seq<Scored>, p: Scored) -> Seq<Scored>
    decreases sorted.len(),
{
    if sorted.len() == 0 {
        seq![p]
    } else if p.rec.diff < sorted.last().rec.diff {
        spec_insert(sorted.drop_last(), p).push(sorted.last())
    } else {
        sorted.push(p)
    }
}

/// Stable sort by ascending score: most negative (best) first; ties keep
/// their prior relative order.
pub open spec fn spec_sort(s: Seq<Scored>) -> Seq<Scored>
    decreases s.len(),
{
    if s.len() == 0 {
        Seq::empty()
    } else {
        spec_insert(spec_sort(s.drop_last()), s.last())
    }
}

pub proof fn lemma_insert_len(sorted: Seq<Scored>, p: Scored)
    ensures
        spec_insert(sorted, p).len() == sorted.len() + 1,
    decreases sorted.len(),
{
    if sorted.len() > 0 && p.rec.diff < sorted.last().rec.diff {
        lemma_insert_len(sorted.drop_last(), p);
    }
}

pub proof fn lemma_sort_len(s: Seq<Scored>)
    ensures
        spec_sort(s).len() == s.len(),
    decreases s.len(),
{
    if s.len() > 0 {
        lemma_sort_len(s.drop_last());
        lemma_insert_len(spec_sort(s.drop_last()), s.last());
    }
}

/// Inserting at the scanned position realizes the stable insertion.
proof fn lemma_insert_at(s: Seq<Scored>, p: Scored, pos: int)
    requires
        0 <= pos <= s.len(),
        forall|j: int| pos <= j < s.len() ==> p.rec.diff < #[trigger] s[j].rec.diff,
        pos > 0 ==> !(p.rec.diff < s[pos - 1].rec.diff),
    ensures
        spec_insert(s, p) == s.subrange(0, pos) + seq![p] + s.subrange(pos, s.len() as int),
    decreases s.len(),
{
    if s.len() == 0 {
        assert(spec_insert(s, p) =~= s.subrange(0, 0) + seq![p] + s.subrange(0, 0));
    } else if pos == s.len() {
        assert(spec_insert(s, p) =~= s.subrange(0, pos) + seq![p] + s.subrange(
            pos,
            s.len() as int,
        ));
    } else {
        lemma_insert_at(s.drop_last(), p, pos);
        assert(spec_insert(s.drop_last(), p).push(s.last()) =~= s.subrange(0, pos) + seq![p]
            + s.subrange(pos, s.len() as int));
    }
}

/// Every element of a stable insertion is the inserted element or one of
/// the original elements.
proof fn lemma_insert_from(sorted: Seq<Scored>, p: Scored, k: int)
    requires
        0 <= k < spec_insert(sorted, p).len(),
    ensures
        spec_insert(sorted, p)[k] == p || exists|j: int|
            0 <= j < sorted.len() && spec_insert(sorted, p)[k] == sorted[j],
    decreases sorted.len(),
{
    lemma_insert_len(sorted, p);
    if sorted.len() == 0 {
    } else if p.rec.diff < sorted.last().rec.diff {
        lemma_insert_len(sorted.drop_last(), p);
        if k < spec_insert(sorted.drop_last(), p).len() {
            lemma_insert_from(sorted.drop_last(), p, k);
            if spec_insert(sorted.drop_last(), p)[k] != p {
                let j = choose|j: int|
                    0 <= j < sorted.drop_last().len() && spec_insert(sorted.drop_last(), p)[k]
                        == sorted.drop_last()[j];
                assert(sorted.drop_last()[j] == sorted[j]);
            }
        } else {
            assert(spec_insert(sorted, p)[k] == sorted.last());
            assert(sorted.last() == sorted[sorted.len() - 1]);
        }
    }
}

/// Every element of the sorted population is one of the original elements.
pub proof fn lemma_sort_from(s: Seq<Scored>, k: int)
    requires
        0 <= k < spec_sort(s).len(),
    ensures
        exists|j: int| 0 <= j < s.len() && spec_sort(s)[k] == s[j],
    decreases s.len(),
{
    lemma_sort_len(s);
    if s.len() > 0 {
        lemma_sort_len(s.drop_last());
        lemma_insert_from(spec_sort(s.drop_last()), s.last(), k);
        if spec_sort(s)[k] == s.last() {
            assert(spec_sort(s)[k] == s[s.len() - 1]);
        } else {
            let j0 = choose|j0: int|
                0 <= j0 < spec_sort(s.drop_last()).len() && spec_sort(s)[k] == spec_sort(
                    s.drop_last(),
                )[j0];
            lemma_sort_from(s.drop_last(), j0);
            let j = choose|j: int|
                0 <= j < s.drop_last().len() && spec_sort(s.drop_last())[j0] == s.drop_last()[j];
            assert(s.drop_last()[j] == s[j]);
        }
    }
}

/// The population is ordered by ascending score.
pub open spec fn sorted_by_score(s: Seq<Scored>) -> bool {
    forall|i: int, j: int| 0 <= i <= j < s.len() ==> #[trigger] s[i].rec.diff <= #[trigger] s[j].rec.diff
}

proof fn lemma_insert_sorted(sorted: Seq<Scored>, p: Scored)
    requires
        sorted_by_score(sorted),
    ensures
        sorted_by_score(spec_insert(sorted, p)),
    decreases sorted.len(),
{
    lemma_insert_len(sorted, p);
    if sorted.len() == 0 {
    } else if p.rec.diff < sorted.last().rec.diff {
        let inner = spec_insert(sorted.drop_last(), p);
        lemma_insert_len(sorted.drop_last(), p);
        lemma_insert_sorted(sorted.drop_last(), p);
        let out = inner.push(sorted.last());
        assert forall|i: int, j: int| 0 <= i <= j < out.len() implies #[trigger] out[i].rec.diff
            <= #[trigger] out[j].rec.diff by {
            if j < out.len() - 1 {
            } else if i < out.len() - 1 {
                lemma_insert_from(sorted.drop_last(), p, i);
                if inner[i] != p {
                    let k = choose|k: int|
                        0 <= k < sorted.drop_last().len() && inner[i] == sorted.drop_last()[k];
                    assert(sorted[k].rec.diff <= sorted.last().rec.diff);
                }
            }
        }
    }
}

/// The stable sort orders the population by ascending score, so the first
/// slot of the sorted population holds a best (most negative) candidate.
pub proof fn lemma_sort_sorted(s: Seq<Scored>)
    ensures
        sorted_by_score(spec_sort(s)),
    decreases s.len(),
{
    if s.len() > 0 {
        lemma_sort_sorted(s.drop_last());
        lemma_insert_sorted(spec_sort(s.drop_last()), s.last());
    }
}

/// A stable insertion adds exactly the inserted element.
proof fn lemma_insert_multiset(sorted: Seq<Scored>, p: Scored)
    ensures
        spec_insert(sorted, p).to_multiset() == sorted.to_multiset().insert(p),
    decreases sorted.len(),
{
    broadcast use vstd::seq_lib::group_to_multiset_ensures;

    if sorted.len() == 0 {
        assert(spec_insert(sorted, p) =~= Seq::<Scored>::empty().push(p));
        assert(spec_insert(sorted, p).to_multiset() =~= sorted.to_multiset().insert(p));
    } else if p.rec.diff < sorted.last().rec.diff {
        lemma_insert_multiset(sorted.drop_last(), p);
        assert(sorted =~= sorted.drop_last().push(sorted.last()));
        assert(spec_insert(sorted, p).to_multiset() =~= sorted.to_multiset().insert(p));
    } else {
        assert(spec_insert(sorted, p).to_multiset() =~= sorted.to_multiset().insert(p));
    }
}

/// The sort is a permutation: it rearranges the population and nothing else.
/// Together with `lemma_sort_sorted`, truncating the sorted population keeps
/// the best-scoring candidates and drops the worst.
pub proof fn lemma_sort_multiset(s: Seq<Scored>)
    ensures
        spec_sort(s).to_multiset() == s.to_multiset(),
    decreases s.len(),
{
    if s.len() > 0 {
        lemma_sort_multiset(s.drop_last());
        lemma_insert_multiset(spec_sort(s.drop_last()), s.last());
        broadcast use vstd::seq_lib::group_to_multiset_ensures;

        assert(s =~= s.drop_last().push(s.last()));
        assert(spec_sort(s).to_multiset() =~= s.to_multiset());
    } else {
        assert(s =~= Seq::<Scored>::empty());
    }
}

/// Insert one scored candidate into an already-sorted vector, scanning for
/// its stable position from the end.
fn insert_scored(out: &mut Vec<Scored>, p: Scored)
    ensures
        final(out)@ == spec_insert(old(out)@, p),
{
    let mut pos: usize = out.len();
    while pos > 0 && p.rec.diff < out[pos - 1].rec.diff
        invariant
            pos <= out.len(),
            forall|j: int| pos <= j < out.len() ==> p.rec.diff < #[trigger] out@[j].rec.diff,
        decreases pos,
    {
        pos = pos - 1;
    }
    proof {
        lemma_insert_at(out@, p, pos as int);
    }
    out.insert(pos, p);
    proof {
        assert(out@ =~= old(out)@.subrange(0, pos as int) + seq![p] + old(out)@.subrange(
            pos as int,
            old(out)@.len() as int,
        ));
    }
}

/// Sort a scored population by ascending score with a stable insertion
/// sort: the best (most negative) score first, ties keeping their prior
/// relative order.
pub fn sort_scored(v: &Vec<Scored>) -> (r: Vec<Scored>)
    ensures
        r@ == spec_sort(v@),
        r.len() == v.len(),
{
    let mut out: Vec<Scored> = Vec::new();
    let mut i: usize = 0;
    proof {
        assert(v@.subrange(0, 0) =~= Seq::<Scored>::empty());
    }
    while i < v.len()
        invariant
            i <= v.len(),
            out@ == spec_sort(v@.subrange(0, i as int)),
        decreases v.len() - i,
    {
        let p = v[i];
        insert_scored(&mut out, p);
        proof {
            assert(v@.subrange(0, i + 1 as int).drop_last() =~= v@.subrange(0, i as int));
            assert(v@.subrange(0, i + 1 as int).last() == v@[i as int]);
        }
        i = i + 1;
    }
    proof {
        assert(v@.subrange(0, v.len() as int) =~= v@);
        lemma_sort_len(v@);
    }
    out
}

/// A scored entry is a valid candidate carrying exactly the record that one
/// batched evaluation against canvas pixels `cpix` assigns it.
pub open spec fn scored_entry_ok(
    sc: Scored,
    atlas: Atlas,
    target: Img,
    cpix: Seq<Rgba>,
    q: int,
) -> bool {
    &&& shape_ok(sc.shape, atlas.frames.len() as int)
    &&& sc.rec == spec_eval_one(sc.shape, atlas, target, cpix, q)
}

/// The scored population of one evaluation batch.
pub open spec fn spec_scored(
    shapes: Seq<Shape>,
    atlas: Atlas,
    target: Img,
    cpix: Seq<Rgba>,
    q: int,
) -> Seq<Scored> {
    Seq::new(
        shapes.len(),
        |i: int| Scored { shape: shapes[i], rec: spec_eval_one(shapes[i], atlas, target, cpix, q) },
    )
}

/// Evaluate a population and pair every candidate with its record.
pub fn score_population(
    shapes: &Vec<Shape>,
    atlas: &Atlas,
    target: &Img,
    canvas: &Img,
    opacity: u32,
) -> (r: Vec<Scored>)
    requires
        atlas.wf(),
        target.wf(),
        canvas.wf(),
        canvas.width == target.width,
        canvas.height == target.height,
        forall|i: int|
            0 <= i < shapes.len() ==> shape_ok(#[trigger] shapes[i], atlas.frames.len() as int),
        opacity <= OPQ_ONE,
    ensures
        r@ == spec_scored(shapes@, *atlas, *target, canvas.pixels@, opacity as int),
        r.len() == shapes.len(),
{
    let recs = crate::fitness::evaluate_population(shapes, atlas, target, canvas, opacity);
    let mut out: Vec<Scored> = Vec::new();
    let mut i: usize = 0;
    while i < shapes.len()
        invariant
            i <= shapes.len(),
            recs.len() == shapes.len(),
            out.len() == i,
            forall|j: int|
                0 <= j < shapes.len() ==> #[trigger] recs@[j] == spec_eval_one(
                    shapes@[j],
                    *atlas,
                    *target,
                    canvas.pixels@,
                    opacity as int,
                ),
            forall|j: int|
                0 <= j < i ==> #[trigger] out@[j] == (Scored {
                    shape: shapes@[j],
                    rec: recs@[j],
                }),
        decreases shapes.len() - i,
    {
        out.push(Scored { shape: shapes[i], rec: recs[i] });
        i = i + 1;
    }
    proof {
        assert(out@ =~= spec_scored(shapes@, *atlas, *target, canvas.pixels@, opacity as int));
    }
    out
}

/// The population after the baseline top-up: freshly sampled candidates are
/// appended until the population reaches its configured size.
pub open spec fn spec_populate(
    shapes: Seq<Shape>,
    st: u64,
    w: u64,
    h: u64,
    nspr: u64,
    cfg: Config,
) -> (Seq<Shape>, u64)
    decreases cfg.total_shapes - shapes.len(),
{
    if shapes.len() >= cfg.total_shapes {
        (shapes, st)
    } else {
        let r = spec_sample_shape(st, w, h, nspr, cfg);
        spec_populate(shapes.push(r.0), r.1, w, h, nspr, cfg)
    }
}

/// The baseline top-up leaves exactly the configured population size, and
/// every candidate valid: the population size invariant after
/// `populate`.
pub proof fn lemma_populate_len(
    shapes: Seq<Shape>,
    st: u64,
    w: u64,
    h: u64,
    nspr: u64,
    cfg: Config,
)
    requires
        config_ok(cfg),
        shapes.len() <= cfg.total_shapes,
        1 <= w <= 4096,
        1 <= h <= 4096,
        1 <= nspr,
        forall|i: int| 0 <= i < shapes.len() ==> shape_ok(#[trigger] shapes[i], nspr as int),
    ensures
        spec_populate(shapes, st, w, h, nspr, cfg).0.len() == cfg.total_shapes,
        forall|i: int|
            0 <= i < cfg.total_shapes ==> shape_ok(
                #[trigger] spec_populate(shapes, st, w, h, nspr, cfg).0[i],
                nspr as int,
            ),
    decreases cfg.total_shapes - shapes.len(),
{
    if shapes.len() < cfg.total_shapes {
        let r = spec_sample_shape(st, w, h, nspr, cfg);
        lemma_sample_shape_ok(st, w, h, nspr, cfg);
        lemma_populate_len(shapes.push(r.0), r.1, w, h, nspr, cfg);
    }
}

/// A sampled candidate is valid: the draws land inside the canvas, the
/// library and the configured scale range.
pub proof fn lemma_sample_shape_ok(st: u64, w: u64, h: u64, nspr: u64, cfg: Config)
    requires
        config_ok(cfg),
        1 <= w <= 4096,
        1 <= h <= 4096,
        1 <= nspr,
    ensures
        shape_ok(spec_sample_shape(st, w, h, nspr, cfg).0, nspr as int),
{
}

/// A mutated candidate stays within the model's budgets and keeps its
/// sprite.
pub proof fn lemma_mutate_shape_ok(s: Shape, st: u64, cfg: Config)
    requires
        config_ok(cfg),
        shape_bounded(s),
    ensures
        shape_bounded(spec_mutate_shape(s, st, cfg).0),
        spec_mutate_shape(s, st, cfg).0.img_index == s.img_index,
{
    let f = 58982 + spec_below(spec_step(spec_step(st)), 13108);
    assert(1 * 58982 <= s.scale * f <= SCALE_MAX_FX as int * 72090) by (nonlinear_arith)
        requires
            1 <= s.scale <= SCALE_MAX_FX,
            58982 <= f < 72090,
    ;
    vstd::arithmetic::div_mod::lemma_div_pos_is_pos(s.scale as int * f as int, 65536);
    vstd::arithmetic::div_mod::lemma_div_is_ordered(
        s.scale as int * f as int,
        SCALE_MAX_FX as int * 72090,
        65536,
    );
    let dr = spec_below(spec_step(spec_step(spec_step(st))), 13108) - 6554;
    vstd::arithmetic::div_mod::lemma_mod_bound(s.rot + dr, TWO_PI_FX as int);
}

/// `k` mutated copies of `parent` appended to `base`.
pub open spec fn spec_push_mutants(
    base: Seq<Shape>,
    parent: Shape,
    k: nat,
    st: u64,
    cfg: Config,
) -> (Seq<Shape>, u64)
    decreases k,
{
    if k == 0 {
        (base, st)
    } else {
        let r = spec_mutate_shape(parent, st, cfg);
        spec_push_mutants(base.push(r.0), parent, (k - 1) as nat, r.1, cfg)
    }
}

pub proof fn lemma_push_mutants_ok(
    base: Seq<Shape>,
    parent: Shape,
    k: nat,
    st: u64,
    cfg: Config,
    nspr: int,
)
    requires
        config_ok(cfg),
        shape_ok(parent, nspr),
        forall|i: int| 0 <= i < base.len() ==> shape_ok(#[trigger] base[i], nspr),
    ensures
        spec_push_mutants(base, parent, k, st, cfg).0.len() == base.len() + k,
        forall|i: int|
            0 <= i < base.len() + k ==> shape_ok(
                #[trigger] spec_push_mutants(base, parent, k, st, cfg).0[i],
                nspr,
            ),
    decreases k,
{
    if k > 0 {
        let r = spec_mutate_shape(parent, st, cfg);
        lemma_mutate_shape_ok(parent, st, cfg);
        lemma_push_mutants_ok(base.push(r.0), parent, (k - 1) as nat, r.1, cfg, nspr);
    }
}

/// Mutated offspring of the best `cutoff` parents, `m` copies each,
/// appended in parent order.
pub open spec fn spec_parents(
    sorted: Seq<Scored>,
    j: int,
    m: nat,
    base: Seq<Shape>,
    st: u64,
    cfg: Config,
) -> (Seq<Shape>, u64)
    decreases cfg.cutoff - j,
{
    if j < 0 || j >= cfg.cutoff {
        (base, st)
    } else {
        let r = spec_push_mutants(base, sorted[j].shape, m, st, cfg);
        spec_parents(sorted, j + 1, m, r.0, r.1, cfg)
    }
}

pub proof fn lemma_parents_ok(
    sorted: Seq<Scored>,
    j: int,
    m: nat,
    base: Seq<Shape>,
    st: u64,
    cfg: Config,
    nspr: int,
)
    requires
        config_ok(cfg),
        0 <= j <= cfg.cutoff,
        cfg.cutoff <= sorted.len(),
        forall|i: int| 0 <= i < sorted.len() ==> shape_ok(#[trigger] sorted[i].shape, nspr),
        forall|i: int| 0 <= i < base.len() ==> shape_ok(#[trigger] base[i], nspr),
    ensures
        spec_parents(sorted, j, m, base, st, cfg).0.len() == base.len() + (cfg.cutoff - j) * m,
        forall|i: int|
            0 <= i < spec_parents(sorted, j, m, base, st, cfg).0.len() ==> shape_ok(
                #[trigger] spec_parents(sorted, j, m, base, st, cfg).0[i],
                nspr,
            ),
    decreases cfg.cutoff - j,
{
    if j >= cfg.cutoff {
        assert((cfg.cutoff - j) * m == 0) by (nonlinear_arith)
            requires
                j == cfg.cutoff,
        ;
    } else {
        let r = spec_push_mutants(base, sorted[j].shape, m, st, cfg);
        lemma_push_mutants_ok(base, sorted[j].shape, m, st, cfg, nspr);
        lemma_parents_ok(sorted, j + 1, m, r.0, r.1, cfg, nspr);
        assert((cfg.cutoff - j) * m == (cfg.cutoff - j - 1) * m + m) by (nonlinear_arith);
    }
}

/// Mutated copies of the elite appended until the population is full.
pub open spec fn spec_pad(base: Seq<Shape>, elite: Shape, st: u64, cfg: Config) -> (
    Seq<Shape>,
    u64,
)
    decreases cfg.total_shapes - base.len(),
{
    if base.len() >= cfg.total_shapes {
        (base, st)
    } else {
        let r = spec_mutate_shape(elite, st, cfg);
        spec_pad(base.push(r.0), elite, r.1, cfg)
    }
}

pub proof fn lemma_pad_ok(base: Seq<Shape>, elite: Shape, st: u64, cfg: Config, nspr: int)
    requires
        config_ok(cfg),
        base.len() <= cfg.total_shapes,
        shape_ok(elite, nspr),
        forall|i: int| 0 <= i < base.len() ==> shape_ok(#[trigger] base[i], nspr),
    ensures
        spec_pad(base, elite, st, cfg).0.len() == cfg.total_shapes,
        forall|i: int|
            0 <= i < cfg.total_shapes ==> shape_ok(
                #[trigger] spec_pad(base, elite, st, cfg).0[i],
                nspr,
            ),
    decreases cfg.total_shapes - base.len(),
{
    if base.len() < cfg.total_shapes {
        let r = spec_mutate_shape(elite, st, cfg);
        lemma_mutate_shape_ok(elite, st, cfg);
        lemma_pad_ok(base.push(r.0), elite, r.1, cfg, nspr);
    }
}

/// How many mutated copies each of the best `cutoff` parents contributes:
/// two slots are reserved (the elite and at least one pad), never less than
/// zero.
pub open spec fn spec_mutants_per_parent(cfg: Config) -> nat {
    if cfg.total_shapes / cfg.cutoff >= 2 {
        (cfg.total_shapes / cfg.cutoff - 2) as nat
    } else {
        0
    }
}

/// The next generation: the best candidate kept verbatim as the elite,
/// `spec_mutants_per_parent` mutated copies of each of the best `cutoff`
/// parents, and mutated copies of the elite padding the population back to
/// its configured size.
pub open spec fn spec_next_gen(sorted: Seq<Scored>, st: u64, cfg: Config) -> (Seq<Shape>, u64) {
    let m = spec_mutants_per_parent(cfg);
    let r = spec_parents(sorted, 0, m, seq![sorted[0].shape], st, cfg);
    spec_pad(r.0, sorted[0].shape, r.1, cfg)
}

/// The population size invariant after a refinement round: the next
/// generation has exactly the configured population size again, whether or
/// not `cutoff` divides it evenly, and every candidate in it is valid.
pub proof fn lemma_next_gen_ok(sorted: Seq<Scored>, st: u64, cfg: Config, nspr: int)
    requires
        config_ok(cfg),
        cfg.cutoff <= sorted.len(),
        sorted.len() >= 1,
        forall|i: int| 0 <= i < sorted.len() ==> shape_ok(#[trigger] sorted[i].shape, nspr),
    ensures
        spec_next_gen(sorted, st, cfg).0.len() == cfg.total_shapes,
        forall|i: int|
            0 <= i < cfg.total_shapes ==> shape_ok(
                #[trigger] spec_next_gen(sorted, st, cfg).0[i],
                nspr,
            ),
{
    let m = spec_mutants_per_parent(cfg);
    let base = seq![sorted[0].shape];
    lemma_parents_ok(sorted, 0, m, base, st, cfg, nspr);
    let r = spec_parents(sorted, 0, m, base, st, cfg);
    vstd::arithmetic::div_mod::lemma_fundamental_div_mod(
        cfg.total_shapes as int,
        cfg.cutoff as int,
    );
    vstd::arithmetic::div_mod::lemma_mod_bound(cfg.total_shapes as int, cfg.cutoff as int);
    if cfg.total_shapes / cfg.cutoff >= 2 {
        assert(cfg.cutoff * m == cfg.cutoff * (cfg.total_shapes / cfg.cutoff) - 2 * cfg.cutoff)
            by (nonlinear_arith)
            requires
                m == cfg.total_shapes / cfg.cutoff - 2,
        ;
        assert((cfg.cutoff - 0) * m == cfg.cutoff * m) by (nonlinear_arith);
        assert(r.0.len() <= cfg.total_shapes);
    } else {
        assert((cfg.cutoff - 0) * m == 0) by (nonlinear_arith)
            requires
                m == 0,
        ;
    }
    lemma_pad_ok(r.0, sorted[0].shape, r.1, cfg, nspr);
}

/// Build the next generation from a sorted population.
pub fn next_generation(sorted: &Vec<Scored>, rng: &mut SplitMix, cfg: &Config) -> (r: Vec<Shape>)
    requires
        config_ok(*cfg),
        cfg.cutoff <= sorted.len(),
        sorted.len() >= 1,
        forall|i: int| 0 <= i < sorted.len() ==> shape_bounded(#[trigger] sorted@[i].shape),
    ensures
        (r@, final(rng).state) == spec_next_gen(sorted@, old(rng).state, *cfg),
{
    let ghost st0 = rng.state;
    let ghost m_spec = spec_mutants_per_parent(*cfg);
    let ghost gp = spec_parents(sorted@, 0, m_spec, seq![sorted@[0].shape], st0, *cfg);
    let mut out: Vec<Shape> = Vec::new();
    out.push(sorted[0].shape);
    let m: usize = if cfg.total_shapes / cfg.cutoff >= 2 {
        cfg.total_shapes / cfg.cutoff - 2
    } else {
        0
    };
    proof {
        assert(m as nat == m_spec);
        assert(out@ =~= seq![sorted@[0].shape]);
    }
    let mut j: usize = 0;
    while j < cfg.cutoff
        invariant
            j <= cfg.cutoff,
            config_ok(*cfg),
            cfg.cutoff <= sorted.len(),
            m as nat == m_spec,
            forall|i: int| 0 <= i < sorted.len() ==> shape_bounded(#[trigger] sorted@[i].shape),
            forall|i: int| 0 <= i < out.len() ==> shape_bounded(#[trigger] out@[i]),
            spec_parents(sorted@, j as int, m_spec, out@, rng.state, *cfg) == gp,
        decreases cfg.cutoff - j,
    {
        let parent = sorted[j].shape;
        let ghost gpm = spec_push_mutants(out@, parent, m_spec, rng.state, *cfg);
        let mut c: usize = 0;
        while c < m
            invariant
                c <= m,
                config_ok(*cfg),
                m as nat == m_spec,
                shape_bounded(parent),
                forall|i: int| 0 <= i < out.len() ==> shape_bounded(#[trigger] out@[i]),
                spec_push_mutants(out@, parent, (m - c) as nat, rng.state, *cfg) == gpm,
            decreases m - c,
        {
            let mu = mutate_shape(&parent, rng, cfg);
            out.push(mu);
            c = c + 1;
        }
        j = j + 1;
    }
    let ghost gpad = spec_pad(gp.0, sorted@[0].shape, gp.1, *cfg);
    let elite = sorted[0].shape;
    while out.len() < cfg.total_shapes
        invariant
            config_ok(*cfg),
            elite == sorted@[0].shape,
            shape_bounded(elite),
            forall|i: int| 0 <= i < out.len() ==> shape_bounded(#[trigger] out@[i]),
            spec_pad(out@, elite, rng.state, *cfg) == gpad,
        decreases cfg.total_shapes - out.len(),
    {
        let mu = mutate_shape(&elite, rng, cfg);
        out.push(mu);
    }
    out
}

/// Top up a population with freshly sampled candidates until it reaches the
/// configured size.
pub fn populate(
    shapes: &mut Vec<Shape>,
    rng: &mut SplitMix,
    w: usize,
    h: usize,
    nspr: usize,
    cfg: &Config,
)
    requires
        config_ok(*cfg),
        1 <= w <= 4096,
        1 <= h <= 4096,
        1 <= nspr,
    ensures
        (final(shapes)@, final(rng).state) == spec_populate(
            old(shapes)@,
            old(rng).state,
            w as u64,
            h as u64,
            nspr as u64,
            *cfg,
        ),
{
    let ghost gtarget = spec_populate(
        shapes@,
        rng.state,
        w as u64,
        h as u64,
        nspr as u64,
        *cfg,
    );
    while shapes.len() < cfg.total_shapes
        invariant
            config_ok(*cfg),
            1 <= w <= 4096,
            1 <= h <= 4096,
            1 <= nspr,
            spec_populate(shapes@, rng.state, w as u64, h as u64, nspr as u64, *cfg) == gtarget,
        decreases cfg.total_shapes - shapes.len(),
    {
        let s = sample_shape(rng, w, h, nspr, cfg);
        shapes.push(s);
    }
}

/// The shapes of a scored population, in order.
pub open spec fn spec_shapes_of(sorted: Seq<Scored>) -> Seq<Shape> {
    Seq::new(sorted.len(), |i: int| sorted[i].shape)
}

/// The sorted scored population after `r` refinement rounds: evaluate, then
/// `r` times sort, breed and re-evaluate, then sort once more.
pub open spec fn spec_rounds(
    scored: Seq<Scored>,
    st: u64,
    r: nat,
    atlas: Atlas,
    target: Img,
    cpix: Seq<Rgba>,
    cfg: Config,
) -> (Seq<Scored>, u64)
    decreases r,
{
    if r == 0 {
        (spec_sort(scored), st)
    } else {
        let sorted = spec_sort(scored);
        let g = spec_next_gen(sorted, st, cfg);
        spec_rounds(
            spec_scored(g.0, atlas, target, cpix, cfg.opacity as int),
            g.1,
            (r - 1) as nat,
            atlas,
            target,
            cpix,
            cfg,
        )
    }
}

/// The sorted population an outer iteration decides on, and the generator
/// state after it: the baseline top-up followed by the refinement rounds.
pub open spec fn spec_step_sorted(
    shapes: Seq<Shape>,
    st: u64,
    cpix: Seq<Rgba>,
    cfg: Config,
    atlas: Atlas,
    target: Img,
) -> (Seq<Scored>, u64) {
    let p = spec_populate(
        shapes,
        st,
        target.width as u64,
        target.height as u64,
        atlas.frames.len() as u64,
        cfg,
    );
    spec_rounds(
        spec_scored(p.0, atlas, target, cpix, cfg.opacity as int),
        p.1,
        cfg.adjustments as nat,
        atlas,
        target,
        cpix,
        cfg,
    )
}

/// The placement an accepted iteration emits for the winning candidate.
pub open spec fn spec_accepted_placement(sorted: Seq<Scored>, atlas: Atlas, layer: int)
    -> Placement {
    let best = sorted[0];
    let tint = spec_record_tint(best.rec);
    Placement {
        sprite_id: atlas.frames[best.shape.img_index as int].id,
        img_index: best.shape.img_index,
        x: best.shape.x,
        y: best.shape.y,
        scale: best.shape.scale,
        rot: best.shape.rot,
        tint_r: tint.0 as u8,
        tint_g: tint.1 as u8,
        tint_b: tint.2 as u8,
        layer: layer as usize,
    }
}

/// One outer iteration of the engine over its plain-value state
/// `(population, generator, canvas pixels, placements, layer)`: top up,
/// refine, then either reject (canvas and placements unchanged, population
/// kept as the sorted survivors of the refinement) or commit the winner
/// (canvas pasted, placement appended, population truncated to the
/// configured survivor count).
pub open spec fn spec_engine_step(
    shapes: Seq<Shape>,
    st: u64,
    cpix: Seq<Rgba>,
    pls: Seq<Placement>,
    layer: int,
    cfg: Config,
    atlas: Atlas,
    target: Img,
) -> (Seq<Shape>, u64, Seq<Rgba>, Seq<Placement>, int) {
    let sr = spec_step_sorted(shapes, st, cpix, cfg, atlas, target);
    let sorted = sr.0;
    let best = sorted[0];
    if best.rec.diff >= 0 {
        (spec_shapes_of(sorted), sr.1, cpix, pls, layer + 1)
    } else {
        let tint = spec_record_tint(best.rec);
        let newpix = Seq::new(
            cpix.len(),
            |i: int|
                spec_pasted_pixel_at(
                    best.shape,
                    atlas,
                    atlas.frames[best.shape.img_index as int],
                    target.width as int,
                    cpix,
                    tint,
                    cfg.opacity as int,
                    i,
                ),
        );
        (
            spec_shapes_of(sorted).take(cfg.passed_on as int),
            sr.1,
            newpix,
            pls.push(spec_accepted_placement(sorted, atlas, layer)),
            layer + 1,
        )
    }
}

/// The engine state after `k` outer iterations.
pub open spec fn spec_run_state(
    stt: (Seq<Shape>, u64, Seq<Rgba>, Seq<Placement>, int),
    k: nat,
    cfg: Config,
    atlas: Atlas,
    target: Img,
) -> (Seq<Shape>, u64, Seq<Rgba>, Seq<Placement>, int)
    decreases k,
{
    if k == 0 {
        stt
    } else {
        spec_run_state(
            spec_engine_step(stt.0, stt.1, stt.2, stt.3, stt.4, cfg, atlas, target),
            (k - 1) as nat,
            cfg,
            atlas,
            target,
        )
    }
}

/// The fields of an evaluated record are within their counting bounds, so
/// its tint always resolves without overflow or division error.
pub proof fn lemma_eval_record_bounds(s: Shape, atlas: Atlas, target: Img, cpix: Seq<Rgba>, q: int)
    requires
        target.wf(),
    ensures
        ({
            let rec = spec_eval_one(s, atlas, target, cpix, q);
            &&& rec.tint_r <= 255 * rec.count
            &&& rec.tint_g <= 255 * rec.count
            &&& rec.tint_b <= 255 * rec.count
        }),
{
    reveal(spec_eval_one);
    let fr = atlas.frames[s.img_index as int];
    let n = (target.width * target.height) as int;
    assert(0 <= n <= 0x1000000) by (nonlinear_arith)
        requires
            n == target.width * target.height,
            1 <= target.width <= 4096,
            1 <= target.height <= 4096,
    ;
    crate::fitness::lemma_tint_sum_bounds(s, atlas, fr, target, n);
    vstd::arithmetic::mul::lemma_mul_inequality(n, 0x1000000, 255);
}

/// The population-based search engine: the persistent canvas, the carried
/// population, the deterministic generator and the accepted placements.
pub struct Engine {
    pub cfg: Config,
    pub atlas: Atlas,
    pub target: Img,
    pub canvas: Img,
    pub shapes: Vec<Shape>,
    pub rng: SplitMix,
    pub placements: Vec<Placement>,
    pub layer: usize,
}

impl Engine {
    pub open spec fn wf(self) -> bool {
        &&& config_ok(self.cfg)
        &&& self.atlas.wf()
        &&& self.target.wf()
        &&& self.canvas.wf()
        &&& self.canvas.width == self.target.width
        &&& self.canvas.height == self.target.height
        &&& self.shapes.len() <= self.cfg.total_shapes
        &&& forall|i: int|
            0 <= i < self.shapes.len() ==> shape_ok(
                #[trigger] self.shapes[i],
                self.atlas.frames.len() as int,
            )
    }

    /// The engine's plain-value state.
    pub open spec fn state(self) -> (Seq<Shape>, u64, Seq<Rgba>, Seq<Placement>, int) {
        (self.shapes@, self.rng.state, self.canvas.pixels@, self.placements@, self.layer as int)
    }

    /// Set up a run: an empty population, a canvas cleared to the flat
    /// `background` color, and the generator seeded from the configuration.
    /// `None` exactly when the configuration is out of range or the target
    /// raster is inconsistent.
    pub fn new(cfg: Config, atlas: Atlas, target: Img, background: Rgba) -> (r: Option<Engine>)
        requires
            atlas.wf(),
        ensures
            match r {
                Some(e) => {
                    &&& e.wf()
                    &&& e.cfg == cfg
                    &&& e.atlas == atlas
                    &&& e.target == target
                    &&& e.canvas.width == target.width
                    &&& e.canvas.height == target.height
                    &&& e.canvas.pixels.len() == target.pixels.len()
                    &&& forall|i: int|
                        0 <= i < e.canvas.pixels.len() ==> e.canvas.pixels[i] == background
                    &&& e.shapes.len() == 0
                    &&& e.rng.state == cfg.seed
                    &&& e.placements.len() == 0
                    &&& e.layer == 0
                    &&& config_ok(cfg)
                    &&& target.wf()
                },
                None => !(config_ok(cfg) && target.wf()),
            },
    {
        if !(1 <= cfg.total_shapes && cfg.total_shapes <= 65536) {
            return None;
        }
        if !(1 <= cfg.cutoff && cfg.cutoff <= cfg.total_shapes) {
            return None;
        }
        if !(1 <= cfg.passed_on && cfg.passed_on <= cfg.total_shapes) {
            return None;
        }
        if !(cfg.opacity <= OPQ_ONE) {
            return None;
        }
        if !(1 <= cfg.scale_min && cfg.scale_min <= cfg.scale_max && cfg.scale_max
            <= SCALE_MAX_FX) {
            return None;
        }
        if !(1 <= target.width && target.width <= 4096 && 1 <= target.height && target.height
            <= 4096) {
            return None;
        }
        proof {
            assert(target.width as int * target.height as int <= 0x1000000) by (nonlinear_arith)
                requires
                    target.width <= 4096,
                    target.height <= 4096,
            ;
        }
        if (target.pixels.len() as u64) != (target.width as u64) * (target.height as u64) {
            return None;
        }
        let canvas = Img::new_filled(target.width, target.height, background);
        let rng = SplitMix::new(cfg.seed);
        Some(
            Engine {
                cfg,
                atlas,
                target,
                canvas,
                shapes: Vec::new(),
                rng,
                placements: Vec::new(),
                layer: 0,
            },
        )
    }
}

/// The refinement rounds of one outer iteration: sort, breed and re-score
/// the population the configured number of times, then sort once more so
/// that the best candidate sits in the first slot. The canvas is only read.
#[verifier::rlimit(100)]
pub fn refine_rounds(
    scored0: Vec<Scored>,
    rng: &mut SplitMix,
    atlas: &Atlas,
    target: &Img,
    canvas: &Img,
    cfg: &Config,
) -> (r: Vec<Scored>)
    requires
        config_ok(*cfg),
        atlas.wf(),
        target.wf(),
        canvas.wf(),
        canvas.width == target.width,
        canvas.height == target.height,
        scored0.len() == cfg.total_shapes,
        forall|i: int|
            0 <= i < scored0.len() ==> shape_ok(
                #[trigger] scored0@[i].shape,
                atlas.frames.len() as int,
            ),
        forall|i: int|
            0 <= i < scored0.len() ==> #[trigger] scored0@[i].rec == spec_eval_one(
                scored0@[i].shape,
                *atlas,
                *target,
                canvas.pixels@,
                cfg.opacity as int,
            ),
    ensures
        (r@, final(rng).state) == spec_rounds(
            scored0@,
            old(rng).state,
            cfg.adjustments as nat,
            *atlas,
            *target,
            canvas.pixels@,
            *cfg,
        ),
        r.len() == cfg.total_shapes,
        forall|i: int|
            0 <= i < r.len() ==> shape_ok(#[trigger] r@[i].shape, atlas.frames.len() as int),
        forall|i: int|
            0 <= i < r.len() ==> #[trigger] r@[i].rec == spec_eval_one(
                r@[i].shape,
                *atlas,
                *target,
                canvas.pixels@,
                cfg.opacity as int,
            ),
{
    let ghost cpix = canvas.pixels@;
    let ghost nspr = atlas.frames.len() as int;
    let q = cfg.opacity;
    let ghost ground = spec_rounds(
        scored0@,
        rng.state,
        cfg.adjustments as nat,
        *atlas,
        *target,
        cpix,
        *cfg,
    );
    let mut scored = scored0;
    let mut round: usize = 0;
    while round < cfg.adjustments
        invariant
            round <= cfg.adjustments,
            config_ok(*cfg),
            atlas.wf(),
            target.wf(),
            canvas.wf(),
            canvas.width == target.width,
            canvas.height == target.height,
            cpix == canvas.pixels@,
            nspr == atlas.frames.len() as int,
            q == cfg.opacity,
            scored.len() == cfg.total_shapes,
            forall|i: int| 0 <= i < scored.len() ==> shape_ok(#[trigger] scored@[i].shape, nspr),
            forall|i: int|
                0 <= i < scored.len() ==> #[trigger] scored@[i].rec == spec_eval_one(
                    scored@[i].shape,
                    *atlas,
                    *target,
                    cpix,
                    q as int,
                ),
            spec_rounds(
                scored@,
                rng.state,
                (cfg.adjustments - round) as nat,
                *atlas,
                *target,
                cpix,
                *cfg,
            ) == ground,
        decreases cfg.adjustments - round,
    {
        let sorted = sort_scored(&scored);
        proof {
            lemma_sort_len(scored@);
            assert forall|k: int| 0 <= k < sorted@.len() implies shape_ok(
                #[trigger] sorted@[k].shape,
                nspr,
            ) by {
                lemma_sort_from(scored@, k);
                let j = choose|j: int|
                    0 <= j < scored@.len() && spec_sort(scored@)[k] == scored@[j];
                assert(shape_ok(scored@[j].shape, nspr));
            }
        }
        let ghost st_before = rng.state;
        let gen = next_generation(&sorted, rng, cfg);
        proof {
            lemma_next_gen_ok(sorted@, st_before, *cfg, nspr);
        }
        scored = score_population(&gen, atlas, target, canvas, q);
        round = round + 1;
    }
    let sorted = sort_scored(&scored);
    proof {
        lemma_sort_len(scored@);
        assert forall|k: int| 0 <= k < sorted@.len() implies shape_ok(
            #[trigger] sorted@[k].shape,
            nspr,
        ) by {
            lemma_sort_from(scored@, k);
            let j = choose|j: int| 0 <= j < scored@.len() && spec_sort(scored@)[k] == scored@[j];
            assert(shape_ok(scored@[j].shape, nspr));
        }
        assert forall|k: int| 0 <= k < sorted@.len() implies #[trigger] sorted@[k].rec
            == spec_eval_one(sorted@[k].shape, *atlas, *target, cpix, q as int) by {
            lemma_sort_from(scored@, k);
            let j = choose|j: int| 0 <= j < scored@.len() && spec_sort(scored@)[k] == scored@[j];
            assert(scored@[j].rec == spec_eval_one(
                scored@[j].shape,
                *atlas,
                *target,
                cpix,
                q as int,
            ));
        }
    }
    sorted
}

impl Engine {
    /// One outer iteration: top up the population, refine it for the
    /// configured number of rounds, then accept the best candidate (pasting
    /// it into the canvas and emitting its placement) exactly when its score
    /// is negative; on rejection the population is kept, not reset. Returns
    /// the accepted placement, if any.
    #[verifier::rlimit(100)]
    pub fn outer_step(&mut self) -> (r: Option<Placement>)
        requires
            old(self).wf(),
            old(self).layer < 0xFFFF_FFFF,
        ensures
            final(self).wf(),
            final(self).cfg == old(self).cfg,
            final(self).atlas == old(self).atlas,
            final(self).target == old(self).target,
            final(self).canvas.width == old(self).canvas.width,
            final(self).canvas.height == old(self).canvas.height,
            final(self).state() == spec_engine_step(
                old(self).shapes@,
                old(self).rng.state,
                old(self).canvas.pixels@,
                old(self).placements@,
                old(self).layer as int,
                old(self).cfg,
                old(self).atlas,
                old(self).target,
            ),
            r == ({
                let sorted = spec_step_sorted(
                    old(self).shapes@,
                    old(self).rng.state,
                    old(self).canvas.pixels@,
                    old(self).cfg,
                    old(self).atlas,
                    old(self).target,
                ).0;
                if sorted[0].rec.diff >= 0 {
                    Option::<Placement>::None
                } else {
                    Option::<Placement>::Some(
                        spec_accepted_placement(sorted, old(self).atlas, old(self).layer as int),
                    )
                }
            }),
    {
        let ghost g_shapes0 = self.shapes@;
        let ghost g_st0 = self.rng.state;
        let ghost cpix = self.canvas.pixels@;
        let ghost g_pls0 = self.placements@;
        let ghost g_layer0 = self.layer as int;
        let w = self.target.width;
        let h = self.target.height;
        let nspr = self.atlas.frames.len();
        let q = self.cfg.opacity;
        populate(&mut self.shapes, &mut self.rng, w, h, nspr, &self.cfg);
        proof {
            lemma_populate_len(
                g_shapes0,
                g_st0,
                w as u64,
                h as u64,
                nspr as u64,
                self.cfg,
            );
        }
        let scored0 = score_population(
            &self.shapes,
            &self.atlas,
            &self.target,
            &self.canvas,
            q,
        );
        let sorted = refine_rounds(
            scored0,
            &mut self.rng,
            &self.atlas,
            &self.target,
            &self.canvas,
            &self.cfg,
        );
        proof {
            assert((sorted@, self.rng.state) == spec_step_sorted(
                g_shapes0,
                g_st0,
                cpix,
                self.cfg,
                self.atlas,
                self.target,
            ));
        }
        let best = sorted[0];
        if best.rec.diff >= 0 {
            let mut survivors: Vec<Shape> = Vec::new();
            let mut k: usize = 0;
            while k < sorted.len()
                invariant
                    k <= sorted.len(),
                    survivors.len() == k,
                    forall|j: int| 0 <= j < k ==> #[trigger] survivors@[j] == sorted@[j].shape,
                decreases sorted.len() - k,
            {
                survivors.push(sorted[k].shape);
                k = k + 1;
            }
            proof {
                assert(survivors@ =~= spec_shapes_of(sorted@));
            }
            self.shapes = survivors;
            self.layer = self.layer + 1;
            None
        } else {
            proof {
                lemma_eval_record_bounds(best.shape, self.atlas, self.target, cpix, q as int);
            }
            let tint = crate::commit::resolve_tint(&best.rec);
            let best_shape = best.shape;
            crate::commit::paste(&mut self.canvas, &best_shape, &self.atlas, tint, q);
            proof {
                let g_tint = spec_record_tint(best.rec);
                assert(self.canvas.pixels@ =~= Seq::new(
                    cpix.len(),
                    |i: int|
                        spec_pasted_pixel_at(
                            best.shape,
                            self.atlas,
                            self.atlas.frames[best.shape.img_index as int],
                            self.target.width as int,
                            cpix,
                            g_tint,
                            q as int,
                            i,
                        ),
                ));
            }
            let pl = Placement {
                sprite_id: self.atlas.frames[best_shape.img_index].id,
                img_index: best_shape.img_index,
                x: best_shape.x,
                y: best_shape.y,
                scale: best_shape.scale,
                rot: best_shape.rot,
                tint_r: tint.0,
                tint_g: tint.1,
                tint_b: tint.2,
                layer: self.layer,
            };
            proof {
                assert(pl == spec_accepted_placement(sorted@, self.atlas, g_layer0));
            }
            self.placements.push(pl);
            let mut survivors: Vec<Shape> = Vec::new();
            let mut k: usize = 0;
            while k < self.cfg.passed_on
                invariant
                    k <= self.cfg.passed_on,
                    self.cfg.passed_on <= sorted.len(),
                    survivors.len() == k,
                    forall|j: int| 0 <= j < k ==> #[trigger] survivors@[j] == sorted@[j].shape,
                decreases self.cfg.passed_on - k,
            {
                survivors.push(sorted[k].shape);
                k = k + 1;
            }
            proof {
                assert(survivors@ =~= spec_shapes_of(sorted@).take(self.cfg.passed_on as int));
            }
            self.shapes = survivors;
            self.layer = self.layer + 1;
            Some(pl)
        }
    }

    /// Run the configured number of outer iterations. The final state is a
    /// proven function of the starting state, so a whole run is reproducible
    /// from the seed and the inputs alone.
    pub fn run(&mut self)
        requires
            old(self).wf(),
            old(self).layer + old(self).cfg.iterations < 0xFFFF_FFFF,
        ensures
            final(self).wf(),
            final(self).cfg == old(self).cfg,
            final(self).atlas == old(self).atlas,
            final(self).target == old(self).target,
            final(self).state() == spec_run_state(
                old(self).state(),
                old(self).cfg.iterations as nat,
                old(self).cfg,
                old(self).atlas,
                old(self).target,
            ),
    {
        let ghost ground = spec_run_state(
            self.state(),
            self.cfg.iterations as nat,
            self.cfg,
            self.atlas,
            self.target,
        );
        let iterations = self.cfg.iterations;
        let mut k: usize = 0;
        while k < iterations
            invariant
                k <= iterations,
                self.wf(),
                self.cfg == old(self).cfg,
                self.atlas == old(self).atlas,
                self.target == old(self).target,
                iterations == self.cfg.iterations,
                self.layer as int == old(self).layer + k,
                old(self).layer + old(self).cfg.iterations < 0xFFFF_FFFF,
                spec_run_state(
                    self.state(),
                    (iterations - k) as nat,
                    self.cfg,
                    self.atlas,
                    self.target,
                ) == ground,
            decreases iterations - k,
        {
            let _ = self.outer_step();
            k = k + 1;
        }
    }
}

/// Determinism modulo the random seed: the run-state function is a pure
/// function of the starting state, so two runs begun from the same seed,
/// target, sprite library and configuration go through identical states and
/// emit identical placement sequences. Together with `Engine::run`'s
/// contract, which pins the final state to this function, a whole run is
/// reproducible.
pub proof fn lemma_run_deterministic(
    s1: (Seq<Shape>, u64, Seq<Rgba>, Seq<Placement>, int),
    s2: (Seq<Shape>, u64, Seq<Rgba>, Seq<Placement>, int),
    k: nat,
    cfg: Config,
    atlas: Atlas,
    target: Img,
)
    requires
        s1 == s2,
    ensures
        spec_run_state(s1, k, cfg, atlas, target) == spec_run_state(s2, k, cfg, atlas, target),
        spec_run_state(s1, k, cfg, atlas, target).3 == spec_run_state(s2, k, cfg, atlas, target).3,
{
}

/// The scored population at the end of the refinement rounds keeps its
/// configured size, and every entry still carries exactly the record that
/// one evaluation against the canvas assigns its candidate.
pub proof fn lemma_rounds_ok(
    scored: Seq<Scored>,
    st: u64,
    r: nat,
    atlas: Atlas,
    target: Img,
    cpix: Seq<Rgba>,
    cfg: Config,
)
    requires
        config_ok(cfg),
        scored.len() == cfg.total_shapes,
        forall|i: int|
            0 <= i < scored.len() ==> shape_ok(#[trigger] scored[i].shape, atlas.frames.len() as int),
        forall|i: int|
            0 <= i < scored.len() ==> #[trigger] scored[i].rec == spec_eval_one(
                scored[i].shape,
                atlas,
                target,
                cpix,
                cfg.opacity as int,
            ),
    ensures
        ({
            let rr = spec_rounds(scored, st, r, atlas, target, cpix, cfg);
            &&& rr.0.len() == cfg.total_shapes
            &&& forall|i: int|
                0 <= i < rr.0.len() ==> shape_ok(#[trigger] rr.0[i].shape, atlas.frames.len() as int)
            &&& forall|i: int|
                0 <= i < rr.0.len() ==> #[trigger] rr.0[i].rec == spec_eval_one(
                    rr.0[i].shape,
                    atlas,
                    target,
                    cpix,
                    cfg.opacity as int,
                )
        }),
    decreases r,
{
    let nspr = atlas.frames.len() as int;
    let sorted = spec_sort(scored);
    lemma_sort_len(scored);
    assert forall|k: int| 0 <= k < sorted.len() implies shape_ok(
        #[trigger] sorted[k].shape,
        nspr,
    ) by {
        lemma_sort_from(scored, k);
        let j = choose|j: int| 0 <= j < scored.len() && spec_sort(scored)[k] == scored[j];
        assert(shape_ok(scored[j].shape, nspr));
    }
    if r == 0 {
        assert forall|k: int| 0 <= k < sorted.len() implies #[trigger] sorted[k].rec
            == spec_eval_one(sorted[k].shape, atlas, target, cpix, cfg.opacity as int) by {
            lemma_sort_from(scored, k);
            let j = choose|j: int| 0 <= j < scored.len() && spec_sort(scored)[k] == scored[j];
            assert(scored[j].rec == spec_eval_one(
                scored[j].shape,
                atlas,
                target,
                cpix,
                cfg.opacity as int,
            ));
        }
    } else {
        let g = spec_next_gen(sorted, st, cfg);
        lemma_next_gen_ok(sorted, st, cfg, nspr);
        lemma_rounds_ok(
            spec_scored(g.0, atlas, target, cpix, cfg.opacity as int),
            g.1,
            (r - 1) as nat,
            atlas,
            target,
            cpix,
            cfg,
        );
    }
}

/// The sorted population an outer iteration decides on keeps the configured
/// size and honest records.
pub proof fn lemma_step_sorted_ok(
    shapes: Seq<Shape>,
    st: u64,
    cpix: Seq<Rgba>,
    cfg: Config,
    atlas: Atlas,
    target: Img,
)
    requires
        config_ok(cfg),
        target.wf(),
        atlas.frames.len() >= 1,
        shapes.len() <= cfg.total_shapes,
        forall|i: int|
            0 <= i < shapes.len() ==> shape_ok(#[trigger] shapes[i], atlas.frames.len() as int),
    ensures
        ({
            let sr = spec_step_sorted(shapes, st, cpix, cfg, atlas, target);
            &&& sr.0.len() == cfg.total_shapes
            &&& forall|i: int|
                0 <= i < sr.0.len() ==> shape_ok(#[trigger] sr.0[i].shape, atlas.frames.len() as int)
            &&& forall|i: int|
                0 <= i < sr.0.len() ==> #[trigger] sr.0[i].rec == spec_eval_one(
                    sr.0[i].shape,
                    atlas,
                    target,
                    cpix,
                    cfg.opacity as int,
                )
        }),
{
    lemma_populate_len(
        shapes,
        st,
        target.width as u64,
        target.height as u64,
        atlas.frames.len() as u64,
        cfg,
    );
    let p = spec_populate(
        shapes,
        st,
        target.width as u64,
        target.height as u64,
        atlas.frames.len() as u64,
        cfg,
    );
    lemma_rounds_ok(
        spec_scored(p.0, atlas, target, cpix, cfg.opacity as int),
        p.1,
        cfg.adjustments as nat,
        atlas,
        target,
        cpix,
        cfg,
    );
}

/// The tint a record of one evaluation resolves to is the candidate's
/// alpha-weighted mean target color.
proof fn lemma_record_tint_is_tint_of(s: Shape, atlas: Atlas, target: Img, cpix: Seq<Rgba>, q: int)
    requires
        target.wf(),
    ensures
        spec_record_tint(spec_eval_one(s, atlas, target, cpix, q)) == crate::fitness::spec_tint_of(
            s,
            atlas,
            atlas.frames[s.img_index as int],
            target,
        ),
{
    reveal(spec_eval_one);
    let fr = atlas.frames[s.img_index as int];
    let n = (target.width * target.height) as int;
    assert(0 <= n <= 0x1000000) by (nonlinear_arith)
        requires
            n == target.width * target.height,
            1 <= target.width <= 4096,
            1 <= target.height <= 4096,
    ;
    crate::fitness::lemma_tint_sum_bounds(s, atlas, fr, target, n);
    vstd::arithmetic::mul::lemma_mul_inequality(n, 0x1000000, 255);
}

/// Monotonic improvement at the engine level: an outer iteration never
/// increases the canvas's reference error against the target, and strictly
/// decreases it whenever it accepts a candidate (the accepted score is
/// negative, and the paste changes the error by exactly that score).
pub proof fn lemma_engine_step_monotone(
    shapes: Seq<Shape>,
    st: u64,
    cpix: Seq<Rgba>,
    pls: Seq<Placement>,
    layer: int,
    cfg: Config,
    atlas: Atlas,
    target: Img,
)
    requires
        config_ok(cfg),
        target.wf(),
        atlas.frames.len() >= 1,
        cpix.len() == target.width * target.height,
        shapes.len() <= cfg.total_shapes,
        forall|i: int|
            0 <= i < shapes.len() ==> shape_ok(#[trigger] shapes[i], atlas.frames.len() as int),
    ensures
        ({
            let stepped = spec_engine_step(shapes, st, cpix, pls, layer, cfg, atlas, target);
            let best = spec_step_sorted(shapes, st, cpix, cfg, atlas, target).0[0];
            &&& spec_total_sq_err(stepped.2, target, cpix.len() as int) <= spec_total_sq_err(
                cpix,
                target,
                cpix.len() as int,
            )
            &&& best.rec.diff < 0 ==> spec_total_sq_err(stepped.2, target, cpix.len() as int)
                == spec_total_sq_err(cpix, target, cpix.len() as int) + best.rec.diff
        }),
{
    lemma_step_sorted_ok(shapes, st, cpix, cfg, atlas, target);
    let sr = spec_step_sorted(shapes, st, cpix, cfg, atlas, target);
    let best = sr.0[0];
    let stepped = spec_engine_step(shapes, st, cpix, pls, layer, cfg, atlas, target);
    if best.rec.diff < 0 {
        let fr = atlas.frames[best.shape.img_index as int];
        lemma_record_tint_is_tint_of(best.shape, atlas, target, cpix, cfg.opacity as int);
        crate::commit::lemma_commit_improves(
            best.shape,
            atlas,
            target,
            cpix,
            stepped.2,
            best.rec,
            cfg.opacity as int,
        );
    }
}

} // verus!
