use sprite_mosaic::atlas::{Atlas, Frame};
use sprite_mosaic::engine::{
    next_generation, populate, sort_scored, Config, Engine, Scored,
};
use sprite_mosaic::fitness::FitnessRecord;
use sprite_mosaic::geom::Shape;
use sprite_mosaic::image::{Img, Rgba};
use sprite_mosaic::SplitMix;

const FX: i64 = 65536;

const BLACK: Rgba = Rgba { r: 0, g: 0, b: 0, a: 255 };

fn flat_img(w: usize, h: usize, px: Rgba) -> Img {
    Img { width: w, height: h, pixels: vec![px; w * h] }
}

fn white_sprite_atlas(side: usize) -> Atlas {
    let img = flat_img(side, side, Rgba { r: 255, g: 255, b: 255, a: 255 });
    let frames = vec![Frame { id: 18, x: 0, y: 0, w: side as u32, h: side as u32, rotated: false }];
    Atlas::new(img, frames).unwrap()
}

fn small_config(seed: u64) -> Config {
    Config {
        total_shapes: 4,
        cutoff: 2,
        adjustments: 1,
        passed_on: 1,
        iterations: 1,
        opacity: 256,
        scale_min: FX / 2,
        scale_max: 2 * FX,
        seed,
    }
}

fn rec(diff: i64) -> FitnessRecord {
    FitnessRecord { tint_r: 0, tint_g: 0, tint_b: 0, count: 0, diff }
}

fn shape_at(x: i64) -> Shape {
    Shape { img_index: 0, x, y: 0, scale: FX, rot: 0 }
}

#[test]
fn populate_reaches_total_shapes() {
    let cfg = Config { total_shapes: 7, cutoff: 3, ..small_config(5) };
    let mut shapes: Vec<Shape> = Vec::new();
    let mut rng = SplitMix::new(cfg.seed);
    populate(&mut shapes, &mut rng, 10, 10, 1, &cfg);
    assert_eq!(shapes.len(), 7);
    for s in &shapes {
        assert!(s.x >= 0 && s.x < 10);
        assert!(s.y >= 0 && s.y < 10);
        assert!(s.scale >= cfg.scale_min && s.scale <= cfg.scale_max);
        assert!(s.rot >= 0 && s.rot < 411774);
        assert_eq!(s.img_index, 0);
    }
}

#[test]
fn populate_keeps_existing_candidates() {
    let cfg = small_config(9);
    let kept = shape_at(3);
    let mut shapes = vec![kept];
    let mut rng = SplitMix::new(cfg.seed);
    populate(&mut shapes, &mut rng, 10, 10, 1, &cfg);
    assert_eq!(shapes.len(), 4);
    assert_eq!(shapes[0], kept);
}

#[test]
fn next_generation_size_with_uneven_cutoff() {
    // 7 candidates bred by the best 3: 7 / 3 - 2 = 0 copies per parent, so
    // the generation is the elite plus padding, and still exactly 7.
    let cfg = Config { total_shapes: 7, cutoff: 3, passed_on: 1, ..small_config(1) };
    let sorted: Vec<Scored> =
        (0..7).map(|i| Scored { shape: shape_at(i), rec: rec(i) }).collect();
    let mut rng = SplitMix::new(1);
    let gen = next_generation(&sorted, &mut rng, &cfg);
    assert_eq!(gen.len(), 7);
    assert_eq!(gen[0], shape_at(0));
}

#[test]
fn next_generation_size_with_even_cutoff() {
    // 8 candidates bred by the best 2: 8 / 2 - 2 = 2 copies per parent.
    let cfg = Config { total_shapes: 8, cutoff: 2, passed_on: 2, ..small_config(1) };
    let sorted: Vec<Scored> =
        (0..8).map(|i| Scored { shape: shape_at(i), rec: rec(i) }).collect();
    let mut rng = SplitMix::new(3);
    let gen = next_generation(&sorted, &mut rng, &cfg);
    assert_eq!(gen.len(), 8);
    assert_eq!(gen[0], shape_at(0));
    // The mutated copies keep their parents' sprites and stay near them.
    for (k, parent_x) in [(1, 0i64), (2, 0), (3, 1), (4, 1)] {
        assert!((gen[k].x - parent_x).abs() <= 3);
    }
}

#[test]
fn sort_is_stable_and_ascending() {
    let pop = vec![
        Scored { shape: shape_at(10), rec: rec(5) },
        Scored { shape: shape_at(20), rec: rec(-1) },
        Scored { shape: shape_at(30), rec: rec(5) },
    ];
    let sorted = sort_scored(&pop);
    assert_eq!(sorted.len(), 3);
    assert_eq!(sorted[0].rec.diff, -1);
    assert_eq!(sorted[1].shape.x, 10);
    assert_eq!(sorted[2].shape.x, 30);
}

#[test]
fn rng_is_deterministic_per_seed() {
    let mut a = SplitMix::new(42);
    let mut b = SplitMix::new(42);
    for _ in 0..8 {
        assert_eq!(a.next_u64(), b.next_u64());
    }
    let mut c = SplitMix::new(42);
    assert_eq!(c.next_u64(), 13679457532755275413);
    assert_eq!(c.next_u64(), 2949826092126892291);
    assert_eq!(c.next_u64(), 5139283748462763858);
    let mut d = SplitMix::new(7);
    assert_eq!(d.below(10), 7);
}

#[test]
fn gray_scenario_accepts_with_gray_tint() {
    // A flat 10 by 10 gray target, one fully opaque white square sprite,
    // four candidates, one refinement round, full opacity: the first outer
    // iteration must accept a placement whose resolved tint is the gray of
    // the target and whose score was negative (acceptance implies it).
    let target = flat_img(10, 10, Rgba { r: 128, g: 128, b: 128, a: 255 });
    let atlas = white_sprite_atlas(4);
    let cfg = small_config(11);
    let mut engine = Engine::new(cfg, atlas, target, BLACK).unwrap();
    let before = sprite_mosaic::image::total_sq_error(&engine.canvas, &engine.target);
    let placed = engine.outer_step();
    let after = sprite_mosaic::image::total_sq_error(&engine.canvas, &engine.target);
    assert!(after < before);
    let pl = placed.expect("the first iteration must find an improvement");
    assert_eq!(pl.tint_r, 128);
    assert_eq!(pl.tint_g, 128);
    assert_eq!(pl.tint_b, 128);
    assert_eq!(pl.layer, 0);
    assert_eq!(engine.placements.len(), 1);
    assert_eq!(engine.shapes.len(), 1);
}

#[test]
fn rejected_iteration_keeps_population() {
    // A canvas that already matches the target perfectly cannot be
    // improved: black target, and the sprite pastes at the canvas color.
    let target = flat_img(6, 6, Rgba { r: 0, g: 0, b: 0, a: 255 });
    let atlas = white_sprite_atlas(4);
    let cfg = small_config(2);
    let mut engine = Engine::new(cfg, atlas, target, BLACK).unwrap();
    let placed = engine.outer_step();
    assert!(placed.is_none());
    assert_eq!(engine.placements.len(), 0);
    // On rejection the whole population is carried, not reset.
    assert_eq!(engine.shapes.len(), 4);
}

#[test]
fn runs_with_equal_seeds_agree() {
    let target = flat_img(10, 10, Rgba { r: 140, g: 90, b: 30, a: 255 });
    let cfg = Config { iterations: 3, ..small_config(77) };
    let mut e1 = Engine::new(cfg, white_sprite_atlas(4), target, BLACK).unwrap();
    let target2 = flat_img(10, 10, Rgba { r: 140, g: 90, b: 30, a: 255 });
    let mut e2 = Engine::new(cfg, white_sprite_atlas(4), target2, BLACK).unwrap();
    e1.run();
    e2.run();
    assert_eq!(e1.placements, e2.placements);
    assert_eq!(e1.canvas.pixels, e2.canvas.pixels);
    assert_eq!(e1.rng.state, e2.rng.state);
}

#[test]
fn canvas_error_never_increases() {
    // The monotonic-improvement law, exercised end to end: the reference
    // error of the canvas against the target never grows over iterations.
    let mut target = flat_img(12, 12, Rgba { r: 200, g: 40, b: 90, a: 255 });
    for (i, p) in target.pixels.iter_mut().enumerate() {
        p.g = (i % 251) as u8;
    }
    let cfg = Config { iterations: 4, ..small_config(5) };
    let mut engine = Engine::new(cfg, white_sprite_atlas(3), target, BLACK).unwrap();
    let mut err = sprite_mosaic::image::total_sq_error(&engine.canvas, &engine.target);
    for _ in 0..4 {
        engine.outer_step();
        let next = sprite_mosaic::image::total_sq_error(&engine.canvas, &engine.target);
        assert!(next <= err);
        err = next;
    }
}

#[test]
fn runs_with_different_seeds_step_differently() {
    let mut a = SplitMix::new(1);
    let mut b = SplitMix::new(2);
    assert_ne!(a.next_u64(), b.next_u64());
}

#[test]
fn engine_rejects_bad_config() {
    let target = flat_img(4, 4, Rgba { r: 0, g: 0, b: 0, a: 255 });
    let atlas = white_sprite_atlas(2);
    let cfg = Config { cutoff: 9, ..small_config(0) };
    assert!(Engine::new(cfg, atlas, target, BLACK).is_none());
}

#[test]
fn engine_rejects_oversized_target() {
    let atlas = white_sprite_atlas(2);
    let target = flat_img(4097, 1, BLACK);
    assert!(Engine::new(small_config(0), atlas, target, BLACK).is_none());
}

#[test]
fn engine_rejects_inconsistent_target() {
    let atlas = white_sprite_atlas(2);
    let target = Img { width: 4, height: 4, pixels: vec![Rgba { r: 0, g: 0, b: 0, a: 255 }; 15] };
    assert!(Engine::new(small_config(0), atlas, target, BLACK).is_none());
}
