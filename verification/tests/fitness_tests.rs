use sprite_mosaic::atlas::{sprite_texel, Atlas, Frame};
use sprite_mosaic::commit::{paste, resolve_tint};
use sprite_mosaic::fitness::{evaluate_one, evaluate_population, read_scores};
use sprite_mosaic::geom::Shape;
use sprite_mosaic::image::{color_diff, color_sq_err, img_difference, total_sq_error, Img, Rgba};

const FX: i64 = 65536;

fn px(r: u8, g: u8, b: u8) -> Rgba {
    Rgba { r, g, b, a: 255 }
}

fn flat_img(w: usize, h: usize, p: Rgba) -> Img {
    Img { width: w, height: h, pixels: vec![p; w * h] }
}

fn one_sprite_atlas(p: Rgba) -> Atlas {
    let img = Img { width: 1, height: 1, pixels: vec![p] };
    let frames = vec![Frame { id: 1, x: 0, y: 0, w: 1, h: 1, rotated: false }];
    Atlas::new(img, frames).unwrap()
}

fn unit_shape() -> Shape {
    Shape { img_index: 0, x: 0, y: 0, scale: FX, rot: 0 }
}

#[test]
fn sq_err_exact_values() {
    assert_eq!(color_sq_err(px(0, 0, 0), px(0, 0, 0)), 0);
    assert_eq!(color_sq_err(px(10, 0, 0), px(4, 0, 0)), 36);
    assert_eq!(color_sq_err(px(255, 255, 255), px(0, 0, 0)), 3 * 65025);
}

#[test]
fn color_diff_exact_value() {
    // (1024 + dr) * dr^2 + 2048 * dg^2 + (1534 - dr) * db^2, with
    // dr = 10, dg = -2, db = 1: 103400 + 8192 + 1524.
    assert_eq!(color_diff(px(20, 0, 3), px(10, 2, 2)), 103400 + 8192 + 1524);
    assert_eq!(color_diff(px(7, 7, 7), px(7, 7, 7)), 0);
}

#[test]
fn total_sq_error_sums_pixels() {
    let a = flat_img(2, 2, px(10, 0, 0));
    let b = flat_img(2, 2, px(4, 0, 0));
    assert_eq!(total_sq_error(&a, &b), 4 * 36);
    assert_eq!(total_sq_error(&a, &a), 0);
}

#[test]
fn img_difference_sums_all_pixels() {
    let a = flat_img(2, 2, px(20, 0, 3));
    let b = flat_img(2, 2, px(10, 2, 2));
    assert_eq!(img_difference(&a, &b), 4 * (103400 + 8192 + 1524));
}

#[test]
fn img_difference_sees_a_single_unit_change() {
    // A one-level difference in one channel of one pixel of a large image
    // must still report a positive difference: the sum is exact, never a
    // floored mean.
    let a = flat_img(64, 64, px(10, 20, 30));
    let mut b = flat_img(64, 64, px(10, 20, 30));
    assert_eq!(img_difference(&a, &b), 0);
    b.pixels[1000].r = 11;
    assert_eq!(img_difference(&a, &b), 1023);
    assert!(img_difference(&a, &b) > 0);
}


#[test]
fn mean_rgb_is_floored_channel_mean() {
    let mut img = flat_img(2, 2, px(10, 20, 30));
    img.pixels[3] = px(11, 21, 33);
    let m = sprite_mosaic::image::mean_rgb(&img);
    // Sums 41, 81, 123 over four pixels, floored.
    assert_eq!((m.r, m.g, m.b, m.a), (10, 20, 30, 255));
    let flat = flat_img(3, 3, px(7, 8, 9));
    let mf = sprite_mosaic::image::mean_rgb(&flat);
    assert_eq!((mf.r, mf.g, mf.b), (7, 8, 9));
}

#[test]
fn score_is_negative_when_paste_helps() {
    // One white opaque texel over a black canvas, gray target: the paste
    // recolors the pixel to the target exactly, so the score must be the
    // full negative of the current error.
    let target = flat_img(1, 1, px(128, 128, 128));
    let canvas = flat_img(1, 1, px(0, 0, 0));
    let atlas = one_sprite_atlas(px(255, 255, 255));
    let rec = evaluate_one(&unit_shape(), &atlas, &target, &canvas, 256);
    assert_eq!(rec.count, 255);
    assert_eq!(rec.tint_r, 255 * 128);
    assert_eq!(resolve_tint(&rec), (128, 128, 128));
    assert_eq!(rec.diff, -3 * 128 * 128);
}

#[test]
fn score_is_positive_when_paste_hurts() {
    // The canvas already equals the target; a black opaque sprite would
    // repaint the pixel to black, strictly increasing the error.
    let target = flat_img(1, 1, px(128, 128, 128));
    let canvas = flat_img(1, 1, px(128, 128, 128));
    let atlas = one_sprite_atlas(Rgba { r: 0, g: 0, b: 0, a: 255 });
    let rec = evaluate_one(&unit_shape(), &atlas, &target, &canvas, 256);
    assert!(rec.diff > 0);
    assert_eq!(rec.diff, 3 * 128 * 128);
}

#[test]
fn score_is_zero_when_paste_changes_nothing() {
    let target = flat_img(1, 1, px(128, 128, 128));
    let canvas = flat_img(1, 1, px(128, 128, 128));
    let atlas = one_sprite_atlas(px(255, 255, 255));
    let rec = evaluate_one(&unit_shape(), &atlas, &target, &canvas, 256);
    assert_eq!(rec.diff, 0);
}

#[test]
fn transparent_footprint_resolves_black_tint() {
    // A fully transparent sprite samples zero alpha: the tint must resolve
    // to black without any division error, and the paste must be a no-op.
    let target = flat_img(2, 2, px(200, 100, 50));
    let canvas = flat_img(2, 2, px(1, 2, 3));
    let atlas = one_sprite_atlas(Rgba { r: 255, g: 255, b: 255, a: 0 });
    let rec = evaluate_one(&unit_shape(), &atlas, &target, &canvas, 256);
    assert_eq!(rec.count, 0);
    assert_eq!(resolve_tint(&rec), (0, 0, 0));
    assert_eq!(rec.diff, 0);
}

#[test]
fn paste_error_change_equals_score() {
    // The proven decomposition, exercised on concrete data: the reference
    // error after a paste differs from the one before by exactly the score.
    let target = flat_img(3, 3, px(90, 150, 210));
    let mut canvas = flat_img(3, 3, px(10, 20, 30));
    let atlas = one_sprite_atlas(px(250, 250, 250));
    let shape = Shape { img_index: 0, x: 1, y: 1, scale: 2 * FX, rot: 0 };
    let before = total_sq_error(&canvas, &target) as i64;
    let rec = evaluate_one(&shape, &atlas, &target, &canvas, 256);
    let tint = resolve_tint(&rec);
    paste(&mut canvas, &shape, &atlas, tint, 256);
    let after = total_sq_error(&canvas, &target) as i64;
    assert_eq!(after, before + rec.diff);
    assert!(rec.diff < 0);
    assert!(after < before);
}

#[test]
fn evaluate_population_is_per_candidate() {
    let target = flat_img(2, 2, px(60, 60, 60));
    let canvas = flat_img(2, 2, px(0, 0, 0));
    let atlas = one_sprite_atlas(px(255, 255, 255));
    let shapes = vec![
        unit_shape(),
        Shape { img_index: 0, x: 1, y: 1, scale: FX, rot: 0 },
    ];
    let recs = evaluate_population(&shapes, &atlas, &target, &canvas, 256);
    assert_eq!(recs.len(), 2);
    let solo0 = evaluate_one(&shapes[0], &atlas, &target, &canvas, 256);
    let solo1 = evaluate_one(&shapes[1], &atlas, &target, &canvas, 256);
    assert_eq!(recs[0], solo0);
    assert_eq!(recs[1], solo1);
    let buf = read_scores(&recs);
    assert_eq!(buf.diff.len(), 2);
    assert_eq!(buf.diff[0], recs[0].diff);
    assert_eq!(buf.diff[1], recs[1].diff);
}

#[test]
fn rotated_frame_samples_with_quarter_turn() {
    // A 2 by 1 sprite packed rotated occupies a 1 by 2 rectangle in the
    // sheet; reading it back undoes the quarter turn.
    let sheet = Img {
        width: 1,
        height: 2,
        pixels: vec![px(10, 0, 0), px(20, 0, 0)],
    };
    let frames = vec![Frame { id: 2, x: 0, y: 0, w: 1, h: 2, rotated: true }];
    let atlas = Atlas::new(sheet, frames).unwrap();
    // Logical width 2, height 1.
    let a = sprite_texel(&atlas, 0, 0, 0);
    let b = sprite_texel(&atlas, 0, 1, 0);
    assert_eq!((a.r, b.r), (10, 20));
}

#[test]
fn atlas_rejects_out_of_bounds_frames() {
    let sheet = flat_img(4, 4, px(0, 0, 0));
    let frames = vec![Frame { id: 1, x: 3, y: 0, w: 2, h: 1, rotated: false }];
    assert!(Atlas::new(sheet, frames).is_none());
    let sheet2 = flat_img(4, 4, px(0, 0, 0));
    assert!(Atlas::new(sheet2, Vec::new()).is_none());
}
