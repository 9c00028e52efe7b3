use sprite_mosaic::commit::Placement;
use sprite_mosaic::encode::{encode_placement, level_bytes};
use sprite_mosaic::geom::{build_quad, cos_fx, local_uv, sin_fx, Shape};
use sprite_mosaic::atlas::Frame;

const FX: i64 = 65536;

fn record_string(pl: &Placement) -> String {
    String::from_utf8(encode_placement(pl)).unwrap()
}

#[test]
fn encode_gray_placement() {
    let pl = Placement {
        sprite_id: 18,
        img_index: 0,
        x: 100,
        y: 40,
        scale: FX,
        rot: 0,
        tint_r: 128,
        tint_g: 128,
        tint_b: 128,
        layer: 7,
    };
    assert_eq!(
        record_string(&pl),
        "1,18,2,50,3,-20,6,0,32,1,41,1,43,0a0a0.736a0a0,21,1,22,2,25,7,24,-1;"
    );
}

#[test]
fn encode_negative_position_and_rotation() {
    let pl = Placement {
        sprite_id: 211,
        img_index: 0,
        x: -3,
        y: 5,
        scale: 98304,
        rot: 102944,
        tint_r: 255,
        tint_g: 0,
        tint_b: 0,
        layer: 0,
    };
    assert_eq!(
        record_string(&pl),
        "1,211,2,-1.5,3,-2.5,6,90,32,1.5,41,1,43,0a0.999a1a0a0,21,1,22,2,25,0,24,-1;"
    );
}

#[test]
fn encode_renders_minimal_decimals() {
    // Integral values carry no decimal point; fractional values trim
    // trailing zeros, matching the original record text.
    let pl = Placement {
        sprite_id: 7,
        img_index: 0,
        x: 1,
        y: -1,
        scale: 72090,
        rot: 0,
        tint_r: 0,
        tint_g: 0,
        tint_b: 0,
        layer: 2,
    };
    let s = record_string(&pl);
    assert!(s.starts_with("1,7,2,0.5,3,0.5,6,0,32,1.1,"));
}


#[test]
fn level_output_is_header_plus_records() {
    let pl = Placement {
        sprite_id: 18,
        img_index: 0,
        x: 100,
        y: 40,
        scale: FX,
        rot: 0,
        tint_r: 128,
        tint_g: 128,
        tint_b: 128,
        layer: 7,
    };
    let level = String::from_utf8(level_bytes(&vec![pl], (1, 2, 3), 800)).unwrap();
    let mut expected = String::new();
    expected.push_str(";1,899,2,-29,3,975,36,1,7,255,8,0,9,0,10,0,35,0.8,23,1;");
    expected.push_str("1,899,2,-29,3,1005,36,1,7,1,8,2,9,3,10,0,35,1,23,1000;");
    expected.push_str("1,18,2,50,3,-20,6,0,32,1,41,1,43,0a0a0.736a0a0,21,1,22,2,25,7,24,-1;");
    assert_eq!(level, expected);
}

#[test]
fn level_output_of_no_placements_is_the_header() {
    let level = String::from_utf8(level_bytes(&Vec::new(), (0, 0, 0), 1000)).unwrap();
    assert_eq!(
        level,
        ";1,899,2,-29,3,975,36,1,7,255,8,0,9,0,10,0,35,1,23,1;1,899,2,-29,3,1005,36,1,7,0,8,0,9,0,10,0,35,1,23,1000;"
    );
}

#[test]
fn trig_quarter_points() {
    assert_eq!(sin_fx(0), 0);
    assert_eq!(sin_fx(102944), 65535);
    assert_eq!(sin_fx(205887), 0);
    assert_eq!(sin_fx(205887 + 102944), -65535);
    assert_eq!(cos_fx(0), 65535);
}

#[test]
fn local_uv_identity_transform() {
    // A 4 by 4 sprite centered at (5, 5) with unit scale and no rotation
    // covers the 4 by 4 block around its center.
    let s = Shape { img_index: 0, x: 5, y: 5, scale: FX, rot: 0 };
    assert_eq!(local_uv(&s, 5, 5, 4, 4), (2, 2));
    assert_eq!(local_uv(&s, 6, 5, 4, 4), (2, 2));
    assert_eq!(local_uv(&s, 4, 5, 4, 4), (1, 2));
    assert_eq!(local_uv(&s, 3, 6, 4, 4), (0, 2));
    // Two pixels to the left falls off the sprite.
    let (u, _) = local_uv(&s, 1, 5, 4, 4);
    assert!(u < 0 || u >= 4);
}

#[test]
fn quad_of_unrotated_sprite() {
    let s = Shape { img_index: 0, x: 0, y: 0, scale: FX, rot: 0 };
    let fr = Frame { id: 1, x: 0, y: 0, w: 4, h: 4, rotated: false };
    let q = build_quad(&s, &fr, 4, 4, 10, 10);
    // Half extent two pixels, cosine 65535/65536.
    assert_eq!(q.tl.x, -131070);
    assert_eq!(q.tl.y, -131070);
    assert_eq!(q.br.x, 131070);
    assert_eq!(q.br.y, 131070);
    // Texture corners span the whole sheet.
    assert_eq!((q.tl.u, q.tl.v), (0, 0));
    assert_eq!((q.br.u, q.br.v), (65536, 65536));
    assert_eq!((q.bl.u, q.bl.v), (0, 65536));
    assert_eq!((q.tr.u, q.tr.v), (65536, 0));
    // Target-normalized coordinates divide by the canvas side.
    assert_eq!(q.tl.tx, -13107);
    assert_eq!(q.br.tx, 13107);
}

#[test]
fn quad_of_rotated_frame_cycles_uvs() {
    // The cycle undoes the packer's clockwise quarter turn, matching the
    // texel sampler's convention: the logical top-left corner sits at the
    // packed rectangle's top-right.
    let s = Shape { img_index: 0, x: 0, y: 0, scale: FX, rot: 0 };
    let fr = Frame { id: 1, x: 0, y: 0, w: 4, h: 4, rotated: true };
    let q = build_quad(&s, &fr, 4, 4, 10, 10);
    assert_eq!((q.tl.u, q.tl.v), (65536, 0));
    assert_eq!((q.bl.u, q.bl.v), (0, 0));
    assert_eq!((q.br.u, q.br.v), (0, 65536));
    assert_eq!((q.tr.u, q.tr.v), (65536, 65536));
}
