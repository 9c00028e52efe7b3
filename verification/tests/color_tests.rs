use sprite_mosaic::color::{
    byte_to_fx, delinearize_byte, fx_to_byte, linear_to_srgb, linearize_byte, rgb_to_hsv,
    srgb_to_linear,
};

const CFP: u32 = 1048576;

#[test]
fn srgb_to_linear_endpoints() {
    assert_eq!(srgb_to_linear(0), 0);
    assert_eq!(srgb_to_linear(CFP), CFP);
}

#[test]
fn srgb_to_linear_sampled_points() {
    // 0.001, the piecewise boundary, and 0.5 in CFP fixed point.
    assert_eq!(srgb_to_linear(1049), 81);
    assert_eq!(srgb_to_linear(42414), 3282);
    assert_eq!(srgb_to_linear(42415), 3282);
    assert_eq!(srgb_to_linear(524288), 224437);
}

#[test]
fn linear_to_srgb_is_monotone_inverse() {
    // The encoder returns the largest sRGB step whose decoding does not
    // exceed the input.
    assert_eq!(linear_to_srgb(0), 12);
    assert_eq!(linear_to_srgb(CFP), CFP);
    assert_eq!(linear_to_srgb(224437), 524288);
}

#[test]
fn round_trip_within_tolerance() {
    // Sampled sRGB values 0, 0.001, 0.04045, 0.5, 1.0: the round trip
    // returns a value >= the input with the same linear image, within the
    // quantization plateau of the curve.
    let pts: [(u32, u32); 5] = [(0, 12), (1049, 1059), (42415, 42417), (524288, 524288), (
        1048576,
        1048576,
    )];
    for (x, expect) in pts {
        let rt = linear_to_srgb(srgb_to_linear(x));
        assert_eq!(rt, expect);
        assert!(rt >= x);
        assert!(rt - x <= 16);
        assert_eq!(srgb_to_linear(rt), srgb_to_linear(x));
    }
}

#[test]
fn byte_scale_round_trip() {
    assert_eq!(byte_to_fx(0), 0);
    assert_eq!(byte_to_fx(255), CFP);
    assert_eq!(fx_to_byte(CFP), 255);
    for c in [0u8, 1, 17, 128, 254, 255] {
        assert_eq!(fx_to_byte(byte_to_fx(c)), c);
    }
}

#[test]
fn linearize_bytes() {
    assert_eq!(linearize_byte(0), 0);
    assert_eq!(linearize_byte(255), 255);
    assert_eq!(linearize_byte(128), 55);
    assert_eq!(delinearize_byte(55), 128);
    assert_eq!(delinearize_byte(128), 188);
}

#[test]
fn hsv_achromatic_has_zero_hue() {
    let (h, s, v) = rgb_to_hsv(524288, 524288, 524288);
    assert_eq!(h, 0);
    assert_eq!(s, 0);
    assert_eq!(v, 524288);
}

#[test]
fn hsv_pure_red() {
    let (h, s, v) = rgb_to_hsv(CFP, 0, 0);
    assert_eq!(h, 0);
    assert_eq!(s, CFP);
    assert_eq!(v, CFP);
}

#[test]
fn hsv_green_dominant() {
    let (h, s, v) = rgb_to_hsv(262144, 524288, 131072);
    assert_eq!(h, 100);
    assert_eq!(s, 786432);
    assert_eq!(v, 524288);
}

#[test]
fn hsv_handles_black_without_division() {
    let (h, s, v) = rgb_to_hsv(0, 0, 0);
    assert_eq!((h, s, v), (0, 0, 0));
}
