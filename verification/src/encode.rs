//! The textual placement-record serializer.
//!
//! A record is a semicolon-terminated, comma-separated key/value list:
//! sprite id, canvas position (with the output convention's axis flip and
//! half-scale), rotation in degrees, scale, the HSV-encoded tint and the
//! draw layer. All fractional values are fixed point and are rendered with
//! exactly three decimal places, so the record is an exact function of the
//! placement.
//!
//! The byte-level specs use ASCII codes: 44 is `,`, 45 `-`, 46 `.`,
//! 48 `0`, 59 `;`, 97 `a`.
use crate::color::{byte_to_fx, linear_to_srgb, rgb_to_hsv, CFP};
use crate::commit::Placement;
use crate::geom::{COORD_MAX, FX, PI_FX, SCALE_MAX_FX, TWO_PI_FX};
use vstd::prelude::*;

verus! {

/// Every byte of the sequence is ASCII.
pub open spec fn all_ascii(s: Seq<u8>) -> bool {
    forall|i: int| 0 <= i < s.len() ==> #[trigger] s[i] < 128
}

/// The decimal digits of a non-negative number, most significant first.
pub open spec fn spec_digits(n: int) -> Seq<u8>
    decreases n,
{
    if n < 10 {
        seq![(48 + n) as u8]
    } else {
        spec_digits(n / 10).push((48 + n % 10) as u8)
    }
}

/// A signed integer in decimal.
pub open spec fn spec_int_bytes(v: int) -> Seq<u8> {
    if v < 0 {
        seq![45u8] + spec_digits(-v)
    } else {
        spec_digits(v)
    }
}

/// A value in thousandths, rendered minimally: a sign, the whole part, and
/// a decimal point with up to three places only when the value has a
/// fractional part, trailing zeros trimmed.
pub open spec fn spec_milli_bytes(m: int) -> Seq<u8> {
    let mag = if m < 0 {
        -m
    } else {
        m
    };
    let sign: Seq<u8> = if m < 0 {
        seq![45u8]
    } else {
        Seq::empty()
    };
    let frac = mag % 1000;
    let fracpart: Seq<u8> = if frac == 0 {
        Seq::empty()
    } else if frac % 100 == 0 {
        seq![46u8, (48 + frac / 100) as u8]
    } else if frac % 10 == 0 {
        seq![46u8, (48 + frac / 100) as u8, (48 + (frac / 10) % 10) as u8]
    } else {
        seq![
            46u8,
            (48 + frac / 100) as u8,
            (48 + (frac / 10) % 10) as u8,
            (48 + frac % 10) as u8,
        ]
    };
    sign + spec_digits(mag / 1000) + fracpart
}

/// Digits are ASCII.
pub proof fn lemma_digits_ascii(n: int)
    requires
        0 <= n,
    ensures
        forall|i: int| 0 <= i < spec_digits(n).len() ==> 48 <= #[trigger] spec_digits(n)[i] <= 57,
        spec_digits(n).len() >= 1,
    decreases n,
{
    vstd::arithmetic::div_mod::lemma_mod_bound(n, 10);
    if n >= 10 {
        vstd::arithmetic::div_mod::lemma_div_pos_is_pos(n, 10);
        lemma_digits_ascii(n / 10);
    }
}

pub proof fn lemma_int_bytes_ascii(v: int)
    ensures
        forall|i: int|
            0 <= i < spec_int_bytes(v).len() ==> 45 <= #[trigger] spec_int_bytes(v)[i] <= 57,
{
    if v < 0 {
        lemma_digits_ascii(-v);
    } else {
        lemma_digits_ascii(v);
    }
}

pub proof fn lemma_milli_bytes_ascii(m: int)
    ensures
        forall|i: int|
            0 <= i < spec_milli_bytes(m).len() ==> 45 <= #[trigger] spec_milli_bytes(m)[i] <= 57,
{
    let mag = if m < 0 {
        -m
    } else {
        m
    };
    lemma_digits_ascii(mag / 1000);
    vstd::arithmetic::div_mod::lemma_mod_bound(mag, 1000);
    vstd::arithmetic::div_mod::lemma_mod_bound(mag / 10, 10);
    vstd::arithmetic::div_mod::lemma_div_pos_is_pos(mag, 1000);
    vstd::arithmetic::div_mod::lemma_div_pos_is_pos(mag, 100);
    vstd::arithmetic::div_mod::lemma_div_pos_is_pos(mag, 10);
    let frac = mag % 1000;
    vstd::arithmetic::div_mod::lemma_div_pos_is_pos(frac, 100);
    vstd::arithmetic::div_mod::lemma_div_pos_is_pos(frac, 10);
    vstd::arithmetic::div_mod::lemma_mod_bound(frac / 10, 10);
    vstd::arithmetic::div_mod::lemma_mod_bound(frac, 10);
    assert(frac / 100 <= 9) by {
        vstd::arithmetic::div_mod::lemma_div_is_ordered(frac, 999, 100);
    }
}

/// Append the decimal digits of `n`.
fn push_digits(out: &mut Vec<u8>, n: u64)
    ensures
        final(out)@ == old(out)@ + spec_digits(n as int),
        all_ascii(old(out)@) ==> all_ascii(final(out)@),
    decreases n,
{
    proof {
        lemma_digits_ascii(n as int);
    }
    if n < 10 {
        out.push(48 + n as u8);
        proof {
            assert(out@ =~= old(out)@ + spec_digits(n as int));
        }
    } else {
        push_digits(out, n / 10);
        out.push(48 + (n % 10) as u8);
        proof {
            assert(out@ =~= old(out)@ + spec_digits(n as int));
        }
    }
}

/// Append a signed integer in decimal.
fn push_int(out: &mut Vec<u8>, v: i64)
    requires
        -0x1000000000000 < v < 0x1000000000000,
    ensures
        final(out)@ == old(out)@ + spec_int_bytes(v as int),
        all_ascii(old(out)@) ==> all_ascii(final(out)@),
{
    if v < 0 {
        out.push(45);
        push_digits(out, (-v) as u64);
        proof {
            assert(out@ =~= old(out)@ + spec_int_bytes(v as int));
        }
    } else {
        push_digits(out, v as u64);
    }
}

/// Append a value in thousandths, rendered minimally.
fn push_milli(out: &mut Vec<u8>, m: i64)
    requires
        -0x1000000000000 < m < 0x1000000000000,
    ensures
        final(out)@ == old(out)@ + spec_milli_bytes(m as int),
        all_ascii(old(out)@) ==> all_ascii(final(out)@),
{
    proof {
        lemma_milli_bytes_ascii(m as int);
    }
    let mag: u64 = if m < 0 {
        out.push(45);
        (-m) as u64
    } else {
        m as u64
    };
    push_digits(out, mag / 1000);
    let frac = mag % 1000;
    proof {
        vstd::arithmetic::div_mod::lemma_mod_bound(mag as int, 1000);
        vstd::arithmetic::div_mod::lemma_mod_bound(frac as int / 10, 10);
        vstd::arithmetic::div_mod::lemma_mod_bound(frac as int, 10);
        vstd::arithmetic::div_mod::lemma_div_is_ordered(frac as int, 999, 100);
    }
    if frac != 0 {
        out.push(46);
        out.push(48 + (frac / 100) as u8);
        if frac % 100 != 0 {
            out.push(48 + ((frac / 10) % 10) as u8);
            if frac % 10 != 0 {
                out.push(48 + (frac % 10) as u8);
            }
        }
    }
    proof {
        assert(out@ =~= old(out)@ + spec_milli_bytes(m as int));
    }
}

/// Append one byte.
fn push_byte(out: &mut Vec<u8>, b: u8)
    requires
        b < 128,
    ensures
        final(out)@ == old(out)@ + seq![b],
        all_ascii(old(out)@) ==> all_ascii(final(out)@),
{
    out.push(b);
    proof {
        assert(out@ =~= old(out)@ + seq![b]);
    }
}

/// The sRGB tint of a placement in `CFP` fixed point, channel by channel.
pub open spec fn spec_tint_srgb(pl: Placement) -> (int, int, int) {
    (
        crate::color::spec_linear_to_srgb(crate::color::spec_byte_to_fx(pl.tint_r as int)),
        crate::color::spec_linear_to_srgb(crate::color::spec_byte_to_fx(pl.tint_g as int)),
        crate::color::spec_linear_to_srgb(crate::color::spec_byte_to_fx(pl.tint_b as int)),
    )
}

/// The first half of a record: the object id and the canvas position with
/// the output convention's axis flip and half scale, the rotation in
/// degrees and the scale. Fixed separators and keys are spelled as ASCII
/// codes, one byte per element, in emission order.
pub open spec fn spec_record_head(pl: Placement) -> Seq<u8> {
    Seq::empty() + seq![49u8] + seq![44u8] + spec_digits(pl.sprite_id as int)
        + seq![44u8] + seq![50u8] + seq![44u8] + spec_milli_bytes(pl.x * 500)
        + seq![44u8] + seq![51u8] + seq![44u8] + spec_milli_bytes(-pl.y * 500)
        + seq![44u8] + seq![54u8] + seq![44u8] + spec_milli_bytes(pl.rot * 180000 / (PI_FX as int))
        + seq![44u8] + seq![51u8] + seq![50u8] + seq![44u8] + spec_milli_bytes(pl.scale * 1000 / (FX as int))
}

/// The second half of a record: the HSV tint field and the draw layer.
pub open spec fn spec_record_tail(pl: Placement) -> Seq<u8> {
    let tint = spec_tint_srgb(pl);
    let h = crate::color::spec_hsv_hue(tint.0, tint.1, tint.2);
    let s = crate::color::spec_hsv_saturation(tint.0, tint.1, tint.2);
    let v = crate::color::spec_hsv_value(tint.0, tint.1, tint.2);
    Seq::empty() + seq![44u8] + seq![52u8] + seq![49u8] + seq![44u8] + seq![49u8] + seq![44u8] + seq![52u8] + seq![51u8] + seq![44u8] + spec_int_bytes(h)
        + seq![97u8] + spec_milli_bytes(s * 1000 / (CFP as int))
        + seq![97u8] + spec_milli_bytes(v * 1000 / (CFP as int))
        + seq![97u8] + seq![48u8] + seq![97u8] + seq![48u8] + seq![44u8] + seq![50u8] + seq![49u8] + seq![44u8] + seq![49u8] + seq![44u8] + seq![50u8] + seq![50u8] + seq![44u8] + seq![50u8] + seq![44u8] + seq![50u8] + seq![53u8] + seq![44u8] + spec_digits(pl.layer as int)
        + seq![44u8] + seq![50u8] + seq![52u8] + seq![44u8] + seq![45u8] + seq![49u8] + seq![59u8]
}

/// The serialized record of one placement: the object id, the canvas
/// position, the rotation in degrees, the scale, the HSV tint field and
/// the draw layer, semicolon-terminated.
pub open spec fn spec_record_bytes(pl: Placement) -> Seq<u8> {
    spec_record_head(pl) + spec_record_tail(pl)
}

/// A placement's fields are within the engine's budgets.
pub open spec fn placement_bounded(pl: Placement) -> bool {
    &&& -COORD_MAX <= pl.x <= COORD_MAX
    &&& -COORD_MAX <= pl.y <= COORD_MAX
    &&& 1 <= pl.scale <= SCALE_MAX_FX
    &&& 0 <= pl.rot < TWO_PI_FX
    &&& pl.layer <= 0xFFFF_FFFF
}

/// Serialize one accepted placement. The result is ASCII and is exactly
/// `spec_record_bytes` of the placement.
#[verifier::rlimit(100)]
fn push_record_head(out: &mut Vec<u8>, pl: &Placement)
    requires
        placement_bounded(*pl),
    ensures
        final(out)@ == old(out)@ + spec_record_head(*pl),
        all_ascii(old(out)@) ==> all_ascii(final(out)@),
{
    push_byte(out, 49);
    push_byte(out, 44);
    push_digits(out, pl.sprite_id as u64);
    push_byte(out, 44);
    push_byte(out, 50);
    push_byte(out, 44);
    push_milli(out, pl.x * 500);
    push_byte(out, 44);
    push_byte(out, 51);
    push_byte(out, 44);
    push_milli(out, -pl.y * 500);
    push_byte(out, 44);
    push_byte(out, 54);
    push_byte(out, 44);
    proof {
        vstd::arithmetic::div_mod::lemma_div_pos_is_pos(pl.rot * 180000, PI_FX as int);
        vstd::arithmetic::div_mod::lemma_div_is_ordered(
            pl.rot * 180000,
            TWO_PI_FX as int * 180000,
            PI_FX as int,
        );
        vstd::arithmetic::div_mod::lemma_div_pos_is_pos(pl.scale * 1000, FX as int);
        vstd::arithmetic::div_mod::lemma_div_is_ordered(
            pl.scale * 1000,
            SCALE_MAX_FX as int * 1000,
            FX as int,
        );
    }
    push_milli(out, (pl.rot * 180000) / PI_FX);
    push_byte(out, 44);
    push_byte(out, 51);
    push_byte(out, 50);
    push_byte(out, 44);
    push_milli(out, (pl.scale * 1000) / FX);
    proof {
        assert(out@ =~= old(out)@ + spec_record_head(*pl));
    }
}

#[verifier::rlimit(100)]
fn push_record_tail(out: &mut Vec<u8>, pl: &Placement)
    requires
        placement_bounded(*pl),
    ensures
        final(out)@ == old(out)@ + spec_record_tail(*pl),
        all_ascii(old(out)@) ==> all_ascii(final(out)@),
{
    let mut tmp: Vec<u8> = Vec::new();
    proof {
        assert(tmp@ =~= Seq::<u8>::empty());
    }
    let tr = linear_to_srgb(byte_to_fx(pl.tint_r));
    let tg = linear_to_srgb(byte_to_fx(pl.tint_g));
    let tb = linear_to_srgb(byte_to_fx(pl.tint_b));
    let hsv = rgb_to_hsv(tr, tg, tb);
    proof {
        vstd::arithmetic::div_mod::lemma_div_pos_is_pos(hsv.1 as int * 1000, CFP as int);
        vstd::arithmetic::div_mod::lemma_div_is_ordered(
            hsv.1 as int * 1000,
            CFP as int * 1000,
            CFP as int,
        );
        vstd::arithmetic::div_mod::lemma_div_pos_is_pos(hsv.2 as int * 1000, CFP as int);
        vstd::arithmetic::div_mod::lemma_div_is_ordered(
            hsv.2 as int * 1000,
            CFP as int * 1000,
            CFP as int,
        );
    }
    push_byte(&mut tmp, 44);
    push_byte(&mut tmp, 52);
    push_byte(&mut tmp, 49);
    push_byte(&mut tmp, 44);
    push_byte(&mut tmp, 49);
    push_byte(&mut tmp, 44);
    push_byte(&mut tmp, 52);
    push_byte(&mut tmp, 51);
    push_byte(&mut tmp, 44);
    push_int(&mut tmp, hsv.0 as i64);
    push_byte(&mut tmp, 97);
    push_milli(&mut tmp, ((hsv.1 as u64 * 1000) / CFP) as i64);
    push_byte(&mut tmp, 97);
    push_milli(&mut tmp, ((hsv.2 as u64 * 1000) / CFP) as i64);
    push_byte(&mut tmp, 97);
    push_byte(&mut tmp, 48);
    push_byte(&mut tmp, 97);
    push_byte(&mut tmp, 48);
    push_byte(&mut tmp, 44);
    push_byte(&mut tmp, 50);
    push_byte(&mut tmp, 49);
    push_byte(&mut tmp, 44);
    push_byte(&mut tmp, 49);
    push_byte(&mut tmp, 44);
    push_byte(&mut tmp, 50);
    push_byte(&mut tmp, 50);
    push_byte(&mut tmp, 44);
    push_byte(&mut tmp, 50);
    push_byte(&mut tmp, 44);
    push_byte(&mut tmp, 50);
    push_byte(&mut tmp, 53);
    push_byte(&mut tmp, 44);
    push_digits(&mut tmp, pl.layer as u64);
    push_byte(&mut tmp, 44);
    push_byte(&mut tmp, 50);
    push_byte(&mut tmp, 52);
    push_byte(&mut tmp, 44);
    push_byte(&mut tmp, 45);
    push_byte(&mut tmp, 49);
    push_byte(&mut tmp, 59);
    proof {
        assert(tmp@ =~= spec_record_tail(*pl));
    }
    out.append(&mut tmp);
}

/// Append the full record of one placement.
fn push_record(out: &mut Vec<u8>, pl: &Placement)
    requires
        placement_bounded(*pl),
    ensures
        final(out)@ == old(out)@ + spec_record_bytes(*pl),
        all_ascii(old(out)@) ==> all_ascii(final(out)@),
{
    push_record_head(out, pl);
    push_record_tail(out, pl);
    proof {
        assert(out@ =~= old(out)@ + spec_record_bytes(*pl));
    }
}

/// Serialize one accepted placement. The result is ASCII and is exactly
/// `spec_record_bytes` of the placement.
pub fn encode_placement(pl: &Placement) -> (r: Vec<u8>)
    requires
        placement_bounded(*pl),
    ensures
        r@ == spec_record_bytes(*pl),
        all_ascii(r@),
{
    let mut out: Vec<u8> = Vec::new();
    proof {
        assert(out@ =~= Seq::<u8>::empty());
    }
    push_record(&mut out, pl);
    proof {
        assert(out@ =~= spec_record_bytes(*pl));
    }
    out
}

/// The fixed header of the output: the overlay object at the run's paste
/// opacity and the backdrop object at the flat background color, spelled
/// as ASCII codes in emission order.
pub open spec fn spec_header_bytes(r: int, g: int, b: int, opacity_milli: int) -> Seq<u8> {
    Seq::empty() + seq![59u8] + seq![49u8] + seq![44u8] + seq![56u8] + seq![57u8] + seq![57u8] + seq![44u8] + seq![50u8] + seq![44u8] + seq![45u8] + seq![50u8] + seq![57u8] + seq![44u8] + seq![51u8] + seq![44u8] + seq![57u8] + seq![55u8] + seq![53u8] + seq![44u8] + seq![51u8] + seq![54u8] + seq![44u8] + seq![49u8] + seq![44u8] + seq![55u8] + seq![44u8] + seq![50u8] + seq![53u8] + seq![53u8] + seq![44u8] + seq![56u8] + seq![44u8] + seq![48u8] + seq![44u8] + seq![57u8] + seq![44u8] + seq![48u8] + seq![44u8] + seq![49u8] + seq![48u8] + seq![44u8] + seq![48u8] + seq![44u8] + seq![51u8] + seq![53u8] + seq![44u8] + spec_milli_bytes(opacity_milli)
        + seq![44u8] + seq![50u8] + seq![51u8] + seq![44u8] + seq![49u8] + seq![59u8] + seq![49u8] + seq![44u8] + seq![56u8] + seq![57u8] + seq![57u8] + seq![44u8] + seq![50u8] + seq![44u8] + seq![45u8] + seq![50u8] + seq![57u8] + seq![44u8] + seq![51u8] + seq![44u8] + seq![49u8] + seq![48u8] + seq![48u8] + seq![53u8] + seq![44u8] + seq![51u8] + seq![54u8] + seq![44u8] + seq![49u8] + seq![44u8] + seq![55u8] + seq![44u8] + spec_digits(r)
        + seq![44u8] + seq![56u8] + seq![44u8] + spec_digits(g)
        + seq![44u8] + seq![57u8] + seq![44u8] + spec_digits(b)
        + seq![44u8] + seq![49u8] + seq![48u8] + seq![44u8] + seq![48u8] + seq![44u8] + seq![51u8] + seq![53u8] + seq![44u8] + seq![49u8] + seq![44u8] + seq![50u8] + seq![51u8] + seq![44u8] + seq![49u8] + seq![48u8] + seq![48u8] + seq![48u8] + seq![59u8]
}

/// The records of the first `n` placements, concatenated in order.
pub open spec fn spec_records_bytes(pls: Seq<Placement>, n: int) -> Seq<u8>
    decreases n,
{
    if n <= 0 {
        Seq::empty()
    } else {
        spec_records_bytes(pls, n - 1) + spec_record_bytes(pls[n - 1])
    }
}

/// The whole output artifact: the header followed by every placement's
/// record in acceptance order.
pub open spec fn spec_level_bytes(
    pls: Seq<Placement>,
    r: int,
    g: int,
    b: int,
    opacity_milli: int,
) -> Seq<u8> {
    spec_header_bytes(r, g, b, opacity_milli) + spec_records_bytes(pls, pls.len() as int)
}

#[verifier::rlimit(100)]
fn push_header(out: &mut Vec<u8>, bg: (u8, u8, u8), opacity_milli: i64)
    requires
        0 <= opacity_milli <= 1000,
    ensures
        final(out)@ == old(out)@ + spec_header_bytes(
            bg.0 as int,
            bg.1 as int,
            bg.2 as int,
            opacity_milli as int,
        ),
        all_ascii(old(out)@) ==> all_ascii(final(out)@),
{
    let mut tmp: Vec<u8> = Vec::new();
    proof {
        assert(tmp@ =~= Seq::<u8>::empty());
    }
    push_byte(&mut tmp, 59);
    push_byte(&mut tmp, 49);
    push_byte(&mut tmp, 44);
    push_byte(&mut tmp, 56);
    push_byte(&mut tmp, 57);
    push_byte(&mut tmp, 57);
    push_byte(&mut tmp, 44);
    push_byte(&mut tmp, 50);
    push_byte(&mut tmp, 44);
    push_byte(&mut tmp, 45);
    push_byte(&mut tmp, 50);
    push_byte(&mut tmp, 57);
    push_byte(&mut tmp, 44);
    push_byte(&mut tmp, 51);
    push_byte(&mut tmp, 44);
    push_byte(&mut tmp, 57);
    push_byte(&mut tmp, 55);
    push_byte(&mut tmp, 53);
    push_byte(&mut tmp, 44);
    push_byte(&mut tmp, 51);
    push_byte(&mut tmp, 54);
    push_byte(&mut tmp, 44);
    push_byte(&mut tmp, 49);
    push_byte(&mut tmp, 44);
    push_byte(&mut tmp, 55);
    push_byte(&mut tmp, 44);
    push_byte(&mut tmp, 50);
    push_byte(&mut tmp, 53);
    push_byte(&mut tmp, 53);
    push_byte(&mut tmp, 44);
    push_byte(&mut tmp, 56);
    push_byte(&mut tmp, 44);
    push_byte(&mut tmp, 48);
    push_byte(&mut tmp, 44);
    push_byte(&mut tmp, 57);
    push_byte(&mut tmp, 44);
    push_byte(&mut tmp, 48);
    push_byte(&mut tmp, 44);
    push_byte(&mut tmp, 49);
    push_byte(&mut tmp, 48);
    push_byte(&mut tmp, 44);
    push_byte(&mut tmp, 48);
    push_byte(&mut tmp, 44);
    push_byte(&mut tmp, 51);
    push_byte(&mut tmp, 53);
    push_byte(&mut tmp, 44);
    push_milli(&mut tmp, opacity_milli);
    push_byte(&mut tmp, 44);
    push_byte(&mut tmp, 50);
    push_byte(&mut tmp, 51);
    push_byte(&mut tmp, 44);
    push_byte(&mut tmp, 49);
    push_byte(&mut tmp, 59);
    push_byte(&mut tmp, 49);
    push_byte(&mut tmp, 44);
    push_byte(&mut tmp, 56);
    push_byte(&mut tmp, 57);
    push_byte(&mut tmp, 57);
    push_byte(&mut tmp, 44);
    push_byte(&mut tmp, 50);
    push_byte(&mut tmp, 44);
    push_byte(&mut tmp, 45);
    push_byte(&mut tmp, 50);
    push_byte(&mut tmp, 57);
    push_byte(&mut tmp, 44);
    push_byte(&mut tmp, 51);
    push_byte(&mut tmp, 44);
    push_byte(&mut tmp, 49);
    push_byte(&mut tmp, 48);
    push_byte(&mut tmp, 48);
    push_byte(&mut tmp, 53);
    push_byte(&mut tmp, 44);
    push_byte(&mut tmp, 51);
    push_byte(&mut tmp, 54);
    push_byte(&mut tmp, 44);
    push_byte(&mut tmp, 49);
    push_byte(&mut tmp, 44);
    push_byte(&mut tmp, 55);
    push_byte(&mut tmp, 44);
    push_digits(&mut tmp, bg.0 as u64);
    push_byte(&mut tmp, 44);
    push_byte(&mut tmp, 56);
    push_byte(&mut tmp, 44);
    push_digits(&mut tmp, bg.1 as u64);
    push_byte(&mut tmp, 44);
    push_byte(&mut tmp, 57);
    push_byte(&mut tmp, 44);
    push_digits(&mut tmp, bg.2 as u64);
    push_byte(&mut tmp, 44);
    push_byte(&mut tmp, 49);
    push_byte(&mut tmp, 48);
    push_byte(&mut tmp, 44);
    push_byte(&mut tmp, 48);
    push_byte(&mut tmp, 44);
    push_byte(&mut tmp, 51);
    push_byte(&mut tmp, 53);
    push_byte(&mut tmp, 44);
    push_byte(&mut tmp, 49);
    push_byte(&mut tmp, 44);
    push_byte(&mut tmp, 50);
    push_byte(&mut tmp, 51);
    push_byte(&mut tmp, 44);
    push_byte(&mut tmp, 49);
    push_byte(&mut tmp, 48);
    push_byte(&mut tmp, 48);
    push_byte(&mut tmp, 48);
    push_byte(&mut tmp, 59);
    proof {
        assert(tmp@ =~= spec_header_bytes(
            bg.0 as int,
            bg.1 as int,
            bg.2 as int,
            opacity_milli as int,
        ));
    }
    out.append(&mut tmp);
}

/// Assemble the whole output: the header at the given background color and
/// paste opacity (in thousandths), followed by every placement's record.
/// The result is ASCII and exactly `spec_level_bytes`.
#[verifier::rlimit(100)]
pub fn level_bytes(pls: &Vec<Placement>, bg: (u8, u8, u8), opacity_milli: i64) -> (r: Vec<u8>)
    requires
        0 <= opacity_milli <= 1000,
        forall|i: int| 0 <= i < pls.len() ==> placement_bounded(#[trigger] pls[i]),
    ensures
        r@ == spec_level_bytes(pls@, bg.0 as int, bg.1 as int, bg.2 as int, opacity_milli as int),
        all_ascii(r@),
{
    let ghost header = spec_header_bytes(
        bg.0 as int,
        bg.1 as int,
        bg.2 as int,
        opacity_milli as int,
    );
    let mut out: Vec<u8> = Vec::new();
    proof {
        assert(out@ =~= Seq::<u8>::empty());
    }
    push_header(&mut out, bg, opacity_milli);
    proof {
        assert(out@ =~= header + spec_records_bytes(pls@, 0));
    }
    let mut i: usize = 0;
    while i < pls.len()
        invariant
            i <= pls.len(),
            forall|j: int| 0 <= j < pls.len() ==> placement_bounded(#[trigger] pls@[j]),
            out@ == header + spec_records_bytes(pls@, i as int),
            all_ascii(out@),
        decreases pls.len() - i,
    {
        let pl = pls[i];
        push_record(&mut out, &pl);
        proof {
            assert(out@ =~= header + spec_records_bytes(pls@, i + 1 as int));
        }
        i = i + 1;
    }
    out
}

} // verus!
