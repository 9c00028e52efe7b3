//! Raster images as plain pixel buffers, with the error measures the
//! optimizer compares canvases by.
use vstd::arithmetic::mul::lemma_mul_inequality;
use vstd::prelude::*;

verus! {

/// Largest accepted image side, so that all pixel sums fit in 64 bits.
pub const DIM_MAX: usize = 4096;

/// One RGBA pixel.
#[derive(Clone, Copy, Debug, PartialEq, Eq, Structural)]
pub struct Rgba {
    pub r: u8,
    pub g: u8,
    pub b: u8,
    pub a: u8,
}

/// A raster image in row-major order.
pub struct Img {
    pub width: usize,
    pub height: usize,
    pub pixels: Vec<Rgba>,
}

impl Img {
    /// The buffer holds exactly one pixel per coordinate and the sides are
    /// small enough for all error sums to fit in 64 bits.
    pub open spec fn wf(self) -> bool {
        &&& 1 <= self.width <= DIM_MAX
        &&& 1 <= self.height <= DIM_MAX
        &&& self.pixels.len() == self.width * self.height
    }

    /// The pixel at column `x`, row `y`.
    pub open spec fn pixel_at(self, x: int, y: int) -> Rgba {
        self.pixels[y * self.width + x]
    }

    /// A `width` by `height` image with every pixel set to `fill`.
    pub fn new_filled(width: usize, height: usize, fill: Rgba) -> (r: Img)
        requires
            1 <= width <= DIM_MAX,
            1 <= height <= DIM_MAX,
        ensures
            r.wf(),
            r.width == width,
            r.height == height,
            forall|i: int| 0 <= i < r.pixels.len() ==> r.pixels[i] == fill,
    {
        proof {
            lemma_mul_inequality(width as int, DIM_MAX as int, height as int);
            assert(DIM_MAX as int * height as int <= DIM_MAX as int * DIM_MAX as int)
                by (nonlinear_arith)
                requires
                    height <= DIM_MAX,
            ;
        }
        let n = width * height;
        let mut pixels: Vec<Rgba> = Vec::new();
        let mut i: usize = 0;
        while i < n
            invariant
                i <= n,
                pixels.len() == i,
                forall|j: int| 0 <= j < i ==> pixels[j] == fill,
            decreases n - i,
        {
            pixels.push(fill);
            i = i + 1;
        }
        Img { width, height, pixels }
    }

    pub fn get(&self, x: usize, y: usize) -> (p: Rgba)
        requires
            self.wf(),
            x < self.width,
            y < self.height,
        ensures
            p == self.pixel_at(x as int, y as int),
    {
        proof {
            lemma_rc_index(x as int, y as int, self.width as int, self.height as int);
        }
        self.pixels[y * self.width + x]
    }

    pub fn set(&mut self, x: usize, y: usize, p: Rgba)
        requires
            old(self).wf(),
            x < old(self).width,
            y < old(self).height,
        ensures
            final(self).wf(),
            final(self).width == old(self).width,
            final(self).height == old(self).height,
            final(self).pixels@ == old(self).pixels@.update(
                y * old(self).width + x,
                p,
            ),
    {
        proof {
            lemma_rc_index(x as int, y as int, self.width as int, self.height as int);
        }
        let idx = y * self.width + x;
        self.pixels.set(idx, p);
    }
}

/// A row-major index is within the buffer.
pub proof fn lemma_rc_index(x: int, y: int, w: int, h: int)
    requires
        0 <= x < w,
        0 <= y < h,
    ensures
        0 <= y * w + x < w * h,
{
    assert(y * w + x < w * h) by (nonlinear_arith)
        requires
            0 <= x < w,
            0 <= y < h,
    ;
    assert(0 <= y * w) by (nonlinear_arith)
        requires
            0 <= y,
            0 < w,
    ;
}

/// Squared per-channel color error between two pixels.
pub open spec fn spec_sq_err(p: Rgba, t: Rgba) -> int {
    let dr = p.r - t.r;
    let dg = p.g - t.g;
    let db = p.b - t.b;
    dr * dr + dg * dg + db * db
}

/// Largest value `spec_sq_err` can take.
pub const SQ_ERR_MAX: u64 = 195075;

pub proof fn lemma_sq_err_bounds(p: Rgba, t: Rgba)
    ensures
        0 <= spec_sq_err(p, t) <= SQ_ERR_MAX,
{
    let dr = p.r - t.r;
    let dg = p.g - t.g;
    let db = p.b - t.b;
    assert(0 <= dr * dr <= 65025) by (nonlinear_arith)
        requires
            -255 <= dr <= 255,
    ;
    assert(0 <= dg * dg <= 65025) by (nonlinear_arith)
        requires
            -255 <= dg <= 255,
    ;
    assert(0 <= db * db <= 65025) by (nonlinear_arith)
        requires
            -255 <= db <= 255,
    ;
}

/// Sum of `spec_sq_err` over the first `n` pixels of an image (given as its
/// pixel sequence) against a target.
pub open spec fn spec_total_sq_err(pix: Seq<Rgba>, target: Img, n: int) -> int
    decreases n,
{
    if n <= 0 {
        0
    } else {
        spec_total_sq_err(pix, target, n - 1) + spec_sq_err(pix[n - 1], target.pixels[n - 1])
    }
}

pub proof fn lemma_total_sq_err_bound(pix: Seq<Rgba>, target: Img, n: int)
    requires
        0 <= n,
    ensures
        0 <= spec_total_sq_err(pix, target, n) <= n * SQ_ERR_MAX,
    decreases n,
{
    if n == 0 {
    } else {
        lemma_total_sq_err_bound(pix, target, n - 1);
        lemma_sq_err_bounds(pix[n - 1], target.pixels[n - 1]);
        assert((n - 1) * SQ_ERR_MAX + SQ_ERR_MAX == n * SQ_ERR_MAX) by (nonlinear_arith);
    }
}

pub fn color_sq_err(p: Rgba, t: Rgba) -> (e: u64)
    ensures
        e == spec_sq_err(p, t),
{
    let dr = p.r as i64 - t.r as i64;
    let dg = p.g as i64 - t.g as i64;
    let db = p.b as i64 - t.b as i64;
    proof {
        assert(0 <= dr * dr <= 65025) by (nonlinear_arith)
            requires
                -255 <= dr <= 255,
        ;
        assert(0 <= dg * dg <= 65025) by (nonlinear_arith)
            requires
                -255 <= dg <= 255,
        ;
        assert(0 <= db * db <= 65025) by (nonlinear_arith)
            requires
                -255 <= db <= 255,
        ;
    }
    (dr * dr + dg * dg + db * db) as u64
}

/// The reference error of `img` against `target`: the sum of the squared
/// per-channel error over every pixel. This is the measure the optimizer's
/// score is proved against.
pub fn total_sq_error(img: &Img, target: &Img) -> (e: u64)
    requires
        img.wf(),
        target.wf(),
        img.width == target.width,
        img.height == target.height,
    ensures
        e == spec_total_sq_err(img.pixels@, *target, img.pixels.len() as int),
{
    let n = img.pixels.len();
    proof {
        assert(img.width as int * img.height as int <= 0x1000000) by (nonlinear_arith)
            requires
                img.width <= 4096,
                img.height <= 4096,
        ;
    }
    let mut acc: u64 = 0;
    let mut i: usize = 0;
    while i < n
        invariant
            i <= n,
            n <= 0x1000000,
            n == img.pixels.len(),
            acc == spec_total_sq_err(img.pixels@, *target, i as int),
            acc <= i * SQ_ERR_MAX,
            img.pixels.len() == target.pixels.len(),
        decreases n - i,
    {
        proof {
            lemma_sq_err_bounds(img.pixels[i as int], target.pixels[i as int]);
            lemma_mul_inequality(i as int + 1, 0x1000000, SQ_ERR_MAX as int);
            assert(i * SQ_ERR_MAX + SQ_ERR_MAX == (i + 1) * SQ_ERR_MAX) by (nonlinear_arith);
        }
        let e = color_sq_err(img.pixels[i], target.pixels[i]);
        acc = acc + e;
        i = i + 1;
    }
    acc
}


/// Channel sums over the first `n` pixels.
pub open spec fn spec_rgb_sum(pix: Seq<Rgba>, n: int) -> (int, int, int)
    decreases n,
{
    if n <= 0 {
        (0, 0, 0)
    } else {
        let p = spec_rgb_sum(pix, n - 1);
        (p.0 + pix[n - 1].r, p.1 + pix[n - 1].g, p.2 + pix[n - 1].b)
    }
}

/// The mean color of an image, channel by channel (floored), with full
/// alpha: the flat background a run conventionally starts from.
pub open spec fn spec_mean_rgb(img: Img) -> Rgba {
    let n = img.pixels.len() as int;
    let s = spec_rgb_sum(img.pixels@, n);
    Rgba { r: (s.0 / n) as u8, g: (s.1 / n) as u8, b: (s.2 / n) as u8, a: 255 }
}

proof fn lemma_rgb_sum_bounds(pix: Seq<Rgba>, n: int)
    requires
        0 <= n,
    ensures
        ({
            let s = spec_rgb_sum(pix, n);
            &&& 0 <= s.0 <= n * 255
            &&& 0 <= s.1 <= n * 255
            &&& 0 <= s.2 <= n * 255
        }),
    decreases n,
{
    if n > 0 {
        lemma_rgb_sum_bounds(pix, n - 1);
        assert((n - 1) * 255 + 255 == n * 255) by (nonlinear_arith);
    }
}

/// The mean color of an image.
pub fn mean_rgb(img: &Img) -> (m: Rgba)
    requires
        img.wf(),
    ensures
        m == spec_mean_rgb(*img),
{
    let n = img.pixels.len();
    proof {
        assert(1 <= img.width as int * img.height as int <= 0x1000000) by (nonlinear_arith)
            requires
                1 <= img.width <= 4096,
                1 <= img.height <= 4096,
        ;
    }
    let mut sr: u64 = 0;
    let mut sg: u64 = 0;
    let mut sb: u64 = 0;
    let mut i: usize = 0;
    while i < n
        invariant
            i <= n,
            1 <= n <= 0x1000000,
            n == img.pixels.len(),
            (sr as int, sg as int, sb as int) == spec_rgb_sum(img.pixels@, i as int),
            sr <= i * 255,
            sg <= i * 255,
            sb <= i * 255,
        decreases n - i,
    {
        proof {
            assert(i as int * 255 + 255 == (i + 1) as int * 255) by (nonlinear_arith);
            lemma_mul_inequality(i as int + 1, 0x1000000, 255);
        }
        let p = img.pixels[i];
        sr = sr + p.r as u64;
        sg = sg + p.g as u64;
        sb = sb + p.b as u64;
        i = i + 1;
    }
    proof {
        lemma_rgb_sum_bounds(img.pixels@, n as int);
        vstd::arithmetic::div_mod::lemma_div_is_ordered(sr as int, n as int * 255, n as int);
        vstd::arithmetic::div_mod::lemma_div_is_ordered(sg as int, n as int * 255, n as int);
        vstd::arithmetic::div_mod::lemma_div_is_ordered(sb as int, n as int * 255, n as int);
        vstd::arithmetic::mul::lemma_mul_is_commutative(n as int, 255);
        vstd::arithmetic::div_mod::lemma_div_multiples_vanish(255, n as int);
        vstd::arithmetic::div_mod::lemma_div_pos_is_pos(sr as int, n as int);
        vstd::arithmetic::div_mod::lemma_div_pos_is_pos(sg as int, n as int);
        vstd::arithmetic::div_mod::lemma_div_pos_is_pos(sb as int, n as int);
    }
    Rgba { r: (sr / n as u64) as u8, g: (sg / n as u64) as u8, b: (sb / n as u64) as u8, a: 255 }
}

/// The red-weighted perceptual color distance between two pixels, scaled by
/// 512 so that it is an exact integer: the red and blue squared differences
/// are weighted by how red the pair is on average, the green by a flat 4.
pub open spec fn spec_color_diff(p: Rgba, t: Rgba) -> int {
    let dr = p.r - t.r;
    let dg = p.g - t.g;
    let db = p.b - t.b;
    (1024 + (p.r - t.r)) * (dr * dr) + 2048 * (dg * dg) + (1534 - (p.r - t.r)) * (db * db)
}

/// Largest value `spec_color_diff` can take: `(1024 + 255 + 2048 + 1534 + 255) * 65025`.
pub const COLOR_DIFF_MAX: u64 = 333608250;

pub proof fn lemma_color_diff_bounds(p: Rgba, t: Rgba)
    ensures
        0 <= spec_color_diff(p, t) <= COLOR_DIFF_MAX,
{
    let dr = p.r - t.r;
    let dg = p.g - t.g;
    let db = p.b - t.b;
    assert(0 <= (1024 + dr) * (dr * dr) + 2048 * (dg * dg) + (1534 - dr) * (db * db)
        <= 333608250) by (nonlinear_arith)
        requires
            -255 <= dr <= 255,
            -255 <= dg <= 255,
            -255 <= db <= 255,
    ;
}

pub fn color_diff(p: Rgba, t: Rgba) -> (e: u64)
    ensures
        e == spec_color_diff(p, t),
{
    let dr = p.r as i64 - t.r as i64;
    let dg = p.g as i64 - t.g as i64;
    let db = p.b as i64 - t.b as i64;
    proof {
        assert(0 <= dr * dr <= 65025) by (nonlinear_arith)
            requires
                -255 <= dr <= 255,
        ;
        assert(0 <= dg * dg <= 65025) by (nonlinear_arith)
            requires
                -255 <= dg <= 255,
        ;
        assert(0 <= db * db <= 65025) by (nonlinear_arith)
            requires
                -255 <= db <= 255,
        ;
        assert(0 <= (1024 + dr) * (dr * dr) <= 83166975) by (nonlinear_arith)
            requires
                -255 <= dr <= 255,
        ;
        assert(0 <= 2048 * (dg * dg) <= 133171200) by (nonlinear_arith)
            requires
                -255 <= dg <= 255,
        ;
        assert(0 <= (1534 - dr) * (db * db) <= 116329725) by (nonlinear_arith)
            requires
                -255 <= dr <= 255,
                -255 <= db <= 255,
        ;
    }
    ((1024 + dr) * (dr * dr) + 2048 * (dg * dg) + (1534 - dr) * (db * db)) as u64
}

/// Sum of `spec_color_diff` over the first `n` pixels.
pub open spec fn spec_img_difference(img: Img, target: Img, n: int) -> int
    decreases n,
{
    if n <= 0 {
        0
    } else {
        spec_img_difference(img, target, n - 1) + spec_color_diff(
            img.pixels[n - 1],
            target.pixels[n - 1],
        )
    }
}

/// The perceptual difference of `img` against `target`: the exact sum over
/// every pixel of the red-weighted color distance, in 1/512 units. The sum
/// is returned undivided, so it is zero exactly when every pixel matches
/// the target's RGB (`lemma_img_difference_zero_iff_equal`).
pub fn img_difference(img: &Img, target: &Img) -> (e: u64)
    requires
        img.wf(),
        target.wf(),
        img.width == target.width,
        img.height == target.height,
    ensures
        e == spec_img_difference(*img, *target, img.pixels.len() as int),
{
    let n = img.pixels.len();
    proof {
        assert(img.width as int * img.height as int <= 0x1000000) by (nonlinear_arith)
            requires
                img.width <= 4096,
                img.height <= 4096,
        ;
    }
    let mut acc: u64 = 0;
    let mut i: usize = 0;
    while i < n
        invariant
            i <= n,
            n <= 0x1000000,
            n == img.pixels.len(),
            acc == spec_img_difference(*img, *target, i as int),
            acc <= i * COLOR_DIFF_MAX,
            img.pixels.len() == target.pixels.len(),
        decreases n - i,
    {
        proof {
            lemma_color_diff_bounds(img.pixels[i as int], target.pixels[i as int]);
            lemma_mul_inequality(i as int + 1, 0x1000000, COLOR_DIFF_MAX as int);
            assert(i * COLOR_DIFF_MAX + COLOR_DIFF_MAX == (i + 1) * COLOR_DIFF_MAX)
                by (nonlinear_arith);
        }
        let e = color_diff(img.pixels[i], target.pixels[i]);
        acc = acc + e;
        i = i + 1;
    }
    acc
}


/// The red, green and blue weights of `spec_color_diff` are all strictly
/// positive, so the distance is zero exactly when the two pixels agree on
/// every color channel.
pub proof fn lemma_color_diff_zero_iff_equal(p: Rgba, t: Rgba)
    ensures
        spec_color_diff(p, t) == 0 <==> (p.r == t.r && p.g == t.g && p.b == t.b),
{
    let dr = p.r - t.r;
    let dg = p.g - t.g;
    let db = p.b - t.b;
    assert(((1024 + dr) * (dr * dr) + 2048 * (dg * dg) + (1534 - dr) * (db * db) == 0) <==> (dr
        == 0 && dg == 0 && db == 0)) by (nonlinear_arith)
        requires
            -255 <= dr <= 255,
            -255 <= dg <= 255,
            -255 <= db <= 255,
    ;
}

/// The perceptual difference is zero exactly when every pixel of the image
/// matches the RGB of the corresponding target pixel.
pub proof fn lemma_img_difference_zero_iff_equal(img: Img, target: Img, n: int)
    requires
        0 <= n <= img.pixels.len(),
        n <= target.pixels.len(),
    ensures
        spec_img_difference(img, target, n) == 0 <==> (forall|i: int|
            0 <= i < n ==> {
                let p = #[trigger] img.pixels[i];
                let t = target.pixels[i];
                p.r == t.r && p.g == t.g && p.b == t.b
            }),
    decreases n,
{
    if n > 0 {
        lemma_img_difference_zero_iff_equal(img, target, n - 1);
        lemma_img_difference_nonneg(img, target, n - 1);
        lemma_color_diff_bounds(img.pixels[n - 1], target.pixels[n - 1]);
        lemma_color_diff_zero_iff_equal(img.pixels[n - 1], target.pixels[n - 1]);
    }
}

proof fn lemma_img_difference_nonneg(img: Img, target: Img, n: int)
    requires
        0 <= n,
    ensures
        0 <= spec_img_difference(img, target, n) <= n * COLOR_DIFF_MAX,
    decreases n,
{
    if n == 0 {
    } else {
        lemma_img_difference_nonneg(img, target, n - 1);
        lemma_color_diff_bounds(img.pixels[n - 1], target.pixels[n - 1]);
        assert((n - 1) * COLOR_DIFF_MAX + COLOR_DIFF_MAX == n * COLOR_DIFF_MAX)
            by (nonlinear_arith);
    }
}

} // verus!
