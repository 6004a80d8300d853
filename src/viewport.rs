use vstd::prelude::*;

verus! {

/// Fixed-point scale used for normalized device coordinates and depths:
/// the real value `r` is held as the integer `r * FIXED_ONE`.
pub const FIXED_ONE: i64 = 16777216;

/// A point in normalized device coordinates, each axis in fixed point.
#[derive(Clone, Copy, Debug, PartialEq, Eq, Structural)]
pub struct NdcPoint {
    pub x: i64,
    pub y: i64,
}

/// `n / d` rounded to the nearest integer, halves rounded up (`d > 0`).
pub open spec fn round_div(n: int, d: int) -> int {
    (2 * n + d) / (2 * d)
}

pub open spec fn clamp(v: int, lo: int, hi: int) -> int {
    if v < lo {
        lo
    } else if v > hi {
        hi
    } else {
        v
    }
}

/// Pixel coordinate of the fixed-point NDC coordinate `c` on an axis of `size`
/// pixels: `round(((1 - c) / 2) * (size - 1))`, clamped to `[0, size - 1]`.
/// The axis is flipped, so that NDC +1 lands on pixel 0.
pub open spec fn ndc_to_pixel(c: int, size: int) -> int {
    clamp(round_div((FIXED_ONE - c) * (size - 1), 2 * FIXED_ONE), 0, size - 1)
}

/// Maps one fixed-point NDC coordinate onto an axis of `size` pixels.
pub fn axis_to_framebuffer(c: i64, size: u16) -> (r: u16)
    requires
        size >= 1,
    ensures
        r == ndc_to_pixel(c as int, size as int),
        r < size,
{
    let diff: i128 = FIXED_ONE as i128 - c as i128;
    proof {
        let s = size as int - 1;
        let b: int = 0x1_0000_0000_0000_0000;
        assert(-b * 0x1_0000 <= diff * s <= b * 0x1_0000) by (nonlinear_arith)
            requires
                -b <= diff <= b,
                0 <= s < 0x1_0000,
        ;
    }
    let t: i128 = diff * (size as i128 - 1);
    let last: u16 = size - 1;
    if t <= 0 {
        proof {
            let n = 2 * t + 2 * FIXED_ONE;
            let d = 2 * (2 * FIXED_ONE);
            assert(n / d <= 0) by (nonlinear_arith)
                requires
                    n < d,
                    d > 0,
            ;
        }
        0
    } else {
        let q: i128 = (2 * t + 2 * FIXED_ONE as i128) / (4 * FIXED_ONE as i128);
        if q > last as i128 {
            last
        } else {
            q as u16
        }
    }
}

/// Maps a point in normalized device coordinates to a pixel of a
/// `width` x `height` framebuffer.
pub fn transform_coords_normalized_to_framebuffer(p: NdcPoint, width: u16, height: u16) -> (r: (u16, u16))
    requires
        width >= 1,
        height >= 1,
    ensures
        r.0 == ndc_to_pixel(p.x as int, width as int),
        r.1 == ndc_to_pixel(p.y as int, height as int),
        r.0 < width,
        r.1 < height,
{
    (axis_to_framebuffer(p.x, width), axis_to_framebuffer(p.y, height))
}

/// The mapping reverses order: a larger NDC coordinate never lands on a
/// larger pixel.
pub proof fn lemma_ndc_to_pixel_antitone(c1: int, c2: int, size: int)
    requires
        c2 <= c1,
        size >= 1,
    ensures
        ndc_to_pixel(c1, size) <= ndc_to_pixel(c2, size),
{
    let s = size - 1;
    let t1 = (FIXED_ONE - c1) * s;
    let t2 = (FIXED_ONE - c2) * s;
    assert(t1 <= t2) by (nonlinear_arith)
        requires
            c2 <= c1,
            s >= 0,
            t1 == (FIXED_ONE - c1) * s,
            t2 == (FIXED_ONE - c2) * s,
    ;
    vstd::arithmetic::div_mod::lemma_div_is_ordered(2 * t1 + 2 * FIXED_ONE, 2 * t2 + 2 * FIXED_ONE, 2 * (2 * FIXED_ONE));
}

/// Orientation of the viewport: the NDC origin lands on the middle pixel of
/// each axis (`(size - 1) / 2`, halves rounded up), NDC +1 on pixel 0 and
/// NDC -1 on the last pixel.
pub proof fn lemma_orientation(width: u16, height: u16)
    requires
        width >= 1,
        height >= 1,
    ensures
        ndc_to_pixel(0, width as int) == round_div(width - 1, 2),
        ndc_to_pixel(0, height as int) == round_div(height - 1, 2),
        ndc_to_pixel(FIXED_ONE as int, width as int) == 0,
        ndc_to_pixel(FIXED_ONE as int, height as int) == 0,
        ndc_to_pixel(-FIXED_ONE, width as int) == width - 1,
        ndc_to_pixel(-FIXED_ONE, height as int) == height - 1,
{
    lemma_axis_orientation(width as int);
    lemma_axis_orientation(height as int);
}

proof fn lemma_axis_orientation(size: int)
    requires
        size >= 1,
    ensures
        ndc_to_pixel(0, size) == round_div(size - 1, 2),
        ndc_to_pixel(FIXED_ONE as int, size) == 0,
        ndc_to_pixel(-FIXED_ONE, size) == size - 1,
{
    let f = FIXED_ONE as int;
    let s = size - 1;
    let a = 2 * s + 2;
    assert((2 * (f * s) + 2 * f) / (2 * (2 * f)) == a / 4) by {
        assert(2 * (f * s) + 2 * f == f * a) by (nonlinear_arith)
            requires
                a == 2 * s + 2,
        ;
        assert(2 * (2 * f) == f * 4);
        vstd::arithmetic::div_mod::lemma_div_denominator(f * a, f, 4);
        vstd::arithmetic::div_mod::lemma_div_multiples_vanish(a, f);
    }
    assert((2 * (2 * f * s) + 2 * f) / (2 * (2 * f)) == s) by {
        assert(2 * (2 * f * s) + 2 * f == (4 * f) * s + 2 * f) by (nonlinear_arith)
            requires
                f == FIXED_ONE,
        ;
        vstd::arithmetic::div_mod::lemma_fundamental_div_mod_converse(
            (4 * f) * s + 2 * f,
            4 * f,
            s,
            2 * f,
        );
    }
    assert((FIXED_ONE - (-FIXED_ONE)) * s == 2 * f * s);
    assert((FIXED_ONE - FIXED_ONE) * s == 0);
    assert((FIXED_ONE - 0) * s == f * s);
}

} // verus!
