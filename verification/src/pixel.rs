//! The pixel compositor: straight (non-premultiplied) source-over alpha
//! blending of 8-bit RGBA pixels, with round-to-nearest channel arithmetic.

use vstd::arithmetic::div_mod::{lemma_div_is_ordered, lemma_fundamental_div_mod_converse};
use vstd::prelude::*;

verus! {

/// One RGBA pixel with 8-bit channels.
#[derive(Clone, Copy, PartialEq, Eq, Structural, Debug)]
pub struct Pixel {
    pub r: u8,
    pub g: u8,
    pub b: u8,
    pub a: u8,
}

/// The blended value of one colour channel: `w` over `b` at overlay alpha `a`,
/// that is `round(w * a/255 + b * (1 - a/255))`. Because 255 is odd, adding
/// 127 before the truncating division rounds to the nearest integer.
pub open spec fn blend_channel(b: int, w: int, a: int) -> int {
    (w * a + b * (255 - a) + 127) / 255
}

/// The blended alpha channel: `round(wa + ba * (1 - wa/255))`.
pub open spec fn blend_alpha(ba: int, wa: int) -> int {
    wa + (ba * (255 - wa) + 127) / 255
}

/// Source-over compositing of the overlay pixel `over` onto `base`.
pub open spec fn spec_blend(base: Pixel, over: Pixel) -> Pixel {
    Pixel {
        r: blend_channel(base.r as int, over.r as int, over.a as int) as u8,
        g: blend_channel(base.g as int, over.g as int, over.a as int) as u8,
        b: blend_channel(base.b as int, over.b as int, over.a as int) as u8,
        a: blend_alpha(base.a as int, over.a as int) as u8,
    }
}

/// `(x * 255 + r) / 255 == x` whenever `0 <= r < 255`.
proof fn lemma_mul255_plus_div(x: int, r: int)
    requires
        0 <= x,
        0 <= r < 255,
    ensures
        (x * 255 + r) / 255 == x,
{
    lemma_fundamental_div_mod_converse(x * 255 + r, 255, x, r);
}

/// The blended channel value stays within one byte.
proof fn lemma_blend_channel_bounds(b: int, w: int, a: int)
    requires
        0 <= b <= 255,
        0 <= w <= 255,
        0 <= a <= 255,
    ensures
        0 <= blend_channel(b, w, a) <= 255,
{
    assert(w * a + b * (255 - a) <= 255 * a + 255 * (255 - a)) by (nonlinear_arith)
        requires
            0 <= b <= 255,
            0 <= w <= 255,
            0 <= a <= 255,
    ;
    assert(0 <= w * a + b * (255 - a)) by (nonlinear_arith)
        requires
            0 <= b,
            0 <= w,
            0 <= a <= 255,
    ;
    lemma_div_is_ordered(w * a + b * (255 - a) + 127, (255 * 255 + 127) as int, 255);
    lemma_mul255_plus_div(255, 127);
    lemma_div_is_ordered(0, w * a + b * (255 - a) + 127, 255);
}

/// The blended alpha value stays within one byte.
proof fn lemma_blend_alpha_bounds(ba: int, wa: int)
    requires
        0 <= ba <= 255,
        0 <= wa <= 255,
    ensures
        0 <= blend_alpha(ba, wa) <= 255,
{
    assert(0 <= ba * (255 - wa) <= 255 * (255 - wa)) by (nonlinear_arith)
        requires
            0 <= ba <= 255,
            0 <= wa <= 255,
    ;
    lemma_div_is_ordered(ba * (255 - wa) + 127, 255 * (255 - wa) + 127, 255);
    lemma_mul255_plus_div(255 - wa, 127);
    lemma_div_is_ordered(0, ba * (255 - wa) + 127, 255);
}

/// A fully transparent overlay pixel leaves the base pixel unchanged.
pub proof fn lemma_blend_transparent(base: Pixel, over: Pixel)
    requires
        over.a == 0,
    ensures
        spec_blend(base, over) == base,
{
    lemma_mul255_plus_div(base.r as int, 127);
    lemma_mul255_plus_div(base.g as int, 127);
    lemma_mul255_plus_div(base.b as int, 127);
    lemma_mul255_plus_div(base.a as int, 127);
    assert(base.r as int * 255 == over.r as int * 0 + base.r as int * (255 - 0));
    assert(base.g as int * 255 == over.g as int * 0 + base.g as int * (255 - 0));
    assert(base.b as int * 255 == over.b as int * 0 + base.b as int * (255 - 0));
}

/// A fully opaque overlay pixel replaces the base pixel entirely.
pub proof fn lemma_blend_opaque(base: Pixel, over: Pixel)
    requires
        over.a == 255,
    ensures
        spec_blend(base, over) == over,
{
    lemma_mul255_plus_div(over.r as int, 127);
    lemma_mul255_plus_div(over.g as int, 127);
    lemma_mul255_plus_div(over.b as int, 127);
    lemma_mul255_plus_div(0, 127);
    assert(over.r as int * 255 == over.r as int * 255 + base.r as int * (255 - 255));
    assert(over.g as int * 255 == over.g as int * 255 + base.g as int * (255 - 255));
    assert(over.b as int * 255 == over.b as int * 255 + base.b as int * (255 - 255));
}

/// Blend one colour channel of the overlay onto the base.
fn blend_channel_exec(b: u8, w: u8, a: u8) -> (r: u8)
    ensures
        r as int == blend_channel(b as int, w as int, a as int),
{
    proof {
        lemma_blend_channel_bounds(b as int, w as int, a as int);
        assert(w as u32 * a as u32 == w as int * a as int) by (nonlinear_arith);
        assert(b as u32 * (255 - a as u32) == b as int * (255 - a as int)) by (nonlinear_arith)
            requires
                a <= 255,
        ;
    }
    let num: u32 = w as u32 * a as u32 + b as u32 * (255 - a as u32) + 127;
    (num / 255) as u8
}

/// Blend the alpha channel of the overlay onto the base.
fn blend_alpha_exec(ba: u8, wa: u8) -> (r: u8)
    ensures
        r as int == blend_alpha(ba as int, wa as int),
{
    proof {
        lemma_blend_alpha_bounds(ba as int, wa as int);
        assert(ba as u32 * (255 - wa as u32) == ba as int * (255 - wa as int)) by (nonlinear_arith)
            requires
                wa <= 255,
        ;
    }
    let num: u32 = ba as u32 * (255 - wa as u32) + 127;
    wa + (num / 255) as u8
}

/// Composite the watermark pixel `over` onto `base` with source-over blending.
/// A fully transparent overlay never touches the base pixel.
pub fn blend(base: Pixel, over: Pixel) -> (r: Pixel)
    ensures
        r == spec_blend(base, over),
{
    if over.a == 0 {
        proof {
            lemma_blend_transparent(base, over);
        }
        base
    } else {
        Pixel {
            r: blend_channel_exec(base.r, over.r, over.a),
            g: blend_channel_exec(base.g, over.g, over.a),
            b: blend_channel_exec(base.b, over.b, over.a),
            a: blend_alpha_exec(base.a, over.a),
        }
    }
}

} // verus!
