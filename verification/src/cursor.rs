//! The tiling cursor: a stateful offset into the watermark, advanced once per
//! processed region pixel, wrapping at the watermark's width and height so the
//! watermark pattern repeats when the region exceeds one watermark tile.

use vstd::arithmetic::div_mod::{
    lemma_fundamental_div_mod, lemma_fundamental_div_mod_converse,
    lemma_mod_division_less_than_divisor, lemma_small_mod,
};
use vstd::prelude::*;

verus! {

/// The cursor position `(wx, wy)` inside the watermark.
#[derive(Clone, Copy, PartialEq, Eq, Structural, Debug)]
pub struct TilingCursor {
    pub wx: u32,
    pub wy: u32,
}

/// The cursor state after one advance inside a watermark of size `w` by `h`:
/// `wx` steps right, wrapping to the next row when it reaches `w`; `wy` wraps
/// back to the top row when it reaches `h`.
pub open spec fn spec_advance(c: TilingCursor, w: int, h: int) -> TilingCursor {
    if c.wx + 1 < w {
        TilingCursor { wx: (c.wx + 1) as u32, wy: c.wy }
    } else if c.wy + 1 < h {
        TilingCursor { wx: 0u32, wy: (c.wy + 1) as u32 }
    } else {
        TilingCursor { wx: 0u32, wy: 0u32 }
    }
}

/// The cursor position after `k` advances from `(0, 0)` inside a watermark of
/// size `w` by `h`: the `k`-th cell of the watermark in row-major order,
/// wrapping around after `w * h` steps.
pub open spec fn cursor_at(k: int, w: int, h: int) -> TilingCursor
    recommends
        0 <= k,
        1 <= w,
        1 <= h,
{
    TilingCursor { wx: (k % w) as u32, wy: ((k / w) % h) as u32 }
}

impl TilingCursor {
    /// Whether the cursor points inside a watermark of size `w` by `h`.
    pub open spec fn in_bounds(self, w: int, h: int) -> bool {
        self.wx < w && self.wy < h
    }

    /// A fresh cursor at the watermark's top-left corner.
    pub fn new() -> (c: TilingCursor)
        ensures
            c == (TilingCursor { wx: 0u32, wy: 0u32 }),
    {
        TilingCursor { wx: 0, wy: 0 }
    }

    /// Step the cursor one cell forward inside a watermark of size `w` by
    /// `h`, wrapping at the right and bottom edges.
    pub fn advance(&mut self, w: u32, h: u32)
        requires
            old(self).in_bounds(w as int, h as int),
        ensures
            *final(self) == spec_advance(*old(self), w as int, h as int),
            final(self).in_bounds(w as int, h as int),
    {
        self.wx = self.wx + 1;
        if self.wx == w {
            self.wx = 0;
            self.wy = self.wy + 1;
            if self.wy == h {
                self.wy = 0;
            }
        }
    }
}

/// Before any advance the cursor sits at the watermark's top-left corner.
pub proof fn lemma_cursor_at_zero(w: int, h: int)
    requires
        1 <= w,
        1 <= h,
    ensures
        cursor_at(0, w, h) == (TilingCursor { wx: 0u32, wy: 0u32 }),
{
    lemma_fundamental_div_mod_converse(0, w, 0, 0);
    lemma_small_mod(0nat, h as nat);
}

/// Advancing the cursor from the position after `k` steps gives the position
/// after `k + 1` steps: the exec cursor walks the row-major tour.
pub proof fn lemma_cursor_advance(k: int, w: int, h: int)
    requires
        0 <= k,
        1 <= w <= u32::MAX,
        1 <= h <= u32::MAX,
    ensures
        cursor_at(k + 1, w, h) == spec_advance(cursor_at(k, w, h), w, h),
        cursor_at(k, w, h).in_bounds(w, h),
{
    let q = k / w;
    let r = k % w;
    lemma_fundamental_div_mod(k, w);
    lemma_mod_division_less_than_divisor(k, w);
    lemma_mod_division_less_than_divisor(q, h);
    assert(0 <= q) by (nonlinear_arith)
        requires
            0 <= k,
            1 <= w,
            k == w * q + r,
            0 <= r < w,
    ;
    let b = q % h;
    if r + 1 < w {
        lemma_fundamental_div_mod_converse(k + 1, w, q, r + 1);
    } else {
        assert(k + 1 == (q + 1) * w + 0) by (nonlinear_arith)
            requires
                k == w * q + r,
                r == w - 1,
        ;
        lemma_fundamental_div_mod_converse(k + 1, w, q + 1, 0);
        lemma_fundamental_div_mod(q, h);
        lemma_mod_division_less_than_divisor(q, h);
        let qh = q / h;
        assert(0 <= qh) by (nonlinear_arith)
            requires
                0 <= q,
                1 <= h,
                q == h * qh + b,
                0 <= b < h,
        ;
        if b + 1 < h {
            assert(q + 1 == qh * h + (b + 1)) by (nonlinear_arith)
                requires
                    q == h * qh + b,
            ;
            lemma_fundamental_div_mod_converse(q + 1, h, qh, b + 1);
        } else {
            assert(q + 1 == (qh + 1) * h + 0) by (nonlinear_arith)
                requires
                    q == h * qh + b,
                    b == h - 1,
            ;
            lemma_fundamental_div_mod_converse(q + 1, h, qh + 1, 0);
        }
    }
}

/// Whether some step among the first `w * h` lands the cursor on the
/// watermark cell `(a, b)`.
pub open spec fn cursor_tour_covers(a: int, b: int, w: int, h: int) -> bool {
    exists|k: int|
        0 <= k < w * h && #[trigger] cursor_at(k, w, h) == (TilingCursor {
            wx: a as u32,
            wy: b as u32,
        })
}

/// For a watermark of `w * h` cells, the cursor's row-major tour visits every
/// cell exactly once during the first `w * h` steps — no cell is repeated and
/// none is skipped — and the advance past the last cell returns the cursor to
/// `(0, 0)`: a pure wrap.
pub proof fn lemma_cursor_tour(w: int, h: int)
    requires
        1 <= w <= u32::MAX,
        1 <= h <= u32::MAX,
    ensures
        forall|k1: int, k2: int|
            0 <= k1 < k2 < w * h ==> #[trigger] cursor_at(k1, w, h) != #[trigger] cursor_at(
                k2,
                w,
                h,
            ),
        forall|a: int, b: int|
            0 <= a < w && 0 <= b < h ==> #[trigger] cursor_tour_covers(a, b, w, h),
        cursor_at(w * h, w, h) == (TilingCursor { wx: 0u32, wy: 0u32 }),
{
    assert forall|k1: int, k2: int| 0 <= k1 < k2 < w * h implies #[trigger] cursor_at(
        k1,
        w,
        h,
    ) != #[trigger] cursor_at(k2, w, h) by {
        lemma_tour_step_distinct(k1, k2, w, h);
    }
    assert forall|a: int, b: int| 0 <= a < w && 0 <= b < h implies #[trigger] cursor_tour_covers(
        a,
        b,
        w,
        h,
    ) by {
        let k = b * w + a;
        assert(0 <= k < w * h) by (nonlinear_arith)
            requires
                0 <= a < w,
                0 <= b < h,
                k == b * w + a,
        ;
        lemma_fundamental_div_mod_converse(k, w, b, a);
        lemma_small_mod(b as nat, h as nat);
        assert(cursor_at(k, w, h) == (TilingCursor { wx: a as u32, wy: b as u32 }));
    }
    assert(w * h == h * w + 0) by (nonlinear_arith);
    lemma_fundamental_div_mod_converse(w * h, w, h, 0);
    lemma_small_mod(0nat, h as nat);
    assert((h % h) == 0) by {
        assert(h == 1 * h + 0) by (nonlinear_arith);
        lemma_fundamental_div_mod_converse(h, h, 1, 0);
    }
}

/// Two distinct steps of the first `w * h` land on distinct cells.
proof fn lemma_tour_step_distinct(k1: int, k2: int, w: int, h: int)
    requires
        1 <= w <= u32::MAX,
        1 <= h <= u32::MAX,
        0 <= k1 < k2 < w * h,
    ensures
        cursor_at(k1, w, h) != cursor_at(k2, w, h),
{
    lemma_fundamental_div_mod(k1, w);
    lemma_fundamental_div_mod(k2, w);
    lemma_mod_division_less_than_divisor(k1, w);
    lemma_mod_division_less_than_divisor(k2, w);
    let q1 = k1 / w;
    let q2 = k2 / w;
    assert(0 <= q1 < h && 0 <= q2 < h) by (nonlinear_arith)
        requires
            1 <= w,
            1 <= h,
            0 <= k1 < k2 < w * h,
            k1 == w * q1 + (k1 % w),
            k2 == w * q2 + (k2 % w),
            0 <= k1 % w < w,
            0 <= k2 % w < w,
    ;
    lemma_small_mod(q1 as nat, h as nat);
    lemma_small_mod(q2 as nat, h as nat);
    if cursor_at(k1, w, h) == cursor_at(k2, w, h) {
        assert(k1 % w == k2 % w);
        assert(q1 == q2);
        assert(k1 == k2);
        assert(false);
    }
}

} // verus!
