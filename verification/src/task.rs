//! The image task: computes the target region once, then drives the pixel
//! compositor over every region coordinate in row-major order, reading the
//! watermark through the tiling cursor and writing into an owned full-size
//! output buffer. Pixels outside the region pass through from the base image.

use crate::cursor::{cursor_at, lemma_cursor_advance, lemma_cursor_at_zero, TilingCursor};
use crate::geometry::{compute_region, spec_region, Region, ValidationError, PADDING};
use crate::pixel::{blend, lemma_blend_opaque, lemma_blend_transparent, spec_blend, Pixel};
use crate::raster::ImageBuf;
use vstd::arithmetic::div_mod::{lemma_fundamental_div_mod_converse, lemma_small_mod};
use vstd::prelude::*;

verus! {

/// The pixel a finished task leaves at `(x, y)`: inside the region, the base
/// pixel blended with the watermark pixel the tiling cursor reaches on the
/// region's row-major step for `(x, y)`; outside the region, the base pixel
/// unchanged.
pub open spec fn composited_pixel(
    base: ImageBuf,
    wm: ImageBuf,
    reg: Region,
    x: int,
    y: int,
) -> Pixel
    recommends
        base.wf(),
        wm.wf(),
        base.contains_coord(x, y),
        1 <= wm.width,
        1 <= wm.height,
{
    if reg.contains(x, y) {
        let c = cursor_at(reg.pixel_index(x, y), wm.width as int, wm.height as int);
        spec_blend(base.pixel_at(x, y), wm.pixel_at(c.wx as int, c.wy as int))
    } else {
        base.pixel_at(x, y)
    }
}

/// Outside the computed region the task is an identity: the output pixel is
/// exactly the input base pixel.
pub proof fn lemma_outside_region_identity(base: ImageBuf, wm: ImageBuf, reg: Region, x: int, y: int)
    requires
        !reg.contains(x, y),
    ensures
        composited_pixel(base, wm, reg, x, y) == base.pixel_at(x, y),
{
}

/// When the region spans exactly one watermark tile, the cursor's row-major
/// walk lines each region coordinate up with the watermark pixel at the same
/// offset: no wrap-around is ever taken.
pub proof fn lemma_exact_tile_alignment(base: ImageBuf, wm: ImageBuf, reg: Region, x: int, y: int)
    requires
        1 <= wm.width <= u32::MAX,
        1 <= wm.height <= u32::MAX,
        reg.width() == wm.width,
        reg.height() == wm.height,
        reg.contains(x, y),
    ensures
        composited_pixel(base, wm, reg, x, y) == spec_blend(
            base.pixel_at(x, y),
            wm.pixel_at(x - reg.x_min, y - reg.y_min),
        ),
{
    let w = wm.width as int;
    let h = wm.height as int;
    let dx = x - reg.x_min;
    let dy = y - reg.y_min;
    assert(reg.pixel_index(x, y) == dy * w + dx);
    lemma_fundamental_div_mod_converse(dy * w + dx, w, dy, dx);
    lemma_small_mod(dy as nat, h as nat);
}

/// A fully transparent watermark pixel is a no-op: the output pixel under it
/// equals the base pixel exactly.
pub proof fn lemma_transparent_watermark_pixel(
    base: ImageBuf,
    wm: ImageBuf,
    reg: Region,
    x: int,
    y: int,
)
    requires
        1 <= wm.width <= u32::MAX,
        1 <= wm.height <= u32::MAX,
        reg.width() == wm.width,
        reg.height() == wm.height,
        reg.contains(x, y),
        wm.pixel_at(x - reg.x_min, y - reg.y_min).a == 0,
    ensures
        composited_pixel(base, wm, reg, x, y) == base.pixel_at(x, y),
{
    lemma_exact_tile_alignment(base, wm, reg, x, y);
    lemma_blend_transparent(base.pixel_at(x, y), wm.pixel_at(x - reg.x_min, y - reg.y_min));
}

/// A fully opaque watermark pixel overrides the base: the output pixel under
/// it equals the watermark pixel exactly.
pub proof fn lemma_opaque_watermark_pixel(
    base: ImageBuf,
    wm: ImageBuf,
    reg: Region,
    x: int,
    y: int,
)
    requires
        1 <= wm.width <= u32::MAX,
        1 <= wm.height <= u32::MAX,
        reg.width() == wm.width,
        reg.height() == wm.height,
        reg.contains(x, y),
        wm.pixel_at(x - reg.x_min, y - reg.y_min).a == 255,
    ensures
        composited_pixel(base, wm, reg, x, y) == wm.pixel_at(x - reg.x_min, y - reg.y_min),
{
    lemma_exact_tile_alignment(base, wm, reg, x, y);
    lemma_blend_opaque(base.pixel_at(x, y), wm.pixel_at(x - reg.x_min, y - reg.y_min));
}

/// Drive the compositor over every coordinate of `reg` in row-major order
/// (outer loop over y, inner over x), blending the watermark pixel under the
/// tiling cursor onto the base pixel; every other pixel is copied from the
/// base unchanged. The output is always a full-size image.
pub fn compute_image(base: &ImageBuf, wm: &ImageBuf, reg: &Region) -> (out: ImageBuf)
    requires
        base.wf(),
        wm.wf(),
        1 <= wm.width,
        1 <= wm.height,
        reg.wf(),
        reg.within(base.width as int, base.height as int),
    ensures
        out.wf(),
        out.width == base.width,
        out.height == base.height,
        forall|x: int, y: int|
            base.contains_coord(x, y) ==> #[trigger] out.pixel_at(x, y) == composited_pixel(
                *base,
                *wm,
                *reg,
                x,
                y,
            ),
{
    let ghost w = wm.width as int;
    let ghost h = wm.height as int;
    let x0: u32 = reg.x_min as u32;
    let x1: u32 = reg.x_max as u32;
    let y0: u32 = reg.y_min as u32;
    let y1: u32 = reg.y_max as u32;
    proof {
        assert(x0 == reg.x_min && x1 == reg.x_max && y0 == reg.y_min && y1 == reg.y_max);
    }
    let ghost rw = reg.width();
    let mut out = base.duplicate();
    let mut cur = TilingCursor::new();
    proof {
        lemma_cursor_at_zero(w, h);
    }
    let mut y: u32 = y0;
    while y < y1
        invariant
            base.wf(),
            wm.wf(),
            1 <= w <= u32::MAX,
            1 <= h <= u32::MAX,
            w == wm.width,
            h == wm.height,
            reg.wf(),
            reg.within(base.width as int, base.height as int),
            x0 == reg.x_min,
            x1 == reg.x_max,
            y0 == reg.y_min,
            y1 == reg.y_max,
            rw == reg.width(),
            y0 <= y <= y1,
            out.wf(),
            out.width == base.width,
            out.height == base.height,
            cur == cursor_at((y - y0) * rw, w, h),
            cur.in_bounds(w, h),
            forall|x2: int, y2: int|
                base.contains_coord(x2, y2) && (!reg.contains(x2, y2) || y2 < y)
                    ==> #[trigger] out.pixel_at(x2, y2) == composited_pixel(*base, *wm, *reg, x2, y2),
            forall|x2: int, y2: int|
                base.contains_coord(x2, y2) && reg.contains(x2, y2) && y2 >= y
                    ==> #[trigger] out.pixel_at(x2, y2) == base.pixel_at(x2, y2),
        decreases y1 - y,
    {
        let mut x: u32 = x0;
        while x < x1
            invariant
                base.wf(),
                wm.wf(),
                1 <= w <= u32::MAX,
                1 <= h <= u32::MAX,
                w == wm.width,
                h == wm.height,
                reg.wf(),
                reg.within(base.width as int, base.height as int),
                x0 == reg.x_min,
                x1 == reg.x_max,
                y0 == reg.y_min,
                y1 == reg.y_max,
                rw == reg.width(),
                y0 <= y < y1,
                x0 <= x <= x1,
                out.wf(),
                out.width == base.width,
                out.height == base.height,
                cur == cursor_at((y - y0) * rw + (x - x0), w, h),
                cur.in_bounds(w, h),
                forall|x2: int, y2: int|
                    base.contains_coord(x2, y2) && (!reg.contains(x2, y2) || y2 < y || (y2 == y
                        && x2 < x)) ==> #[trigger] out.pixel_at(x2, y2) == composited_pixel(
                        *base,
                        *wm,
                        *reg,
                        x2,
                        y2,
                    ),
                forall|x2: int, y2: int|
                    base.contains_coord(x2, y2) && reg.contains(x2, y2) && (y2 > y || (y2 == y
                        && x2 >= x)) ==> #[trigger] out.pixel_at(x2, y2) == base.pixel_at(x2, y2),
            decreases x1 - x,
        {
            let ghost k = (y - y0) * rw + (x - x0);
            let bp = base.get_pixel(x, y);
            let wp = wm.get_pixel(cur.wx, cur.wy);
            let np = blend(bp, wp);
            proof {
                assert(reg.contains(x as int, y as int));
                assert(reg.pixel_index(x as int, y as int) == k);
                assert(np == composited_pixel(*base, *wm, *reg, x as int, y as int));
                lemma_cursor_advance(k, w, h);
            }
            out.put_pixel(x, y, np);
            cur.advance(wm.width, wm.height);
            proof {
                assert((y - y0) * rw + (x + 1 - x0) == k + 1);
            }
            x = x + 1;
        }
        proof {
            assert((y - y0) * rw + rw == (y + 1 - y0) * rw) by (nonlinear_arith);
        }
        y = y + 1;
    }
    out
}

/// The whole image task for one base image and the shared watermark:
/// validate the geometry, compute the region once, and composite. Succeeds
/// exactly when the watermark and padding fit inside the base image along
/// both axes and the watermark is no taller than the padding (a taller one
/// would push the region past the base image's bottom edge); any other pair
/// is rejected as invalid geometry before any pixel is touched.
pub fn apply_watermark(base: &ImageBuf, wm: &ImageBuf) -> (r: Result<ImageBuf, ValidationError>)
    requires
        base.wf(),
        wm.wf(),
    ensures
        r is Ok <==> (wm.width + PADDING <= base.width && wm.height + PADDING <= base.height
            && wm.height <= PADDING),
        r is Err ==> r->Err_0 == ValidationError::InvalidGeometry,
        r is Ok ==> {
            let out = r->Ok_0;
            let reg = spec_region(
                base.width as int,
                base.height as int,
                wm.width as int,
                wm.height as int,
            );
            &&& out.wf()
            &&& out.width == base.width
            &&& out.height == base.height
            &&& forall|x: int, y: int|
                base.contains_coord(x, y) ==> #[trigger] out.pixel_at(x, y) == composited_pixel(
                    *base,
                    *wm,
                    reg,
                    x,
                    y,
                )
            &&& forall|x: int, y: int|
                base.contains_coord(x, y) && reg.contains(x, y) ==> #[trigger] out.pixel_at(x, y)
                    == spec_blend(base.pixel_at(x, y), wm.pixel_at(x - reg.x_min, y - reg.y_min))
            &&& forall|x: int, y: int|
                base.contains_coord(x, y) && !reg.contains(x, y) ==> #[trigger] out.pixel_at(x, y)
                    == base.pixel_at(x, y)
        },
{
    let reg = match compute_region(base.width, base.height, wm.width, wm.height) {
        Ok(reg) => reg,
        Err(e) => {
            return Err(e);
        },
    };
    if wm.height > PADDING {
        return Err(ValidationError::InvalidGeometry);
    }
    if wm.width == 0 || wm.height == 0 {
        let out = base.duplicate();
        proof {
            assert(reg.x_min == reg.x_max || reg.y_min == reg.y_max);
            assert(forall|x: int, y: int| !reg.contains(x, y));
            assert(forall|x: int, y: int|
                base.contains_coord(x, y) ==> #[trigger] out.pixel_at(x, y) == composited_pixel(
                    *base,
                    *wm,
                    reg,
                    x,
                    y,
                ));
        }
        return Ok(out);
    }
    let out = compute_image(base, wm, &reg);
    proof {
        assert(reg.width() == wm.width && reg.height() == wm.height);
        assert forall|x: int, y: int|
            base.contains_coord(x, y) && reg.contains(x, y) implies #[trigger] out.pixel_at(x, y)
            == spec_blend(base.pixel_at(x, y), wm.pixel_at(x - reg.x_min, y - reg.y_min)) by {
            lemma_exact_tile_alignment(*base, *wm, reg, x, y);
        }
    }
    Ok(out)
}

} // verus!
