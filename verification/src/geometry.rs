//! The region calculator: derives the rectangular target region on the base
//! image where the watermark is painted, from the image and watermark
//! dimensions and a fixed padding.

use vstd::prelude::*;

verus! {

/// Fixed padding, in pixels, between the watermark region and the base
/// image's right and bottom edges.
pub const PADDING: u32 = 20;

/// Errors raised while validating inputs, before any image work starts.
#[derive(Clone, Copy, PartialEq, Eq, Structural, Debug)]
pub enum ValidationError {
    /// The watermark does not fit on the base image with the fixed padding.
    InvalidGeometry,
    /// A path has no file extension at all.
    MissingExtension,
    /// A path's file extension names no supported codec.
    UnsupportedExtension,
}

/// The rectangular sub-area of the base image eligible for blending, with
/// half-open bounds: `x_min <= x < x_max`, `y_min <= y < y_max`.
#[derive(Clone, Copy, PartialEq, Eq, Structural, Debug)]
pub struct Region {
    pub x_min: u64,
    pub x_max: u64,
    pub y_min: u64,
    pub y_max: u64,
}

impl Region {
    /// The bounds are ordered, so width and height are well defined.
    pub open spec fn wf(self) -> bool {
        self.x_min <= self.x_max && self.y_min <= self.y_max
    }

    pub open spec fn width(self) -> int {
        self.x_max - self.x_min
    }

    pub open spec fn height(self) -> int {
        self.y_max - self.y_min
    }

    /// Whether the coordinate `(x, y)` lies inside the region.
    pub open spec fn contains(self, x: int, y: int) -> bool {
        self.x_min <= x < self.x_max && self.y_min <= y < self.y_max
    }

    /// Whether the whole region lies inside an image of size `w` by `h`.
    pub open spec fn within(self, w: int, h: int) -> bool {
        self.x_max <= w && self.y_max <= h
    }

    /// The row-major position of `(x, y)` among the region's pixels, counting
    /// from the region's top-left corner.
    pub open spec fn pixel_index(self, x: int, y: int) -> int {
        (y - self.y_min) * self.width() + (x - self.x_min)
    }
}

/// The region the watermark is painted into: flush against the right edge at
/// the fixed padding, with its top edge `PADDING` above the bottom edge.
pub open spec fn spec_region(bw: int, bh: int, ww: int, wh: int) -> Region {
    Region {
        x_min: (bw - PADDING - ww) as u64,
        x_max: (bw - PADDING) as u64,
        y_min: (bh - PADDING) as u64,
        y_max: (bh - PADDING + wh) as u64,
    }
}

/// Compute the target region for a watermark of size `ww` by `wh` on a base
/// image of size `bw` by `bh`, or reject the pair when the watermark and
/// padding together exceed the base image along either axis.
pub fn compute_region(bw: u32, bh: u32, ww: u32, wh: u32) -> (r: Result<
    Region,
    ValidationError,
>)
    ensures
        r is Ok <==> ww + PADDING <= bw && wh + PADDING <= bh,
        r is Ok ==> r->Ok_0 == spec_region(bw as int, bh as int, ww as int, wh as int),
        r is Err ==> r->Err_0 == ValidationError::InvalidGeometry,
{
    if ww as u64 + PADDING as u64 > bw as u64 || wh as u64 + PADDING as u64 > bh as u64 {
        Err(ValidationError::InvalidGeometry)
    } else {
        Ok(
            Region {
                x_min: bw as u64 - PADDING as u64 - ww as u64,
                x_max: bw as u64 - PADDING as u64,
                y_min: bh as u64 - PADDING as u64,
                y_max: bh as u64 - PADDING as u64 + wh as u64,
            },
        )
    }
}

/// A computed region always spans exactly the watermark's dimensions.
pub proof fn lemma_region_spans_watermark(bw: int, bh: int, ww: int, wh: int)
    requires
        ww + PADDING <= bw,
        wh + PADDING <= bh,
        0 <= ww,
        0 <= wh,
        bw <= u32::MAX,
        bh <= u32::MAX,
    ensures
        spec_region(bw, bh, ww, wh).wf(),
        spec_region(bw, bh, ww, wh).width() == ww,
        spec_region(bw, bh, ww, wh).height() == wh,
{
}

/// When the watermark fits under the padding along both axes, the computed
/// region lies fully inside the base image bounds. The bound `wh <= PADDING`
/// is needed on top of `wh + PADDING < bh`: the region's top edge sits
/// `PADDING` pixels above the bottom of the base image, so a watermark taller
/// than the padding would hang past the bottom edge.
pub proof fn lemma_region_in_bounds(bw: int, bh: int, ww: int, wh: int)
    requires
        0 <= ww,
        0 <= wh,
        ww + PADDING < bw,
        wh + PADDING < bh,
        wh <= PADDING,
        bw <= u32::MAX,
        bh <= u32::MAX,
    ensures
        spec_region(bw, bh, ww, wh).wf(),
        spec_region(bw, bh, ww, wh).within(bw, bh),
        spec_region(bw, bh, ww, wh).x_min >= 0,
        spec_region(bw, bh, ww, wh).y_min >= 0,
{
}

} // verus!
