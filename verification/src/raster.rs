//! An owned width-by-height grid of RGBA pixels in row-major order: the
//! in-memory model of a decoded image that the compositor works on.

use crate::pixel::Pixel;
use vstd::prelude::*;

verus! {

use vstd::pervasive::VecAdditionalExecFns;

/// A decoded image: `width * height` pixels stored row by row.
pub struct ImageBuf {
    pub width: u32,
    pub height: u32,
    pub pixels: Vec<Pixel>,
}

/// A base image together with the name parts its output file is derived from.
pub struct LoadedImage {
    pub data: ImageBuf,
    pub filename: String,
    pub ext: String,
}

impl ImageBuf {
    /// The pixel store holds exactly one pixel per coordinate.
    pub open spec fn wf(self) -> bool {
        self.pixels.len() == self.width as int * self.height as int
    }

    /// Whether `(x, y)` is a coordinate of this image.
    pub open spec fn contains_coord(self, x: int, y: int) -> bool {
        0 <= x < self.width && 0 <= y < self.height
    }

    /// The row-major position of `(x, y)` in the pixel store.
    pub open spec fn coord_index(self, x: int, y: int) -> int {
        y * self.width + x
    }

    /// The pixel at `(x, y)`.
    pub open spec fn pixel_at(self, x: int, y: int) -> Pixel
        recommends
            self.wf(),
            self.contains_coord(x, y),
    {
        self.pixels[self.coord_index(x, y)]
    }

    /// A fresh image of the given size with every pixel set to `fill`.
    pub fn new(width: u32, height: u32, fill: Pixel) -> (img: ImageBuf)
        requires
            width as int * height as int <= usize::MAX,
        ensures
            img.wf(),
            img.width == width,
            img.height == height,
            forall|x: int, y: int|
                img.contains_coord(x, y) ==> #[trigger] img.pixel_at(x, y) == fill,
    {
        proof {
            assert(width as int * height as int == (width as usize) as int * (height
                as usize) as int);
        }
        let total: usize = width as usize * height as usize;
        let mut pixels: Vec<Pixel> = Vec::new();
        let mut i: usize = 0;
        while i < total
            invariant
                i <= total,
                pixels.len() == i,
                forall|j: int| 0 <= j < i ==> pixels[j] == fill,
            decreases total - i,
        {
            pixels.push(fill);
            i = i + 1;
        }
        let img = ImageBuf { width, height, pixels };
        proof {
            assert forall|x: int, y: int| img.contains_coord(x, y) implies #[trigger] img.pixel_at(
                x,
                y,
            ) == fill by {
                lemma_coord_index_bounds(img, x, y);
            }
        }
        img
    }

    /// Read the pixel at `(x, y)`.
    pub fn get_pixel(&self, x: u32, y: u32) -> (p: Pixel)
        requires
            self.wf(),
            x < self.width,
            y < self.height,
        ensures
            p == self.pixel_at(x as int, y as int),
    {
        proof {
            lemma_coord_index_bounds(*self, x as int, y as int);
        }
        let idx: usize = y as usize * self.width as usize + x as usize;
        self.pixels[idx]
    }

    /// Overwrite the pixel at `(x, y)`, leaving every other pixel unchanged.
    pub fn put_pixel(&mut self, x: u32, y: u32, p: Pixel)
        requires
            old(self).wf(),
            x < old(self).width,
            y < old(self).height,
        ensures
            final(self).wf(),
            final(self).width == old(self).width,
            final(self).height == old(self).height,
            final(self).pixels@ == old(self).pixels@.update(
                old(self).coord_index(x as int, y as int),
                p,
            ),
            final(self).pixel_at(x as int, y as int) == p,
            forall|x2: int, y2: int|
                old(self).contains_coord(x2, y2) && (x2 != x || y2 != y)
                    ==> #[trigger] final(self).pixel_at(x2, y2) == old(self).pixel_at(x2, y2),
    {
        proof {
            lemma_coord_index_bounds(*self, x as int, y as int);
        }
        let idx: usize = y as usize * self.width as usize + x as usize;
        self.pixels.set(idx, p);
        proof {
            assert forall|x2: int, y2: int|
                old(self).contains_coord(x2, y2) && (x2 != x || y2 != y)
                implies #[trigger] self.pixel_at(x2, y2) == old(self).pixel_at(x2, y2) by {
                lemma_coord_index_bounds(*old(self), x2, y2);
                lemma_coord_index_injective(*old(self), x as int, y as int, x2, y2);
            }
        }
    }

    /// An independent copy of this image, pixel for pixel.
    pub fn duplicate(&self) -> (img: ImageBuf)
        ensures
            img.width == self.width,
            img.height == self.height,
            img.pixels@ == self.pixels@,
    {
        let mut pixels: Vec<Pixel> = Vec::new();
        let mut i: usize = 0;
        let n: usize = self.pixels.len();
        while i < n
            invariant
                i <= n,
                n == self.pixels.len(),
                pixels.len() == i,
                forall|j: int| 0 <= j < i ==> pixels[j] == self.pixels[j],
            decreases n - i,
        {
            pixels.push(self.pixels[i]);
            i = i + 1;
        }
        proof {
            assert(pixels@ =~= self.pixels@);
        }
        ImageBuf { width: self.width, height: self.height, pixels }
    }
}

/// The row-major index of an in-bounds coordinate lies inside the pixel store.
pub proof fn lemma_coord_index_bounds(img: ImageBuf, x: int, y: int)
    requires
        img.wf(),
        img.contains_coord(x, y),
    ensures
        0 <= img.coord_index(x, y) < img.pixels.len(),
{
    assert(0 <= y * img.width + x < img.width as int * img.height as int) by (nonlinear_arith)
        requires
            0 <= x < img.width,
            0 <= y < img.height,
    ;
}

/// Distinct in-bounds coordinates occupy distinct slots of the pixel store.
pub proof fn lemma_coord_index_injective(img: ImageBuf, x1: int, y1: int, x2: int, y2: int)
    requires
        img.contains_coord(x1, y1),
        img.contains_coord(x2, y2),
        x1 != x2 || y1 != y2,
    ensures
        img.coord_index(x1, y1) != img.coord_index(x2, y2),
{
    assert(y1 * img.width + x1 != y2 * img.width + x2) by (nonlinear_arith)
        requires
            0 <= x1 < img.width,
            0 <= x2 < img.width,
            0 <= y1 < img.height,
            0 <= y2 < img.height,
            x1 != x2 || y1 != y2,
    ;
}

} // verus!
