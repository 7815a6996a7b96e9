use vstd::prelude::*;

verus! {

/// Pure white, the background value of a normalized image.
pub const WHITE: u8 = 255;

/// The sample of column `x` in row `y` of a row-major buffer `w` samples wide.
pub open spec fn pix_at(s: Seq<u8>, w: int, x: int, y: int) -> u8 {
    s[y * w + x]
}

/// A single-channel luminance raster.  `pixels` holds one sample per pixel,
/// row by row: the sample of column `x` in row `y` sits at `y * width + x`.
/// A sample of 0 is black, 255 is white.
pub struct Image {
    pub width: u32,
    pub height: u32,
    pub pixels: Vec<u8>,
}

impl Image {
    /// The pixel buffer covers the grid exactly.
    pub open spec fn wf(self) -> bool {
        self.pixels@.len() == self.width as int * self.height as int
    }

    /// The luminance sample at column `x` of row `y`.
    pub open spec fn pix(self, x: int, y: int) -> u8 {
        pix_at(self.pixels@, self.width as int, x, y)
    }

    pub open spec fn in_bounds(self, x: int, y: int) -> bool {
        &&& 0 <= x < self.width as int
        &&& 0 <= y < self.height as int
    }

    pub fn get(&self, x: u32, y: u32) -> (l: u8)
        requires
            self.wf(),
            self.in_bounds(x as int, y as int),
        ensures
            l == self.pix(x as int, y as int),
    {
        let n: usize = self.pixels.len();
        proof {
            lemma_row_major_bound(
                x as int,
                y as int,
                self.width as int,
                self.height as int,
            );
            assert((y as int) * (self.width as int) + (x as int) < (n as int));
        }
        let idx: usize = (y as usize) * (self.width as usize) + (x as usize);
        self.pixels[idx]
    }

    pub fn set(&mut self, x: u32, y: u32, l: u8)
        requires
            old(self).wf(),
            old(self).in_bounds(x as int, y as int),
        ensures
            final(self).wf(),
            final(self).width == old(self).width,
            final(self).height == old(self).height,
            final(self).pix(x as int, y as int) == l,
            forall|x2: int, y2: int|
                old(self).in_bounds(x2, y2) && (x2 != x as int || y2 != y as int)
                    ==> final(self).pix(x2, y2) == old(self).pix(x2, y2),
    {
        let n: usize = self.pixels.len();
        proof {
            lemma_row_major_bound(
                x as int,
                y as int,
                self.width as int,
                self.height as int,
            );
            assert((y as int) * (self.width as int) + (x as int) < (n as int));
        }
        let idx: usize = (y as usize) * (self.width as usize) + (x as usize);
        self.pixels.set(idx, l);
        proof {
            assert forall|x2: int, y2: int|
                old(self).in_bounds(x2, y2) && (x2 != x as int || y2 != y as int)
                    implies self.pix(x2, y2) == old(self).pix(x2, y2) by {
                lemma_row_major_bound(
                    x2,
                    y2,
                    old(self).width as int,
                    old(self).height as int,
                );
                lemma_row_major_injective(
                    x as int,
                    y as int,
                    x2,
                    y2,
                    old(self).width as int,
                );
            }
        }
    }

    /// A fresh image of the given size with every sample set to `l`.
    pub fn new_filled(width: u32, height: u32, l: u8) -> (img: Image)
        ensures
            img.wf(),
            img.width == width,
            img.height == height,
            forall|x: int, y: int| img.in_bounds(x, y) ==> img.pix(x, y) == l,
    {
        let mut pixels: Vec<u8> = Vec::new();
        let mut y: u32 = 0;
        while y < height
            invariant
                y <= height,
                pixels@.len() == y as int * width as int,
                forall|i: int| 0 <= i < pixels@.len() ==> pixels@[i] == l,
            decreases height - y,
        {
            let mut x: u32 = 0;
            while x < width
                invariant
                    x <= width,
                    pixels@.len() == y as int * width as int + x as int,
                    forall|i: int| 0 <= i < pixels@.len() ==> pixels@[i] == l,
                decreases width - x,
            {
                pixels.push(l);
                x = x + 1;
            }
            y = y + 1;
            proof {
                assert(pixels@.len() == (y - 1) as int * width as int + width as int);
                assert((y - 1) as int * width as int + width as int
                    == y as int * width as int) by (nonlinear_arith);
            }
        }
        proof {
            assert(pixels@.len() == height as int * width as int);
            assert(height as int * width as int == width as int * height as int)
                by (nonlinear_arith);
        }
        let img = Image { width, height, pixels };
        proof {
            assert forall|x: int, y2: int| img.in_bounds(x, y2) implies img.pix(x, y2) == l by {
                lemma_row_major_bound(x, y2, width as int, height as int);
            }
        }
        img
    }
}

/// A row-major index of an in-bounds pixel lies inside the buffer.
pub proof fn lemma_row_major_bound(x: int, y: int, w: int, h: int)
    requires
        0 <= x < w,
        0 <= y < h,
    ensures
        0 <= y * w + x < w * h,
{
    assert(0 <= y * w + x < w * h) by (nonlinear_arith)
        requires
            0 <= x < w,
            0 <= y < h,
    ;
}

/// Two distinct in-bounds pixels have distinct row-major indices.
pub proof fn lemma_row_major_injective(x1: int, y1: int, x2: int, y2: int, w: int)
    requires
        0 <= x1 < w,
        0 <= x2 < w,
        0 <= y1,
        0 <= y2,
        x1 != x2 || y1 != y2,
    ensures
        y1 * w + x1 != y2 * w + x2,
{
    assert(y1 * w + x1 != y2 * w + x2) by (nonlinear_arith)
        requires
            0 <= x1 < w,
            0 <= x2 < w,
            0 <= y1,
            0 <= y2,
            x1 != x2 || y1 != y2,
    ;
}

} // verus!
