//! In-memory raster of 8-bit samples, the carrier for every analysis pass.

use vstd::prelude::*;

verus! {

/// An image held as plain samples: `channels` samples per pixel (1 for
/// grayscale, 3 for color), pixels stored row by row with the channels of
/// one pixel adjacent.
pub struct ImageGrid {
    pub width: usize,
    pub height: usize,
    pub channels: usize,
    pub data: Vec<u8>,
}

impl ImageGrid {
    /// The raster holds exactly one sample per (pixel, channel) and the
    /// channel count is one of the two supported layouts.
    pub open spec fn wf(self) -> bool {
        &&& (self.channels == 1 || self.channels == 3)
        &&& self.data@.len() == self.width * self.height * self.channels
    }

    /// Flat position of sample (x, y, c) inside `data`.
    pub open spec fn flat_index(self, x: int, y: int, c: int) -> int {
        (y * self.width + x) * self.channels + c
    }

    /// The sample of channel `c` at column `x`, row `y`.
    pub open spec fn sample(self, x: int, y: int, c: int) -> u8 {
        self.data@[self.flat_index(x, y, c)]
    }

    pub open spec fn in_bounds(self, x: int, y: int, c: int) -> bool {
        0 <= x < self.width && 0 <= y < self.height && 0 <= c < self.channels
    }

    /// Two grids have the same width, height and channel count.
    pub open spec fn same_shape(self, other: ImageGrid) -> bool {
        self.width == other.width && self.height == other.height
            && self.channels == other.channels
    }

    /// A grid of the given shape with every sample zero.
    pub fn new_zeroed(width: usize, height: usize, channels: usize) -> (r: ImageGrid)
        requires
            channels == 1 || channels == 3,
            width * height * channels <= usize::MAX,
        ensures
            r.wf(),
            r.width == width,
            r.height == height,
            r.channels == channels,
            forall|i: int| 0 <= i < r.data@.len() ==> r.data@[i] == 0u8,
    {
        assert(width * height <= width * height * channels) by (nonlinear_arith)
            requires
                channels >= 1,
                width >= 0,
                height >= 0,
        ;
        let n: usize = width * height * channels;
        let mut data: Vec<u8> = Vec::new();
        let mut i: usize = 0;
        while i < n
            invariant
                i <= n,
                data@.len() == i,
                forall|k: int| 0 <= k < i ==> data@[k] == 0u8,
            decreases n - i,
        {
            data.push(0u8);
            i = i + 1;
        }
        ImageGrid { width, height, channels, data }
    }

    /// Read the sample of channel `c` at column `x`, row `y`.
    pub fn get_sample(&self, x: usize, y: usize, c: usize) -> (v: u8)
        requires
            self.wf(),
            self.in_bounds(x as int, y as int, c as int),
        ensures
            v == self.sample(x as int, y as int, c as int),
    {
        let _n: usize = self.data.len();
        proof {
            lemma_flat_index_bound(
                self.width as int, self.height as int, self.channels as int,
                x as int, y as int, c as int,
            );
        }
        self.data[(y * self.width + x) * self.channels + c]
    }

    /// Overwrite the sample of channel `c` at column `x`, row `y`,
    /// leaving every other sample in place.
    pub fn set_sample(&mut self, x: usize, y: usize, c: usize, v: u8)
        requires
            old(self).wf(),
            old(self).in_bounds(x as int, y as int, c as int),
        ensures
            final(self).wf(),
            old(self).same_shape(*final(self)),
            final(self).data@ == old(self).data@.update(
                old(self).flat_index(x as int, y as int, c as int), v),
            final(self).sample(x as int, y as int, c as int) == v,
            forall|x2: int, y2: int, c2: int|
                old(self).in_bounds(x2, y2, c2) && !(x2 == x && y2 == y && c2 == c)
                    ==> #[trigger] final(self).sample(x2, y2, c2)
                        == old(self).sample(x2, y2, c2),
    {
        let _n: usize = self.data.len();
        proof {
            lemma_flat_index_bound(
                self.width as int, self.height as int, self.channels as int,
                x as int, y as int, c as int,
            );
        }
        let i: usize = (y * self.width + x) * self.channels + c;
        self.data.set(i, v);
        proof {
            assert forall|x2: int, y2: int, c2: int|
                old(self).in_bounds(x2, y2, c2) && !(x2 == x && y2 == y && c2 == c)
                implies #[trigger] final(self).sample(x2, y2, c2)
                    == old(self).sample(x2, y2, c2) by {
                lemma_flat_index_bound(
                    self.width as int, self.height as int, self.channels as int,
                    x2, y2, c2,
                );
                lemma_flat_index_injective(
                    self.width as int, self.height as int, self.channels as int,
                    x as int, y as int, c as int, x2, y2, c2,
                );
            }
        }
    }
}

/// A sample position inside the raster maps to a flat index inside the
/// data vector, and every arithmetic step stays within the vector length.
pub proof fn lemma_flat_index_bound(w: int, h: int, ch: int, x: int, y: int, c: int)
    by (nonlinear_arith)
    requires
        ch >= 1,
        0 <= x < w,
        0 <= y < h,
        0 <= c < ch,
    ensures
        0 <= y * w + x < w * h,
        0 <= (y * w + x) * ch + c < w * h * ch,
        w * h <= w * h * ch,
{
}

/// Distinct sample positions map to distinct flat indices.
pub proof fn lemma_flat_index_injective(
    w: int, h: int, ch: int,
    x1: int, y1: int, c1: int,
    x2: int, y2: int, c2: int,
)
    by (nonlinear_arith)
    requires
        ch >= 1,
        0 <= x1 < w,
        0 <= y1 < h,
        0 <= c1 < ch,
        0 <= x2 < w,
        0 <= y2 < h,
        0 <= c2 < ch,
    ensures
        ((y1 * w + x1) * ch + c1 == (y2 * w + x2) * ch + c2)
            <==> (x1 == x2 && y1 == y2 && c1 == c2),
{
}

} // verus!
