//! Neighborhood windows: the unit of co-occurrence analysis.
//!
//! A window is a small rectangular arrangement of samples cut out of an
//! image around one pixel.  In the interior of the image it is 3x3; at a
//! border it shrinks to 2x3, 3x2 or 2x2 so that it never reaches outside
//! the image.

use vstd::prelude::*;
use crate::grid::ImageGrid;
use crate::grid::lemma_flat_index_bound;

verus! {

/// A window of raw sample values, stored row by row.
pub struct Window {
    pub rows: usize,
    pub cols: usize,
    pub vals: Vec<u8>,
}

/// Mathematical model of a window.
pub ghost struct WinView {
    pub rows: int,
    pub cols: int,
    pub cells: Seq<u8>,
}

impl View for Window {
    type V = WinView;

    open spec fn view(&self) -> WinView {
        WinView { rows: self.rows as int, cols: self.cols as int, cells: self.vals@ }
    }
}

impl WinView {
    /// Each side is 2 or 3 cells long and every cell is present.
    pub open spec fn wf(self) -> bool {
        &&& (self.rows == 2 || self.rows == 3)
        &&& (self.cols == 2 || self.cols == 3)
        &&& self.cells.len() == self.rows * self.cols
    }

    /// The sample at row `i`, column `j` of the window.
    pub open spec fn cell(self, i: int, j: int) -> u8 {
        self.cells[i * self.cols + j]
    }

    /// Every cell holds the value `v`.
    pub open spec fn uniform(self, v: u8) -> bool {
        forall|k: int| 0 <= k < self.cells.len() ==> self.cells[k] == v
    }
}

impl Window {
    /// Read the cell at row `i`, column `j`.
    pub fn cell_at(&self, i: usize, j: usize) -> (v: u8)
        requires
            self@.wf(),
            i < self.rows,
            j < self.cols,
        ensures
            v == self@.cell(i as int, j as int),
    {
        let n: usize = self.vals.len();
        proof {
            lemma_flat_index_bound(
                self.cols as int, self.rows as int, 1, j as int, i as int, 0,
            );
            assert(self.cols * self.rows == self.rows * self.cols) by (nonlinear_arith);
        }
        self.vals[i * self.cols + j]
    }
}

/// The window the analysis uses for the pixel at column `x`, row `y` of
/// channel `c`: a 3x3 neighborhood centered on the pixel, truncated to
/// 2 rows and/or 2 columns when the pixel lies on a border.
pub open spec fn window_model(img: ImageGrid, x: int, y: int, c: int) -> WinView {
    let rows: int = if y > 0 && y < img.height - 1 { 3 } else { 2 };
    let cols: int = if x > 0 && x < img.width - 1 { 3 } else { 2 };
    let x0: int = if x > 0 { x - 1 } else { x };
    let y0: int = if y > 0 { y - 1 } else { y };
    WinView {
        rows,
        cols,
        cells: Seq::new((rows * cols) as nat, |t: int| img.sample(x0 + t % cols, y0 + t / cols, c)),
    }
}

/// Division and remainder of an index below `rows * cols` stay inside the
/// rectangle.
pub proof fn lemma_div_mod_in_range(t: int, cols: int, rows: int)
    by (nonlinear_arith)
    requires
        cols >= 1,
        0 <= t < rows * cols,
    ensures
        0 <= t / cols < rows,
        0 <= t % cols < cols,
{
}

/// Extract the neighborhood window of the pixel at column `x`, row `y`
/// for channel `c`.
pub fn sample_window(img: &ImageGrid, x: usize, y: usize, c: usize) -> (w: Window)
    requires
        img.wf(),
        img.width >= 2,
        img.height >= 2,
        x < img.width,
        y < img.height,
        c < img.channels,
    ensures
        w@.wf(),
        w@ == window_model(*img, x as int, y as int, c as int),
{
    let rows: usize = if y > 0 && y < img.height - 1 { 3 } else { 2 };
    let cols: usize = if x > 0 && x < img.width - 1 { 3 } else { 2 };
    let x0: usize = if x > 0 { x - 1 } else { x };
    let y0: usize = if y > 0 { y - 1 } else { y };
    let n: usize = rows * cols;
    let mut vals: Vec<u8> = Vec::new();
    let mut t: usize = 0;
    while t < n
        invariant
            img.wf(),
            img.width >= 2,
            img.height >= 2,
            x < img.width,
            y < img.height,
            c < img.channels,
            rows == (if y > 0 && y < img.height - 1 { 3int } else { 2int }),
            cols == (if x > 0 && x < img.width - 1 { 3int } else { 2int }),
            x0 == (if x > 0 { x - 1 } else { x as int }),
            y0 == (if y > 0 { y - 1 } else { y as int }),
            n == rows * cols,
            t <= n,
            vals@.len() == t,
            forall|k: int| 0 <= k < t
                ==> vals@[k] == img.sample(x0 + k % (cols as int), y0 + k / (cols as int), c as int),
        decreases n - t,
    {
        proof {
            lemma_div_mod_in_range(t as int, cols as int, rows as int);
        }
        let wi: usize = t / cols;
        let wj: usize = t % cols;
        let v: u8 = img.get_sample(x0 + wj, y0 + wi, c);
        vals.push(v);
        t = t + 1;
    }
    let w = Window { rows, cols, vals };
    proof {
        assert(w@.cells =~= window_model(*img, x as int, y as int, c as int).cells);
    }
    w
}

} // verus!
