//! Pointwise filters that accompany the affinity analysis: largest local
//! difference, largest difference from the center pixel, per-pixel
//! average of two images, and intensity quantization by 16.
//!
//! The two neighborhood filters read, for each pixel, the 3x3 square
//! around it, clamped to the image: both ends of each axis range are
//! inclusive, so the pixel itself is always part of its neighborhood,
//! which shrinks to 2 cells along an axis at a border.

use vstd::prelude::*;
use crate::grid::ImageGrid;
use crate::score::max_int;
use crate::window::Window;
use crate::window::window_model;
use crate::window::sample_window;
use crate::window::lemma_div_mod_in_range;
use crate::freq::lemma_sub_count_value;

verus! {

pub open spec fn max2(a: u8, b: u8) -> u8 {
    if a < b { b } else { a }
}

pub open spec fn min2(a: u8, b: u8) -> u8 {
    if a < b { a } else { b }
}

/// Absolute difference of two samples.
pub open spec fn absdiff(a: u8, b: u8) -> int {
    if a >= b { a - b } else { b - a }
}

/// Largest of the first `k` cells (the sequence is never empty).
pub open spec fn cells_max_upto(cells: Seq<u8>, k: int) -> u8
    decreases k,
{
    if k <= 1 {
        cells[0]
    } else {
        max2(cells_max_upto(cells, k - 1), cells[k - 1])
    }
}

/// Smallest of the first `k` cells.
pub open spec fn cells_min_upto(cells: Seq<u8>, k: int) -> u8
    decreases k,
{
    if k <= 1 {
        cells[0]
    } else {
        min2(cells_min_upto(cells, k - 1), cells[k - 1])
    }
}

/// Largest distance from `ctr` among the first `k` cells.
pub open spec fn cells_spread_upto(cells: Seq<u8>, ctr: u8, k: int) -> int
    decreases k,
{
    if k <= 0 {
        0
    } else {
        max_int(cells_spread_upto(cells, ctr, k - 1), absdiff(cells[k - 1], ctr))
    }
}

/// Largest sample in the clamped 3x3 neighborhood of pixel (x, y),
/// channel `c` — the same neighborhood window the affinity analysis
/// samples, so the pixel itself is always included.
pub open spec fn nb_max(img: ImageGrid, x: int, y: int, c: int) -> u8 {
    let w = window_model(img, x, y, c);
    cells_max_upto(w.cells, w.cells.len() as int)
}

/// Smallest sample in the clamped 3x3 neighborhood of pixel (x, y),
/// channel `c`.
pub open spec fn nb_min(img: ImageGrid, x: int, y: int, c: int) -> u8 {
    let w = window_model(img, x, y, c);
    cells_min_upto(w.cells, w.cells.len() as int)
}

/// Largest absolute difference between the center sample and the samples
/// of its clamped 3x3 neighborhood (the center itself included, which
/// contributes 0).
pub open spec fn nb_center_diff(img: ImageGrid, x: int, y: int, c: int) -> int {
    let w = window_model(img, x, y, c);
    cells_spread_upto(w.cells, img.sample(x, y, c), w.cells.len() as int)
}

/// Lower end (inclusive) of a pixel's neighborhood along one axis.
pub open spec fn nb_lo(p: int) -> int {
    if p > 0 { p - 1 } else { p }
}

/// Upper end (inclusive) of a pixel's neighborhood along one axis of
/// length `n`.
pub open spec fn nb_hi(p: int, n: int) -> int {
    if p < n - 1 { p + 1 } else { p }
}

proof fn lemma_cells_extrema_ge(cells: Seq<u8>, k: int, t: int)
    requires
        0 <= t < k,
    ensures
        cells_min_upto(cells, k) <= cells[t],
        cells[t] <= cells_max_upto(cells, k),
    decreases k,
{
    if t < k - 1 {
        lemma_cells_extrema_ge(cells, k - 1, t);
    }
}

proof fn lemma_cells_extrema_attained(cells: Seq<u8>, k: int)
    requires
        1 <= k,
    ensures
        exists|t: int| 0 <= t < k && cells[t] == cells_max_upto(cells, k),
        exists|t: int| 0 <= t < k && cells[t] == cells_min_upto(cells, k),
    decreases k,
{
    if k == 1 {
        assert(cells[0] == cells_max_upto(cells, k));
        assert(cells[0] == cells_min_upto(cells, k));
    } else {
        lemma_cells_extrema_attained(cells, k - 1);
        if cells_max_upto(cells, k) == cells[k - 1] {
            assert(0 <= k - 1 < k && cells[k - 1] == cells_max_upto(cells, k));
        }
        if cells_min_upto(cells, k) == cells[k - 1] {
            assert(0 <= k - 1 < k && cells[k - 1] == cells_min_upto(cells, k));
        }
    }
}

proof fn lemma_cells_spread_ge(cells: Seq<u8>, ctr: u8, k: int, t: int)
    requires
        0 <= t < k,
    ensures
        absdiff(cells[t], ctr) <= cells_spread_upto(cells, ctr, k),
    decreases k,
{
    if t < k - 1 {
        lemma_cells_spread_ge(cells, ctr, k - 1, t);
    }
}

proof fn lemma_cells_spread_attained(cells: Seq<u8>, ctr: u8, k: int)
    requires
        1 <= k,
    ensures
        exists|t: int| 0 <= t < k
            && absdiff(cells[t], ctr) == cells_spread_upto(cells, ctr, k),
    decreases k,
{
    if k == 1 {
        assert(cells_spread_upto(cells, ctr, 0) == 0);
        assert(absdiff(cells[0], ctr) == cells_spread_upto(cells, ctr, k));
    } else {
        lemma_cells_spread_attained(cells, ctr, k - 1);
        if cells_spread_upto(cells, ctr, k) == absdiff(cells[k - 1], ctr) {
            assert(0 <= k - 1 < k
                && absdiff(cells[k - 1], ctr) == cells_spread_upto(cells, ctr, k));
        }
    }
}

/// What the neighborhood extrema say, coordinate by coordinate: over the
/// clamped inclusive ranges `nb_lo(x) ..= nb_hi(x, width)` and
/// `nb_lo(y) ..= nb_hi(y, height)`, every sample lies between `nb_min`
/// and `nb_max`, and both extrema are samples of that range.
pub proof fn lemma_nb_extrema_characterization(img: ImageGrid, x: int, y: int, c: int)
    requires
        img.wf(),
        img.width >= 2,
        img.height >= 2,
        img.in_bounds(x, y, c),
    ensures
        forall|xi: int, yi: int|
            nb_lo(x) <= xi <= nb_hi(x, img.width as int)
                && nb_lo(y) <= yi <= nb_hi(y, img.height as int)
            ==> nb_min(img, x, y, c) <= #[trigger] img.sample(xi, yi, c)
                && img.sample(xi, yi, c) <= nb_max(img, x, y, c),
        exists|xi: int, yi: int|
            nb_lo(x) <= xi <= nb_hi(x, img.width as int)
                && nb_lo(y) <= yi <= nb_hi(y, img.height as int)
                && #[trigger] img.sample(xi, yi, c) == nb_max(img, x, y, c),
        exists|xi: int, yi: int|
            nb_lo(x) <= xi <= nb_hi(x, img.width as int)
                && nb_lo(y) <= yi <= nb_hi(y, img.height as int)
                && #[trigger] img.sample(xi, yi, c) == nb_min(img, x, y, c),
{
    let w = window_model(img, x, y, c);
    let rows = w.rows;
    let cols = w.cols;
    let x0 = nb_lo(x);
    let y0 = nb_lo(y);
    lemma_sub_count_value(w);
    assert(nb_hi(x, img.width as int) == x0 + cols - 1);
    assert(nb_hi(y, img.height as int) == y0 + rows - 1);
    assert forall|xi: int, yi: int|
        nb_lo(x) <= xi <= nb_hi(x, img.width as int)
            && nb_lo(y) <= yi <= nb_hi(y, img.height as int)
        implies nb_min(img, x, y, c) <= #[trigger] img.sample(xi, yi, c)
            && img.sample(xi, yi, c) <= nb_max(img, x, y, c) by {
        let dx = xi - x0;
        let dy = yi - y0;
        let t = dy * cols + dx;
        assert(0 <= t < rows * cols && t % cols == dx && t / cols == dy)
            by (nonlinear_arith)
            requires
                0 <= dx < cols,
                0 <= dy < rows,
                t == dy * cols + dx,
        ;
        assert(w.cells[t] == img.sample(xi, yi, c));
        lemma_cells_extrema_ge(w.cells, rows * cols, t);
    }
    lemma_cells_extrema_attained(w.cells, rows * cols);
    let tmax = choose|t: int| 0 <= t < rows * cols
        && w.cells[t] == cells_max_upto(w.cells, rows * cols);
    lemma_div_mod_in_range(tmax, cols, rows);
    assert(img.sample(x0 + tmax % cols, y0 + tmax / cols, c) == nb_max(img, x, y, c));
    let tmin = choose|t: int| 0 <= t < rows * cols
        && w.cells[t] == cells_min_upto(w.cells, rows * cols);
    lemma_div_mod_in_range(tmin, cols, rows);
    assert(img.sample(x0 + tmin % cols, y0 + tmin / cols, c) == nb_min(img, x, y, c));
}

/// What the center-difference maximum says, coordinate by coordinate:
/// over the same clamped inclusive ranges, no sample differs from the
/// center by more than `nb_center_diff`, and some sample of the range
/// differs by exactly that much.
pub proof fn lemma_nb_center_diff_characterization(img: ImageGrid, x: int, y: int, c: int)
    requires
        img.wf(),
        img.width >= 2,
        img.height >= 2,
        img.in_bounds(x, y, c),
    ensures
        forall|xi: int, yi: int|
            nb_lo(x) <= xi <= nb_hi(x, img.width as int)
                && nb_lo(y) <= yi <= nb_hi(y, img.height as int)
            ==> absdiff(#[trigger] img.sample(xi, yi, c), img.sample(x, y, c))
                <= nb_center_diff(img, x, y, c),
        exists|xi: int, yi: int|
            nb_lo(x) <= xi <= nb_hi(x, img.width as int)
                && nb_lo(y) <= yi <= nb_hi(y, img.height as int)
                && absdiff(#[trigger] img.sample(xi, yi, c), img.sample(x, y, c))
                    == nb_center_diff(img, x, y, c),
{
    let w = window_model(img, x, y, c);
    let rows = w.rows;
    let cols = w.cols;
    let x0 = nb_lo(x);
    let y0 = nb_lo(y);
    let ctr = img.sample(x, y, c);
    lemma_sub_count_value(w);
    assert(nb_hi(x, img.width as int) == x0 + cols - 1);
    assert(nb_hi(y, img.height as int) == y0 + rows - 1);
    assert forall|xi: int, yi: int|
        nb_lo(x) <= xi <= nb_hi(x, img.width as int)
            && nb_lo(y) <= yi <= nb_hi(y, img.height as int)
        implies absdiff(#[trigger] img.sample(xi, yi, c), ctr)
            <= nb_center_diff(img, x, y, c) by {
        let dx = xi - x0;
        let dy = yi - y0;
        let t = dy * cols + dx;
        assert(0 <= t < rows * cols && t % cols == dx && t / cols == dy)
            by (nonlinear_arith)
            requires
                0 <= dx < cols,
                0 <= dy < rows,
                t == dy * cols + dx,
        ;
        assert(w.cells[t] == img.sample(xi, yi, c));
        lemma_cells_spread_ge(w.cells, ctr, rows * cols, t);
    }
    lemma_cells_spread_attained(w.cells, ctr, rows * cols);
    let tw = choose|t: int| 0 <= t < rows * cols
        && absdiff(w.cells[t], ctr) == cells_spread_upto(w.cells, ctr, rows * cols);
    lemma_div_mod_in_range(tw, cols, rows);
    assert(absdiff(img.sample(x0 + tw % cols, y0 + tw / cols, c), ctr)
        == nb_center_diff(img, x, y, c));
}

/// Read the largest and smallest sample of the clamped 3x3 neighborhood.
fn max_min_at(img: &ImageGrid, x: usize, y: usize, c: usize) -> (r: (u8, u8))
    requires
        img.wf(),
        img.width >= 2,
        img.height >= 2,
        img.in_bounds(x as int, y as int, c as int),
    ensures
        r.0 == nb_max(*img, x as int, y as int, c as int),
        r.1 == nb_min(*img, x as int, y as int, c as int),
        r.1 <= r.0,
{
    let w: Window = sample_window(img, x, y, c);
    proof {
        lemma_sub_count_value(w@);
    }
    let n: usize = w.vals.len();
    let mut mx: u8 = w.vals[0];
    let mut mn: u8 = mx;
    let mut t: usize = 1;
    while t < n
        invariant
            w@.wf(),
            w@ == window_model(*img, x as int, y as int, c as int),
            n == w@.cells.len(),
            1 <= t <= n,
            mx == cells_max_upto(w@.cells, t as int),
            mn == cells_min_upto(w@.cells, t as int),
            mn <= mx,
        decreases n - t,
    {
        let s: u8 = w.vals[t];
        if s > mx {
            mx = s;
        }
        if s < mn {
            mn = s;
        }
        t = t + 1;
    }
    (mx, mn)
}

/// For every pixel and channel, the difference between the largest and
/// the smallest sample of its clamped 3x3 neighborhood.
pub fn analyze_max_diff(img: &ImageGrid) -> (out: ImageGrid)
    requires
        img.wf(),
        img.width >= 2,
        img.height >= 2,
    ensures
        out.wf(),
        img.same_shape(out),
        forall|x: int, y: int, c: int| img.in_bounds(x, y, c)
            ==> #[trigger] out.sample(x, y, c) as int
                == nb_max(*img, x, y, c) - nb_min(*img, x, y, c),
{
    let _n: usize = img.data.len();
    let mut out = ImageGrid::new_zeroed(img.width, img.height, img.channels);
    let mut y: usize = 0;
    while y < img.height
        invariant
            img.wf(),
            img.width >= 2,
            img.height >= 2,
            out.wf(),
            img.same_shape(out),
            y <= img.height,
            forall|x2: int, y2: int, c2: int| img.in_bounds(x2, y2, c2) && y2 < y
                ==> #[trigger] out.sample(x2, y2, c2) as int
                    == nb_max(*img, x2, y2, c2) - nb_min(*img, x2, y2, c2),
        decreases img.height - y,
    {
        let mut x: usize = 0;
        while x < img.width
            invariant
                img.wf(),
                img.width >= 2,
                img.height >= 2,
                out.wf(),
                img.same_shape(out),
                y < img.height,
                x <= img.width,
                forall|x2: int, y2: int, c2: int| img.in_bounds(x2, y2, c2)
                        && (y2 < y || (y2 == y && x2 < x))
                    ==> #[trigger] out.sample(x2, y2, c2) as int
                        == nb_max(*img, x2, y2, c2) - nb_min(*img, x2, y2, c2),
            decreases img.width - x,
        {
            let mut c: usize = 0;
            while c < img.channels
                invariant
                    img.wf(),
                    img.width >= 2,
                    img.height >= 2,
                    out.wf(),
                    img.same_shape(out),
                    y < img.height,
                    x < img.width,
                    c <= img.channels,
                    forall|x2: int, y2: int, c2: int| img.in_bounds(x2, y2, c2)
                            && (y2 < y || (y2 == y && x2 < x)
                                || (y2 == y && x2 == x && c2 < c))
                        ==> #[trigger] out.sample(x2, y2, c2) as int
                            == nb_max(*img, x2, y2, c2) - nb_min(*img, x2, y2, c2),
                decreases img.channels - c,
            {
                let (mx, mn) = max_min_at(img, x, y, c);
                out.set_sample(x, y, c, mx - mn);
                c = c + 1;
            }
            x = x + 1;
        }
        y = y + 1;
    }
    out
}

/// Read the largest center difference of the clamped 3x3 neighborhood.
fn center_diff_at(img: &ImageGrid, x: usize, y: usize, c: usize) -> (v: u8)
    requires
        img.wf(),
        img.width >= 2,
        img.height >= 2,
        img.in_bounds(x as int, y as int, c as int),
    ensures
        v as int == nb_center_diff(*img, x as int, y as int, c as int),
{
    let ctr: u8 = img.get_sample(x, y, c);
    let w: Window = sample_window(img, x, y, c);
    let n: usize = w.vals.len();
    let mut m: u8 = 0;
    let mut t: usize = 0;
    while t < n
        invariant
            w@.wf(),
            w@ == window_model(*img, x as int, y as int, c as int),
            ctr == img.sample(x as int, y as int, c as int),
            n == w@.cells.len(),
            t <= n,
            m as int == cells_spread_upto(w@.cells, ctr, t as int),
        decreases n - t,
    {
        let s: u8 = w.vals[t];
        let d: u8 = if s > ctr { s - ctr } else { ctr - s };
        if d > m {
            m = d;
        }
        t = t + 1;
    }
    m
}

/// For every pixel and channel, the largest difference between the pixel
/// and the samples of its clamped 3x3 neighborhood.
pub fn analyze_center_diff(img: &ImageGrid) -> (out: ImageGrid)
    requires
        img.wf(),
        img.width >= 2,
        img.height >= 2,
    ensures
        out.wf(),
        img.same_shape(out),
        forall|x: int, y: int, c: int| img.in_bounds(x, y, c)
            ==> #[trigger] out.sample(x, y, c) as int == nb_center_diff(*img, x, y, c),
{
    let _n: usize = img.data.len();
    let mut out = ImageGrid::new_zeroed(img.width, img.height, img.channels);
    let mut y: usize = 0;
    while y < img.height
        invariant
            img.wf(),
            img.width >= 2,
            img.height >= 2,
            out.wf(),
            img.same_shape(out),
            y <= img.height,
            forall|x2: int, y2: int, c2: int| img.in_bounds(x2, y2, c2) && y2 < y
                ==> #[trigger] out.sample(x2, y2, c2) as int
                    == nb_center_diff(*img, x2, y2, c2),
        decreases img.height - y,
    {
        let mut x: usize = 0;
        while x < img.width
            invariant
                img.wf(),
                img.width >= 2,
                img.height >= 2,
                out.wf(),
                img.same_shape(out),
                y < img.height,
                x <= img.width,
                forall|x2: int, y2: int, c2: int| img.in_bounds(x2, y2, c2)
                        && (y2 < y || (y2 == y && x2 < x))
                    ==> #[trigger] out.sample(x2, y2, c2) as int
                        == nb_center_diff(*img, x2, y2, c2),
            decreases img.width - x,
        {
            let mut c: usize = 0;
            while c < img.channels
                invariant
                    img.wf(),
                    img.width >= 2,
                    img.height >= 2,
                    out.wf(),
                    img.same_shape(out),
                    y < img.height,
                    x < img.width,
                    c <= img.channels,
                    forall|x2: int, y2: int, c2: int| img.in_bounds(x2, y2, c2)
                            && (y2 < y || (y2 == y && x2 < x)
                                || (y2 == y && x2 == x && c2 < c))
                        ==> #[trigger] out.sample(x2, y2, c2) as int
                            == nb_center_diff(*img, x2, y2, c2),
                decreases img.channels - c,
            {
                let v: u8 = center_diff_at(img, x, y, c);
                out.set_sample(x, y, c, v);
                c = c + 1;
            }
            x = x + 1;
        }
        y = y + 1;
    }
    out
}

/// For every pixel and channel, the truncated mean of the two input
/// images' samples.
pub fn analyze_average(original: &ImageGrid, analyzed: &ImageGrid) -> (out: ImageGrid)
    requires
        original.wf(),
        analyzed.wf(),
        original.same_shape(*analyzed),
    ensures
        out.wf(),
        original.same_shape(out),
        forall|x: int, y: int, c: int| original.in_bounds(x, y, c)
            ==> #[trigger] out.sample(x, y, c) as int
                == (original.sample(x, y, c) + analyzed.sample(x, y, c)) / 2,
{
    let _n: usize = original.data.len();
    let mut out = ImageGrid::new_zeroed(original.width, original.height, original.channels);
    let mut y: usize = 0;
    while y < original.height
        invariant
            original.wf(),
            analyzed.wf(),
            original.same_shape(*analyzed),
            out.wf(),
            original.same_shape(out),
            y <= original.height,
            forall|x2: int, y2: int, c2: int| original.in_bounds(x2, y2, c2) && y2 < y
                ==> #[trigger] out.sample(x2, y2, c2) as int
                    == (original.sample(x2, y2, c2) + analyzed.sample(x2, y2, c2)) / 2,
        decreases original.height - y,
    {
        let mut x: usize = 0;
        while x < original.width
            invariant
                original.wf(),
                analyzed.wf(),
                original.same_shape(*analyzed),
                out.wf(),
                original.same_shape(out),
                y < original.height,
                x <= original.width,
                forall|x2: int, y2: int, c2: int| original.in_bounds(x2, y2, c2)
                        && (y2 < y || (y2 == y && x2 < x))
                    ==> #[trigger] out.sample(x2, y2, c2) as int
                        == (original.sample(x2, y2, c2) + analyzed.sample(x2, y2, c2)) / 2,
            decreases original.width - x,
        {
            let mut c: usize = 0;
            while c < original.channels
                invariant
                    original.wf(),
                    analyzed.wf(),
                    original.same_shape(*analyzed),
                    out.wf(),
                    original.same_shape(out),
                    y < original.height,
                    x < original.width,
                    c <= original.channels,
                    forall|x2: int, y2: int, c2: int| original.in_bounds(x2, y2, c2)
                            && (y2 < y || (y2 == y && x2 < x)
                                || (y2 == y && x2 == x && c2 < c))
                        ==> #[trigger] out.sample(x2, y2, c2) as int
                            == (original.sample(x2, y2, c2) + analyzed.sample(x2, y2, c2)) / 2,
                decreases original.channels - c,
            {
                let a: u8 = original.get_sample(x, y, c);
                let b: u8 = analyzed.get_sample(x, y, c);
                let v: u8 = ((a as u16 + b as u16) / 2) as u8;
                out.set_sample(x, y, c, v);
                c = c + 1;
            }
            x = x + 1;
        }
        y = y + 1;
    }
    out
}

/// Divide every sample of the image by 16, truncating the result.
pub fn div16(image: &mut ImageGrid)
    requires
        old(image).wf(),
    ensures
        final(image).wf(),
        old(image).same_shape(*final(image)),
        final(image).data@.len() == old(image).data@.len(),
        forall|i: int| 0 <= i < old(image).data@.len()
            ==> final(image).data@[i] == old(image).data@[i] / 16,
{
    let n: usize = image.data.len();
    let mut i: usize = 0;
    while i < n
        invariant
            n == image.data@.len(),
            image.width == old(image).width,
            image.height == old(image).height,
            image.channels == old(image).channels,
            n == old(image).data@.len(),
            i <= n,
            forall|k: int| 0 <= k < i ==> image.data@[k] == old(image).data@[k] / 16,
            forall|k: int| i <= k < n ==> image.data@[k] == old(image).data@[k],
        decreases n - i,
    {
        let v: u8 = image.data[i];
        image.data.set(i, v / 16);
        i = i + 1;
    }
}

} // verus!
