//! The per-pixel driver of the affinity analysis.
//!
//! For every pixel of every channel the driver samples the neighborhood
//! window, builds the two frequency tables, lets the scorer pick the
//! winning pair under the chosen metric, and writes the winning pair's
//! value difference into the output image.  The output has the same
//! shape as the input; windows shrink at the borders instead of cropping
//! the image.

use vstd::prelude::*;
use crate::grid::ImageGrid;
use crate::window::Window;
use crate::window::window_model;
use crate::window::sample_window;
use crate::freq::build_tables;
use crate::freq::lemma_affinity_bounded;
use crate::score::Metric;
use crate::score::select_pair;
use crate::score::is_affinity_output;
use crate::score::t_candidate;
use crate::score::lemma_output_transfers;

verus! {

/// The affinity output for a single window: build the frequency tables
/// and let the scorer pick the winning pair under the metric.
pub fn affinity_output(w: &Window, metric: Metric) -> (r: u8)
    requires
        w@.wf(),
    ensures
        is_affinity_output(w@, metric, r),
{
    let (single, joint) = build_tables(w);
    proof {
        assert forall|a: u8, b: u8| #[trigger] t_candidate(joint, a, b)
            implies single.count_of(a) > 0 && single.count_of(b) > 0 by {
            lemma_affinity_bounded(w@, a, b);
        }
    }
    let r = select_pair(&single, &joint, metric);
    proof {
        lemma_output_transfers(w@, single, joint, metric, r);
    }
    r
}

/// Run the affinity analysis over the whole image: every output sample
/// is the affinity output of the neighborhood window of the matching
/// input pixel, channel by channel.
pub fn analyze_affinity(img: &ImageGrid, metric: Metric) -> (out: ImageGrid)
    requires
        img.wf(),
        img.width >= 2,
        img.height >= 2,
    ensures
        out.wf(),
        img.same_shape(out),
        forall|x: int, y: int, c: int| img.in_bounds(x, y, c)
            ==> is_affinity_output(
                window_model(*img, x, y, c), metric, #[trigger] out.sample(x, y, c)),
{
    let _n: usize = img.data.len();
    let mut out = ImageGrid::new_zeroed(img.width, img.height, img.channels);
    let mut y: usize = 0;
    while y < img.height
        invariant
            img.wf(),
            img.width >= 2,
            img.height >= 2,
            out.wf(),
            img.same_shape(out),
            y <= img.height,
            forall|x2: int, y2: int, c2: int| img.in_bounds(x2, y2, c2) && y2 < y
                ==> is_affinity_output(
                    window_model(*img, x2, y2, c2), metric, #[trigger] out.sample(x2, y2, c2)),
        decreases img.height - y,
    {
        let mut x: usize = 0;
        while x < img.width
            invariant
                img.wf(),
                img.width >= 2,
                img.height >= 2,
                out.wf(),
                img.same_shape(out),
                y < img.height,
                x <= img.width,
                forall|x2: int, y2: int, c2: int| img.in_bounds(x2, y2, c2)
                        && (y2 < y || (y2 == y && x2 < x))
                    ==> is_affinity_output(
                        window_model(*img, x2, y2, c2), metric,
                        #[trigger] out.sample(x2, y2, c2)),
            decreases img.width - x,
        {
            let mut c: usize = 0;
            while c < img.channels
                invariant
                    img.wf(),
                    img.width >= 2,
                    img.height >= 2,
                    out.wf(),
                    img.same_shape(out),
                    y < img.height,
                    x < img.width,
                    c <= img.channels,
                    forall|x2: int, y2: int, c2: int| img.in_bounds(x2, y2, c2)
                            && (y2 < y || (y2 == y && x2 < x) || (y2 == y && x2 == x && c2 < c))
                        ==> is_affinity_output(
                            window_model(*img, x2, y2, c2), metric,
                            #[trigger] out.sample(x2, y2, c2)),
                decreases img.channels - c,
            {
                let w: Window = sample_window(img, x, y, c);
                let v: u8 = affinity_output(&w, metric);
                out.set_sample(x, y, c, v);
                c = c + 1;
            }
            x = x + 1;
        }
        y = y + 1;
    }
    out
}

} // verus!
