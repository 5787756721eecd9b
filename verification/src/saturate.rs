//! Contrast stretch: rescale every sample so that the observed range of
//! each channel maps onto the full 0..=255 range.
//!
//! The pass first finds the smallest and largest sample per channel and
//! then maps each sample `p` to `(p - min) * 255 / (max - min)`,
//! truncating.  A channel whose samples are all equal comes out all
//! zero, which is also what the shift by `min` alone would give.

use vstd::prelude::*;
use crate::grid::ImageGrid;
use crate::score::min_int;
use crate::score::max_int;
use crate::window::lemma_div_mod_in_range;

verus! {

/// The sample of channel `c` at pixel number `k` (pixels numbered row by
/// row).
pub open spec fn chan_sample(img: ImageGrid, k: int, c: int) -> u8 {
    img.data@[k * img.channels + c]
}

/// Smallest sample of channel `c` among the first `k` pixels; 255 when
/// no pixel has been considered.
pub open spec fn chan_min_upto(img: ImageGrid, c: int, k: int) -> int
    decreases k,
{
    if k <= 0 {
        255
    } else {
        min_int(chan_min_upto(img, c, k - 1), chan_sample(img, k - 1, c) as int)
    }
}

/// Largest sample of channel `c` among the first `k` pixels; 0 when no
/// pixel has been considered.
pub open spec fn chan_max_upto(img: ImageGrid, c: int, k: int) -> int
    decreases k,
{
    if k <= 0 {
        0
    } else {
        max_int(chan_max_upto(img, c, k - 1), chan_sample(img, k - 1, c) as int)
    }
}

/// Smallest sample of channel `c` in the whole image.
pub open spec fn chan_min(img: ImageGrid, c: int) -> int {
    chan_min_upto(img, c, img.width * img.height)
}

/// Largest sample of channel `c` in the whole image.
pub open spec fn chan_max(img: ImageGrid, c: int) -> int {
    chan_max_upto(img, c, img.width * img.height)
}

/// The linear rescale of `p` from the range `lo..=hi` onto 0..=255,
/// truncating; a collapsed range maps everything to 0.
pub open spec fn rescale(p: int, lo: int, hi: int) -> int {
    if hi <= lo {
        0
    } else {
        (p - lo) * 255 / (hi - lo)
    }
}

/// Channel extrema stay within the sample range.
proof fn lemma_chan_extrema_range(img: ImageGrid, c: int, k: int)
    ensures
        0 <= chan_min_upto(img, c, k) <= 255,
        0 <= chan_max_upto(img, c, k) <= 255,
    decreases k,
{
    if k > 0 {
        lemma_chan_extrema_range(img, c, k - 1);
    }
}

/// Every considered sample lies between the channel extrema.
proof fn lemma_chan_extrema_bound(img: ImageGrid, c: int, k: int, kk: int)
    requires
        0 <= k < kk,
    ensures
        chan_min_upto(img, c, kk) <= chan_sample(img, k, c) as int,
        chan_sample(img, k, c) as int <= chan_max_upto(img, c, kk),
    decreases kk,
{
    if k < kk - 1 {
        lemma_chan_extrema_bound(img, c, k, kk - 1);
    }
}

/// Rescale the image in place so each channel's observed sample range
/// fills 0..=255.
pub fn saturate(image: &mut ImageGrid)
    requires
        old(image).wf(),
        old(image).width >= 1,
        old(image).height >= 1,
    ensures
        final(image).wf(),
        old(image).same_shape(*final(image)),
        forall|i: int| 0 <= i < old(image).data@.len()
            ==> final(image).data@[i] as int == rescale(
                old(image).data@[i] as int,
                chan_min(*old(image), i % (old(image).channels as int)),
                chan_max(*old(image), i % (old(image).channels as int))),
        forall|k: int, c: int|
            0 <= k < old(image).width * old(image).height
                && 0 <= c < old(image).channels
            ==> chan_sample(*final(image), k, c) as int == rescale(
                chan_sample(*old(image), k, c) as int,
                chan_min(*old(image), c),
                chan_max(*old(image), c)),
{
    let n: usize = image.data.len();
    assert((image.width as int) * (image.height as int)
        <= (image.width as int) * (image.height as int) * (image.channels as int))
        by (nonlinear_arith)
        requires
            image.channels >= 1,
            image.width >= 0,
            image.height >= 0,
    ;
    let pixels: usize = image.width * image.height;
    assert(n as int == (pixels as int) * (image.channels as int));

    // First pass: the extrema of every channel.
    let mut lows: Vec<u8> = Vec::new();
    let mut highs: Vec<u8> = Vec::new();
    let mut c: usize = 0;
    while c < image.channels
        invariant
            *image == *old(image),
            image.wf(),
            pixels == image.width * image.height,
            n == image.data@.len(),
            n as int == (pixels as int) * (image.channels as int),
            c <= image.channels,
            lows@.len() == c,
            highs@.len() == c,
            forall|c2: int| 0 <= c2 < c
                ==> lows@[c2] as int == chan_min(*image, c2)
                    && highs@[c2] as int == chan_max(*image, c2),
        decreases image.channels - c,
    {
        let mut lo: u8 = 255;
        let mut hi: u8 = 0;
        let mut k: usize = 0;
        while k < pixels
            invariant
                *image == *old(image),
                image.wf(),
                pixels == image.width * image.height,
                n == image.data@.len(),
                n as int == (pixels as int) * (image.channels as int),
                c < image.channels,
                k <= pixels,
                lo as int == chan_min_upto(*image, c as int, k as int),
                hi as int == chan_max_upto(*image, c as int, k as int),
            decreases pixels - k,
        {
            assert((k as int) * (image.channels as int) + (c as int)
                < (pixels as int) * (image.channels as int)) by (nonlinear_arith)
                requires
                    0 <= k < pixels,
                    0 <= c < image.channels,
            ;
            let s: u8 = image.data[k * image.channels + c];
            if s < lo {
                lo = s;
            }
            if s > hi {
                hi = s;
            }
            k = k + 1;
        }
        lows.push(lo);
        highs.push(hi);
        c = c + 1;
    }

    // Second pass: rescale every sample in place.
    let mut i: usize = 0;
    while i < n
        invariant
            image.wf(),
            image.width == old(image).width,
            image.height == old(image).height,
            image.channels == old(image).channels,
            pixels == image.width * image.height,
            n == image.data@.len(),
            n == old(image).data@.len(),
            n as int == (pixels as int) * (image.channels as int),
            lows@.len() == image.channels,
            highs@.len() == image.channels,
            forall|c2: int| 0 <= c2 < image.channels
                ==> lows@[c2] as int == chan_min(*old(image), c2)
                    && highs@[c2] as int == chan_max(*old(image), c2),
            i <= n,
            forall|k2: int| i <= k2 < n ==> image.data@[k2] == old(image).data@[k2],
            forall|k2: int| 0 <= k2 < i
                ==> image.data@[k2] as int == rescale(
                    old(image).data@[k2] as int,
                    chan_min(*old(image), k2 % (image.channels as int)),
                    chan_max(*old(image), k2 % (image.channels as int))),
        decreases n - i,
    {
        let ch: usize = image.channels;
        let c: usize = i % ch;
        proof {
            lemma_div_mod_in_range(i as int, ch as int, pixels as int);
            assert((i as int) / (ch as int) * (ch as int) + (i as int) % (ch as int)
                == i as int) by (nonlinear_arith)
                requires
                    ch >= 1,
            ;
            lemma_chan_extrema_bound(
                *old(image), c as int, (i as int) / (ch as int), pixels as int);
            lemma_chan_extrema_range(*old(image), c as int, pixels as int);
        }
        let p: u8 = image.data[i];
        let lo: u8 = lows[c];
        let hi: u8 = highs[c];
        let v: u8 = if hi <= lo {
            0
        } else {
            let scaled: u32 = (p - lo) as u32 * 255;
            let q: u32 = scaled / (hi - lo) as u32;
            assert(q <= 255) by (nonlinear_arith)
                requires
                    q == (p - lo) as u32 as int * 255 / ((hi - lo) as u32 as int),
                    0 <= (p - lo) as u32 as int <= (hi - lo) as u32 as int,
                    (hi - lo) as u32 as int >= 1,
            ;
            q as u8
        };
        image.data.set(i, v);
        i = i + 1;
    }
    proof {
        assert forall|k: int, c2: int|
            0 <= k < old(image).width * old(image).height
                && 0 <= c2 < old(image).channels
            implies chan_sample(*image, k, c2) as int == rescale(
                chan_sample(*old(image), k, c2) as int,
                chan_min(*old(image), c2),
                chan_max(*old(image), c2)) by {
            let ch = image.channels as int;
            assert(0 <= k * ch + c2 < (pixels as int) * ch
                && (k * ch + c2) % ch == c2) by (nonlinear_arith)
                requires
                    0 <= k < pixels,
                    0 <= c2 < ch,
                    ch >= 1,
            ;
        }
    }
}

} // verus!
