//! Downsampling: one source pixel is sampled per `block_size x block_size`
//! block, shrinking each dimension by the block size (integer division).
//!
//! The sampling rule reuses a single flattened output counter: the counter is
//! scaled by the block size and re-decomposed against the *source* width. It
//! is deliberately not per-axis block-origin sampling; callers depend on this
//! exact index arithmetic, so it is specified and preserved as is.

use vstd::prelude::*;
use vstd::arithmetic::div_mod::lemma_div_pos_is_pos;
use vstd::arithmetic::div_mod::lemma_div_nonincreasing;
use vstd::arithmetic::div_mod::lemma_fundamental_div_mod;
use vstd::arithmetic::div_mod::lemma_multiply_divide_lt;
use vstd::arithmetic::div_mod::lemma_mod_division_less_than_divisor;
use crate::raster::Image;
use crate::raster::Rgb;

verus! {

/// The flat source index sampled for flat output index `i`, with source
/// width `w` and block size `bs`: for `t = i * bs`, the sample sits at
/// column `t % w` of row `(t / w) * bs`.
pub open spec fn sample_index(w: int, bs: int, i: int) -> int {
    let t = i * bs;
    ((t / w) * bs) * w + t % w
}

/// `out` is the downsampling of `src` by block size `bs`: each dimension is
/// divided by `bs`, and every output pixel is the source pixel picked by
/// `sample_index`.
pub open spec fn is_downsample(src: Image, bs: u32, out: Image) -> bool {
    &&& out.wf()
    &&& out.width == (src.width as int) / (bs as int)
    &&& out.height == (src.height as int) / (bs as int)
    &&& forall|i: int|
        0 <= i < out.pixels@.len() ==> out.pixels@[i] == src.pixels@[sample_index(
            src.width as int,
            bs as int,
            i,
        )]
}

/// For any flat index of a non-empty output grid, the sampled source index
/// lands inside the source grid, and every intermediate product stays within
/// the source pixel count.
pub proof fn lemma_sample_index_in_bounds(w: int, h: int, bs: int, i: int)
    requires
        1 <= bs,
        0 <= w,
        0 <= h,
        0 <= i,
        i < (w / bs) * (h / bs),
    ensures
        bs <= w,
        0 <= i * bs < w * h,
        ((i * bs) / w) * bs <= h - bs,
        0 <= (i * bs) % w < w,
        0 <= sample_index(w, bs, i) < w * h,
{
    let ow = w / bs;
    let oh = h / bs;
    let t = i * bs;
    lemma_div_pos_is_pos(w, bs);
    lemma_div_pos_is_pos(h, bs);
    assert(ow >= 1 && oh >= 1) by (nonlinear_arith)
        requires
            0 <= i,
            i < ow * oh,
            0 <= ow,
            0 <= oh,
    ;
    lemma_fundamental_div_mod(w, bs);
    lemma_fundamental_div_mod(h, bs);
    lemma_mod_division_less_than_divisor(w, bs);
    lemma_mod_division_less_than_divisor(h, bs);
    assert(bs <= bs * ow && bs * oh <= h) by (nonlinear_arith)
        requires
            1 <= bs,
            1 <= ow,
            1 <= oh,
            h == bs * oh + h % bs,
            0 <= h % bs,
    ;
    assert(0 <= t && t < oh * w) by (nonlinear_arith)
        requires
            t == i * bs,
            0 <= i,
            i < ow * oh,
            1 <= bs,
            1 <= oh,
            bs * ow <= w,
            w == bs * ow + w % bs,
            0 <= w % bs,
    ;
    let q = t / w;
    lemma_div_pos_is_pos(t, w);
    lemma_multiply_divide_lt(t, w, oh);
    assert(q <= oh - 1);
    assert(q * bs <= h - bs) by (nonlinear_arith)
        requires
            0 <= q,
            q <= oh - 1,
            1 <= bs,
            bs * oh <= h,
    ;
    lemma_mod_division_less_than_divisor(t, w);
    assert(0 <= (q * bs) * w + t % w && (q * bs) * w + t % w < w * h) by (nonlinear_arith)
        requires
            0 <= q * bs,
            q * bs <= h - bs,
            1 <= bs,
            bs <= w,
            0 <= t % w < w,
    ;
    assert(i * bs < w * h) by (nonlinear_arith)
        requires
            0 <= t,
            t < oh * w,
            t == i * bs,
            1 <= bs,
            oh * bs <= h,
            0 <= oh,
            0 <= w,
            bs <= w,
    ;
}

/// Shrinks `img` by `pixel_size`: the output grid is
/// `(width / pixel_size) x (height / pixel_size)`, and output pixel `i` is
/// the source pixel at `sample_index`. A block size larger than the width
/// (or height) yields an empty image rather than failing.
pub fn image_to_low_res(img: &Image, pixel_size: u32) -> (out: Image)
    requires
        img.wf(),
        pixel_size >= 1,
    ensures
        is_downsample(*img, pixel_size, out),
{
    let ghost wi = img.width as int;
    let ghost hi = img.height as int;
    let ghost bsi = pixel_size as int;
    let width: u32 = img.width / pixel_size;
    let height: u32 = img.height / pixel_size;
    let n: usize = img.pixels.len();
    proof {
        lemma_div_pos_is_pos(wi, bsi);
        lemma_div_pos_is_pos(hi, bsi);
        lemma_div_nonincreasing(wi, bsi);
        lemma_div_nonincreasing(hi, bsi);
        assert((wi / bsi) * (hi / bsi) <= wi * hi) by (nonlinear_arith)
            requires
                0 <= wi / bsi <= wi,
                0 <= hi / bsi <= hi,
        ;
    }
    let total: usize = (width as usize) * (height as usize);
    let mut pixels: Vec<Rgb> = Vec::new();
    let mut i: usize = 0;
    while i < total
        invariant
            img.wf(),
            pixel_size >= 1,
            wi == img.width as int,
            hi == img.height as int,
            bsi == pixel_size as int,
            width == wi / bsi,
            height == hi / bsi,
            total == (width as int) * (height as int),
            n == img.pixels@.len(),
            total <= n,
            i <= total,
            pixels@.len() == i,
            forall|j: int|
                0 <= j < i ==> pixels@[j] == img.pixels@[sample_index(wi, bsi, j)],
        decreases total - i,
    {
        proof {
            lemma_sample_index_in_bounds(wi, hi, bsi, i as int);
        }
        let t: usize = i * (pixel_size as usize);
        let x: usize = t % (img.width as usize);
        let q: usize = t / (img.width as usize);
        let y: usize = q * (pixel_size as usize);
        let src_i: usize = y * (img.width as usize) + x;
        let p = img.pixels[src_i];
        pixels.push(p);
        proof {
            assert(src_i == sample_index(wi, bsi, i as int));
            assert(forall|j: int|
                0 <= j < i + 1 ==> pixels@[j] == img.pixels@[sample_index(wi, bsi, j)]);
        }
        i = i + 1;
    }
    Image { width, height, pixels }
}

/// A block size of 1 is the identity: the output has the source's
/// dimensions and exactly the source's pixels.
pub proof fn lemma_downsample_identity(src: Image, out: Image)
    requires
        src.wf(),
        is_downsample(src, 1, out),
    ensures
        out.width == src.width,
        out.height == src.height,
        out.pixels@ == src.pixels@,
{
    let w = src.width as int;
    let h = src.height as int;
    assert(out.pixels@.len() == src.pixels@.len());
    assert forall|i: int| 0 <= i < out.pixels@.len() implies out.pixels@[i] == src.pixels@[i] by {
        lemma_fundamental_div_mod(i, w);
        assert(sample_index(w, 1, i) == (i / w) * w + i % w);
        assert((i / w) * w == w * (i / w)) by (nonlinear_arith);
        assert(sample_index(w, 1, i) == i);
    }
    assert(out.pixels@ =~= src.pixels@);
}

/// A block size beyond the source width collapses the output width to zero,
/// so the output holds no pixels at all.
pub proof fn lemma_downsample_empty(src: Image, bs: u32, out: Image)
    requires
        src.wf(),
        bs > src.width,
        is_downsample(src, bs, out),
    ensures
        out.pixels@.len() == 0,
{
    let w = src.width as int;
    let bsi = bs as int;
    vstd::arithmetic::div_mod::lemma_basic_div(w, bsi);
    assert(out.pixels@.len() == 0 * (out.height as int));
}

} // verus!
