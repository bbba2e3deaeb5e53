//! Properties that relate the encoder and the demosaicers.
use crate::bayer::{
    demosaiced_pixel, green_estimate, is_demosaic_of, is_mosaic_of, sample_of, separated_ext,
    separated_pixel,
};
use crate::cfa::{boundary_index, in_extended_range, pattern, Channel};
use crate::chroma::{ratio_estimate2, ratio_estimate4, ratio_numerator4};
use crate::raster::{cell, Rgb8};
use vstd::arithmetic::div_mod::lemma_fundamental_div_mod;
use vstd::prelude::*;

verus! {

/// The boundary indexer lands inside the image and keeps the parity of both
/// coordinates, so the reflected pixel has the same filter colour.
pub proof fn lemma_boundary_keeps_pattern(x: int, y: int, w: int, h: int)
    requires
        2 <= w,
        2 <= h,
        in_extended_range(x, y, w, h),
    ensures
        0 <= boundary_index(x, y, w, h).0 < w,
        0 <= boundary_index(x, y, w, h).1 < h,
        pattern(boundary_index(x, y, w, h).0, boundary_index(x, y, w, h).1) == pattern(x, y),
{
}

/// The first pass over the mosaic of an image of the single colour `c`.
proof fn lemma_flat_separated(m: Seq<u8>, img: Seq<Rgb8>, w: int, h: int, c: Rgb8, x: int, y: int)
    requires
        2 <= w,
        2 <= h,
        is_mosaic_of(m, img, w, h),
        forall|a: int, b: int| 0 <= a < w && 0 <= b < h ==> #[trigger] cell(img, w, a, b) == c,
        in_extended_range(x, y, w, h),
    ensures
        separated_ext(m, w, h, x, y) == flat_separated(c, pattern(x, y)),
        0 <= x < w && 0 <= y < h ==> separated_pixel(m, w, h, x, y) == flat_separated(c, pattern(x, y)),
{
    reveal(separated_ext);
    lemma_boundary_keeps_pattern(x, y, w, h);
    let (bx, by) = boundary_index(x, y, w, h);
    assert(cell(m, w, bx, by) == sample_of(cell(img, w, bx, by), pattern(bx, by)));
    if pattern(bx, by) != Channel::Green {
        lemma_boundary_keeps_pattern(bx - 1, by, w, h);
        lemma_boundary_keeps_pattern(bx + 1, by, w, h);
        lemma_boundary_keeps_pattern(bx, by - 1, w, h);
        lemma_boundary_keeps_pattern(bx, by + 1, w, h);
        let l = boundary_index(bx - 1, by, w, h);
        let r = boundary_index(bx + 1, by, w, h);
        let u = boundary_index(bx, by - 1, w, h);
        let d = boundary_index(bx, by + 1, w, h);
        assert(cell(m, w, l.0, l.1) == sample_of(cell(img, w, l.0, l.1), pattern(l.0, l.1)));
        assert(cell(m, w, r.0, r.1) == sample_of(cell(img, w, r.0, r.1), pattern(r.0, r.1)));
        assert(cell(m, w, u.0, u.1) == sample_of(cell(img, w, u.0, u.1), pattern(u.0, u.1)));
        assert(cell(m, w, d.0, d.1) == sample_of(cell(img, w, d.0, d.1), pattern(d.0, d.1)));
        assert(green_estimate(m, w, h, bx, by) == c.1);
    }
}

/// Two equal ratios `v / g` average back to `v` once scaled by `g`.
proof fn lemma_equal_ratios2(v: u8, g: u8)
    requires
        g > 0 || v == 0,
    ensures
        ratio_estimate2((v, g), (v, g), g) == v,
{
    reveal(ratio_estimate2);
    if g > 0 {
        let gi = g as int;
        let vi = v as int;
        assert(gi * (vi * gi + vi * gi) == vi * (2 * gi * gi)) by (nonlinear_arith);
        assert(2 * gi * gi > 0) by (nonlinear_arith)
            requires
                gi > 0,
        ;
        vstd::arithmetic::div_mod::lemma_div_multiples_vanish(vi, 2 * gi * gi);
    }
}

/// Four equal ratios `v / g` average back to `v` once scaled by `g`.
proof fn lemma_equal_ratios4(v: u8, g: u8)
    requires
        g > 0 || v == 0,
    ensures
        ratio_estimate4((v, g), (v, g), (v, g), (v, g), g) == v,
{
    reveal(ratio_estimate4);
    if g > 0 {
        let gi = g as int;
        let vi = v as int;
        let t = (v, g);
        let den = 4 * gi * gi * gi * gi;
        assert(gi * ratio_numerator4(t, t, t, t) == vi * den) by (nonlinear_arith)
            requires
                ratio_numerator4(t, t, t, t) == 4 * (vi * gi * gi * gi),
                den == 4 * gi * gi * gi * gi,
        ;
        assert(den > 0) by (nonlinear_arith)
            requires
                gi > 0,
                den == 4 * gi * gi * gi * gi,
        ;
        vstd::arithmetic::div_mod::lemma_div_multiples_vanish(vi, den);
    }
}

/// The first-pass pixel of a single-colour image, by filter colour.
pub open spec fn flat_separated(c: Rgb8, ch: Channel) -> Rgb8 {
    (
        if ch == Channel::Red { c.0 } else { 0u8 },
        c.1,
        if ch == Channel::Blue { c.2 } else { 0u8 },
    )
}

/// Reconstruction at a green site of a single-colour image.
proof fn lemma_flat_green(m: Seq<u8>, img: Seq<Rgb8>, w: int, h: int, c: Rgb8, x: int, y: int)
    requires
        2 <= w,
        2 <= h,
        forall|a: int, b: int| 0 <= a < w && 0 <= b < h ==> #[trigger] cell(img, w, a, b) == c,
        is_mosaic_of(m, img, w, h),
        c.1 > 0 || (c.0 == 0 && c.2 == 0),
        0 <= x < w,
        0 <= y < h,
        pattern(x, y) == Channel::Green,
    ensures
        demosaiced_pixel(m, w, h, x, y) == c,
{
    lemma_flat_separated(m, img, w, h, c, x, y);
    lemma_flat_separated(m, img, w, h, c, x - 1, y);
    lemma_flat_separated(m, img, w, h, c, x + 1, y);
    lemma_flat_separated(m, img, w, h, c, x, y - 1);
    lemma_flat_separated(m, img, w, h, c, x, y + 1);
    lemma_equal_ratios2(c.0, c.1);
    lemma_equal_ratios2(c.2, c.1);
}

/// Reconstruction at a red or blue site of a single-colour image.
proof fn lemma_flat_chroma(m: Seq<u8>, img: Seq<Rgb8>, w: int, h: int, c: Rgb8, x: int, y: int)
    requires
        2 <= w,
        2 <= h,
        forall|a: int, b: int| 0 <= a < w && 0 <= b < h ==> #[trigger] cell(img, w, a, b) == c,
        is_mosaic_of(m, img, w, h),
        c.1 > 0 || (c.0 == 0 && c.2 == 0),
        0 <= x < w,
        0 <= y < h,
        pattern(x, y) != Channel::Green,
    ensures
        demosaiced_pixel(m, w, h, x, y) == c,
{
    lemma_flat_separated(m, img, w, h, c, x, y);
    lemma_flat_separated(m, img, w, h, c, x - 1, y - 1);
    lemma_flat_separated(m, img, w, h, c, x + 1, y - 1);
    lemma_flat_separated(m, img, w, h, c, x - 1, y + 1);
    lemma_flat_separated(m, img, w, h, c, x + 1, y + 1);
    lemma_equal_ratios4(c.0, c.1);
    lemma_equal_ratios4(c.2, c.1);
}

/// Demosaicing the mosaic of an image of one colour `c` gives back `c` at
/// every pixel, borders included: every colour-to-green ratio that the second
/// pass averages equals that of `c`. Where green is zero and red or blue is
/// not, those ratios are unbounded and the property does not hold.
pub proof fn lemma_flat_color_round_trip(m: Seq<u8>, img: Seq<Rgb8>, w: int, h: int, c: Rgb8)
    requires
        2 <= w,
        2 <= h,
        img.len() == w * h,
        forall|a: int, b: int| 0 <= a < w && 0 <= b < h ==> #[trigger] cell(img, w, a, b) == c,
        is_mosaic_of(m, img, w, h),
        c.1 > 0 || (c.0 == 0 && c.2 == 0),
    ensures
        forall|x: int, y: int| 0 <= x < w && 0 <= y < h ==> #[trigger] demosaiced_pixel(m, w, h, x, y) == c,
{
    assert forall|x: int, y: int| 0 <= x < w && 0 <= y < h implies #[trigger] demosaiced_pixel(m, w, h, x, y) == c by {
        if pattern(x, y) == Channel::Green {
            lemma_flat_green(m, img, w, h, c, x, y);
        } else {
            lemma_flat_chroma(m, img, w, h, c, x, y);
        }
    }
}

/// Demosaicing the mosaic of an image gives back, at every pixel, exactly
/// the channel that the filter sampled there: green at green sites, red at
/// red sites, blue at blue sites.
pub proof fn lemma_sampled_channel_kept(m: Seq<u8>, img: Seq<Rgb8>, w: int, h: int, x: int, y: int)
    requires
        2 <= w,
        2 <= h,
        is_mosaic_of(m, img, w, h),
        0 <= x < w,
        0 <= y < h,
    ensures
        sample_of(demosaiced_pixel(m, w, h, x, y), pattern(x, y)) == sample_of(
            cell(img, w, x, y),
            pattern(x, y),
        ),
{
    assert(cell(m, w, x, y) == sample_of(cell(img, w, x, y), pattern(x, y)));
}

/// A mosaic has exactly one demosaiced image: any two results that meet the
/// contract shared by `demosaic` and `demosaic_rayon` for the same mosaic
/// are equal pixel for pixel, so the parallel and sequential runs agree.
pub proof fn lemma_demosaic_unique(a: Seq<Rgb8>, b: Seq<Rgb8>, m: Seq<u8>, w: int, h: int)
    requires
        2 <= w,
        2 <= h,
        is_demosaic_of(a, m, w, h),
        is_demosaic_of(b, m, w, h),
    ensures
        a == b,
{
    assert forall|i: int| 0 <= i < a.len() implies a[i] == b[i] by {
        let x = i % w;
        let y = i / w;
        lemma_fundamental_div_mod(i, w);
        assert(0 <= x < w);
        assert(0 <= y < h) by (nonlinear_arith)
            requires
                i == w * y + x,
                0 <= x < w,
                0 <= i < w * h,
                2 <= w,
        ;
        assert(cell(a, w, x, y) == cell(b, w, x, y));
        assert(y * w + x == i) by (nonlinear_arith)
            requires
                i == w * y + x,
        ;
    }
    assert(a =~= b);
}

} // verus!
