//! Chroma estimates from colour-to-green ratios of neighbouring pixels.
//!
//! Each estimate is the mean of the ratios `c_i / g_i` scaled by the green
//! value `g` of the pixel being reconstructed, truncated toward zero and
//! saturated to `0..=255`. It is computed exactly in integers. A ratio with a
//! zero denominator behaves as in IEEE arithmetic followed by a saturating
//! cast: `0 / 0` makes the estimate `0`; `c / 0` with `c > 0` is unbounded and
//! gives `255`, or `0` when `g` is zero.
use vstd::prelude::*;

verus! {

/// A colour sample together with the green sample of the same pixel.
pub type RatioTerm = (u8, u8);

/// `q` as an intensity, saturated at 255.
pub open spec fn saturate(q: int) -> u8 {
    if q > 255 {
        255
    } else {
        q as u8
    }
}

/// The ratio `0 / 0`.
pub open spec fn undefined_ratio(t: RatioTerm) -> bool {
    t.0 == 0 && t.1 == 0
}

/// The estimate when no ratio is undefined but some denominator is zero.
pub open spec fn unbounded_estimate(g: u8) -> u8 {
    if g == 0 {
        0
    } else {
        255
    }
}

/// `g * (a.0 / a.1 + b.0 / b.1) / 2`, truncated and saturated.
#[verifier::opaque]
pub open spec fn ratio_estimate2(a: RatioTerm, b: RatioTerm, g: u8) -> u8 {
    if undefined_ratio(a) || undefined_ratio(b) {
        0
    } else if a.1 == 0 || b.1 == 0 {
        unbounded_estimate(g)
    } else {
        saturate(
            (g as int * (a.0 as int * b.1 as int + b.0 as int * a.1 as int)) / (2 * a.1 as int
                * b.1 as int),
        )
    }
}

/// The sum of four ratios over their common denominator `a.1 * b.1 * c.1 * d.1`.
pub open spec fn ratio_numerator4(a: RatioTerm, b: RatioTerm, c: RatioTerm, d: RatioTerm) -> int {
    a.0 as int * b.1 as int * c.1 as int * d.1 as int + b.0 as int * a.1 as int * c.1 as int
        * d.1 as int + c.0 as int * a.1 as int * b.1 as int * d.1 as int + d.0 as int * a.1 as int
        * b.1 as int * c.1 as int
}

/// `g * (a.0 / a.1 + b.0 / b.1 + c.0 / c.1 + d.0 / d.1) / 4`, truncated and saturated.
#[verifier::opaque]
pub open spec fn ratio_estimate4(
    a: RatioTerm,
    b: RatioTerm,
    c: RatioTerm,
    d: RatioTerm,
    g: u8,
) -> u8 {
    if undefined_ratio(a) || undefined_ratio(b) || undefined_ratio(c) || undefined_ratio(d) {
        0
    } else if a.1 == 0 || b.1 == 0 || c.1 == 0 || d.1 == 0 {
        unbounded_estimate(g)
    } else {
        saturate(
            (g as int * ratio_numerator4(a, b, c, d)) / (4 * a.1 as int * b.1 as int * c.1 as int
                * d.1 as int),
        )
    }
}

proof fn lemma_product_bound(a: int, b: int, ba: int, bb: int)
    requires
        0 <= a <= ba,
        0 <= b <= bb,
    ensures
        0 <= a * b <= ba * bb,
{
    assert(0 <= a * b <= ba * bb) by (nonlinear_arith)
        requires
            0 <= a <= ba,
            0 <= b <= bb,
    ;
}

/// The mean of two colour-to-green ratios, scaled by `g`.
pub fn estimate2(a: RatioTerm, b: RatioTerm, g: u8) -> (r: u8)
    ensures
        r == ratio_estimate2(a, b, g),
{
    reveal(ratio_estimate2);
    if (a.0 == 0 && a.1 == 0) || (b.0 == 0 && b.1 == 0) {
        return 0;
    }
    if a.1 == 0 || b.1 == 0 {
        return if g == 0 {
            0
        } else {
            255
        };
    }
    proof {
        lemma_product_bound(a.0 as int, b.1 as int, 255, 255);
        lemma_product_bound(b.0 as int, a.1 as int, 255, 255);
        lemma_product_bound(g as int, a.0 as int * b.1 as int + b.0 as int * a.1 as int, 255, 130050);
        lemma_product_bound(a.1 as int, b.1 as int, 255, 255);
    }
    let num: u64 = g as u64 * (a.0 as u64 * b.1 as u64 + b.0 as u64 * a.1 as u64);
    let den: u64 = 2 * (a.1 as u64 * b.1 as u64);
    assert(a.1 as int * b.1 as int > 0) by (nonlinear_arith)
        requires
            a.1 > 0,
            b.1 > 0,
    ;
    assert(2 * (a.1 as int * b.1 as int) == 2 * a.1 as int * b.1 as int) by (nonlinear_arith);
    let q = num / den;
    if q > 255 {
        255
    } else {
        q as u8
    }
}

/// A product of three 8-bit values and one more, with the bounds that keep it in `u64`.
fn product4(a: u8, b: u8, c: u8, d: u8) -> (r: u64)
    ensures
        r == a as int * b as int * c as int * d as int,
        r <= 255 * 255 * 255 * 255,
{
    proof {
        lemma_product_bound(a as int, b as int, 255, 255);
        lemma_product_bound(a as int * b as int, c as int, 65025, 255);
        lemma_product_bound(a as int * b as int * c as int, d as int, 16581375, 255);
    }
    a as u64 * b as u64 * c as u64 * d as u64
}

/// The mean of four colour-to-green ratios, scaled by `g`.
pub fn estimate4(a: RatioTerm, b: RatioTerm, c: RatioTerm, d: RatioTerm, g: u8) -> (r: u8)
    ensures
        r == ratio_estimate4(a, b, c, d, g),
{
    reveal(ratio_estimate4);
    if (a.0 == 0 && a.1 == 0) || (b.0 == 0 && b.1 == 0) || (c.0 == 0 && c.1 == 0) || (d.0 == 0
        && d.1 == 0) {
        return 0;
    }
    if a.1 == 0 || b.1 == 0 || c.1 == 0 || d.1 == 0 {
        return if g == 0 {
            0
        } else {
            255
        };
    }
    let sum = product4(a.0, b.1, c.1, d.1) + product4(b.0, a.1, c.1, d.1) + product4(
        c.0,
        a.1,
        b.1,
        d.1,
    ) + product4(d.0, a.1, b.1, c.1);
    proof {
        lemma_product_bound(g as int, sum as int, 255, 16913002500);
    }
    let num: u64 = g as u64 * sum;
    let den: u64 = 4 * product4(a.1, b.1, c.1, d.1);
    assert(a.1 as int * b.1 as int * c.1 as int * d.1 as int > 0) by (nonlinear_arith)
        requires
            a.1 > 0,
            b.1 > 0,
            c.1 > 0,
            d.1 > 0,
    ;
    assert(4 * (a.1 as int * b.1 as int * c.1 as int * d.1 as int) == 4 * a.1 as int * b.1 as int
        * c.1 as int * d.1 as int) by (nonlinear_arith);
    let q = num / den;
    if q > 255 {
        255
    } else {
        q as u8
    }
}

} // verus!
