//! Geometry engine: computing the largest dimension with a fixed aspect
//! ratio that fits inside a source dimension, and the offset that centers
//! one dimension within another.

use vstd::arithmetic::div_mod::{
    lemma_div_by_multiple, lemma_multiply_divide_le, lemma_multiply_divide_lt,
};
use vstd::prelude::*;

verus! {

/// The size of a rectangular pixel grid, in pixels.
#[derive(Clone, Copy, Debug, PartialEq, Eq, Structural)]
pub struct Dimension {
    pub width: u32,
    pub height: u32,
}

/// A top-left placement offset, in pixels, non-negative by construction.
#[derive(Clone, Copy, Debug, PartialEq, Eq, Structural)]
pub struct Point {
    pub x: u32,
    pub y: u32,
}

/// A strictly positive width-to-height ratio, kept as the exact rational
/// `num / den` so that the scaling arithmetic stays in the integers.
#[derive(Clone, Copy, Debug, PartialEq, Eq, Structural)]
pub struct AspectRatio {
    pub num: u32,
    pub den: u32,
}

impl AspectRatio {
    /// A ratio is usable only when both parts are strictly positive.
    pub open spec fn valid(self) -> bool {
        self.num > 0 && self.den > 0
    }
}

/// The product of two values below 2^32 stays below 2^64.
pub(crate) proof fn lemma_u32_mul_fits_u64(a: int, b: int)
    by (nonlinear_arith)
    requires
        0 <= a < 0x1_0000_0000,
        0 <= b < 0x1_0000_0000,
    ensures
        0 <= a * b < 0x1_0000_0000_0000_0000,
{
}

impl Dimension {
    /// A usable dimension has no zero axis.
    pub open spec fn valid(self) -> bool {
        self.width > 0 && self.height > 0
    }

    /// The largest rectangle of ratio `ratio` that fits inside `self`:
    /// the constrained axis is kept, the other is scaled by the exact
    /// rational and truncated.
    pub open spec fn scale_spec(self, ratio: AspectRatio) -> Dimension {
        if self.width * ratio.den < self.height * ratio.num {
            Dimension {
                width: self.width,
                height: ((self.width * ratio.den) / (ratio.num as int)) as u32,
            }
        } else {
            Dimension {
                width: ((self.height * ratio.num) / (ratio.den as int)) as u32,
                height: self.height,
            }
        }
    }

    /// Computes the crop window: the largest dimension with ratio `ratio`
    /// that fits within `self`, by truncating integer arithmetic. A source
    /// already at the ratio comes back unchanged.
    pub fn to_aspect_ratio(&self, ratio: &AspectRatio) -> (r: Dimension)
        requires
            self.valid(),
            ratio.valid(),
        ensures
            r == self.scale_spec(*ratio),
            r.width <= self.width,
            r.height <= self.height,
    {
        proof {
            lemma_u32_mul_fits_u64(self.width as int, ratio.den as int);
            lemma_u32_mul_fits_u64(self.height as int, ratio.num as int);
            lemma_scale_non_expanding(*self, *ratio);
        }
        let wd: u64 = self.width as u64 * ratio.den as u64;
        let hn: u64 = self.height as u64 * ratio.num as u64;
        if wd < hn {
            Dimension { width: self.width, height: (wd / ratio.num as u64) as u32 }
        } else {
            Dimension { width: (hn / ratio.den as u64) as u32, height: self.height }
        }
    }
}

/// The offset that centers `inner` within `outer`, truncating toward zero.
pub open spec fn center_spec(outer: Dimension, inner: Dimension) -> Point {
    Point {
        x: (((outer.width - inner.width) / 2) as u32),
        y: (((outer.height - inner.height) / 2) as u32),
    }
}

/// Computes the top-left offset that centers `inner` within `outer`.
/// `outer` must dominate `inner` on both axes, so the subtraction cannot
/// underflow.
pub fn get_center_offset(outer: &Dimension, inner: &Dimension) -> (r: Point)
    requires
        inner.width <= outer.width,
        inner.height <= outer.height,
    ensures
        r == center_spec(*outer, *inner),
        r.x == (outer.width - inner.width) / 2,
        r.y == (outer.height - inner.height) / 2,
{
    Point { x: (outer.width - inner.width) / 2, y: (outer.height - inner.height) / 2 }
}

/// Law: a centered window stays inside what it is centered in. The
/// offset plus the inner dimension never exceeds the outer dimension, so
/// a crop window placed by `center_spec` is a true sub-rectangle.
pub proof fn lemma_centered_window_fits(outer: Dimension, inner: Dimension)
    requires
        inner.width <= outer.width,
        inner.height <= outer.height,
    ensures
        center_spec(outer, inner).x + inner.width <= outer.width,
        center_spec(outer, inner).y + inner.height <= outer.height,
{
}

/// Law: scaling never expands. The crop window fits within the source on
/// both axes, whichever branch the ratio comparison takes.
pub proof fn lemma_scale_non_expanding(d: Dimension, ratio: AspectRatio)
    requires
        d.valid(),
        ratio.valid(),
    ensures
        d.scale_spec(ratio).width <= d.width,
        d.scale_spec(ratio).height <= d.height,
{
    let w = d.width as int;
    let h = d.height as int;
    let n = ratio.num as int;
    let dn = ratio.den as int;
    if w * dn < h * n {
        assert(w * dn < n * h) by (nonlinear_arith)
            requires
                w * dn < h * n,
        ;
        lemma_multiply_divide_lt(w * dn, n, h);
    } else {
        assert(h * n <= dn * w) by (nonlinear_arith)
            requires
                h * n <= w * dn,
        ;
        lemma_multiply_divide_le(h * n, dn, w);
    }
}

/// Law: a dimension already at the ratio exactly is a fixed point of the
/// scaling, so cropping an image that needs no crop changes nothing.
pub proof fn lemma_scale_idempotent(d: Dimension, ratio: AspectRatio)
    requires
        d.valid(),
        ratio.valid(),
        d.width * ratio.den == d.height * ratio.num,
    ensures
        d.scale_spec(ratio) == d,
{
    let w = d.width as int;
    let h = d.height as int;
    let n = ratio.num as int;
    let dn = ratio.den as int;
    assert(h * n == w * dn) by (nonlinear_arith)
        requires
            w * dn == h * n,
    ;
    lemma_div_by_multiple(w, dn);
    assert((h * n) / dn == w);
}

/// Law: the scaled dimension approximates the ratio up to one unit of
/// truncation error. On the constrained axis the result equals the source;
/// on the other axis it is the exact rational product, floored.
pub proof fn lemma_scale_ratio_approximation(d: Dimension, ratio: AspectRatio)
    requires
        d.valid(),
        ratio.valid(),
    ensures
        d.width * ratio.den < d.height * ratio.num ==> d.scale_spec(ratio).width == d.width,
        d.width * ratio.den < d.height * ratio.num ==> d.scale_spec(ratio).height == (
        d.scale_spec(ratio).width * ratio.den) / (ratio.num as int),
        d.width * ratio.den >= d.height * ratio.num ==> d.scale_spec(ratio).height == d.height,
        d.width * ratio.den >= d.height * ratio.num ==> d.scale_spec(ratio).width == (
        d.scale_spec(ratio).height * ratio.num) / (ratio.den as int),
{
    lemma_scale_non_expanding(d, ratio);
    let w = d.width as int;
    let h = d.height as int;
    let n = ratio.num as int;
    let dn = ratio.den as int;
    if w * dn < h * n {
        assert(w * dn < n * h) by (nonlinear_arith)
            requires
                w * dn < h * n,
        ;
        lemma_multiply_divide_lt(w * dn, n, h);
    } else {
        assert(h * n <= dn * w) by (nonlinear_arith)
            requires
                h * n <= w * dn,
        ;
        lemma_multiply_divide_le(h * n, dn, w);
    }
}

} // verus!
