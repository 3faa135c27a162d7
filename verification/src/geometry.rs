//! Crop-window geometry: mapping normalized crop parameters and known
//! image dimensions to pixel-space crop rectangles.

use vstd::prelude::*;
use vstd::arithmetic::div_mod::{
    lemma_div_is_ordered, lemma_div_multiples_vanish, lemma_div_pos_is_pos,
};
use vstd::arithmetic::mul::{lemma_mul_inequality, lemma_mul_is_commutative};
use crate::errors::CropError;

verus! {

/// A nonnegative rational number `num / den`: the exact carrier for the
/// normalized crop parameters (scale, center coordinates, scale bound).
#[derive(Clone, Copy, Debug, PartialEq, Eq, Structural)]
pub struct Frac {
    pub num: u32,
    pub den: u32,
}

impl Frac {
    /// A fraction is well formed when its denominator is nonzero.
    pub open spec fn wf(self) -> bool {
        self.den >= 1
    }

    /// `self <= other` as rational numbers.
    pub open spec fn spec_le(self, other: Frac) -> bool {
        self.num * other.den <= other.num * self.den
    }

    /// `self <= 1` as a rational number.
    pub open spec fn le_one(self) -> bool {
        self.num <= self.den
    }

    /// Rational comparison by cross-multiplication.
    pub fn le(self, other: Frac) -> (r: bool)
        requires
            self.wf(),
            other.wf(),
        ensures
            r == self.spec_le(other),
    {
        proof {
            lemma_u32_mul_fits_u64(self.num as int, other.den as int);
            lemma_u32_mul_fits_u64(other.num as int, self.den as int);
        }
        (self.num as u64) * (other.den as u64) <= (other.num as u64) * (self.den as u64)
    }
}

/// The product of two `u32` values always fits in a `u64`.
proof fn lemma_u32_mul_fits_u64(a: int, b: int)
    by (nonlinear_arith)
    requires
        0 <= a < 0x1_0000_0000,
        0 <= b < 0x1_0000_0000,
    ensures
        0 <= a * b < 0x1_0000_0000_0000_0000,
{
}

/// Scaling a range by a fraction that is at most one never leaves the range.
proof fn lemma_frac_of_range(num: int, den: int, range: int)
    requires
        1 <= den,
        0 <= num <= den,
        0 <= range,
    ensures
        0 <= num * range / den <= range,
{
    lemma_mul_inequality(num, den, range);
    lemma_div_is_ordered(num * range, den * range, den);
    lemma_mul_is_commutative(den, range);
    lemma_div_multiples_vanish(range, den);
    lemma_div_pos_is_pos(num * range, den);
}

/// A fraction below one that bounds another from above keeps it below one.
proof fn lemma_le_bounded_by_one(an: int, ad: int, bn: int, bd: int)
    by (nonlinear_arith)
    requires
        1 <= ad,
        1 <= bd,
        an * bd <= bn * ad,
        bn <= bd,
    ensures
        an <= ad,
{
}

/// `floor(val * (newmax - newmin)) + newmin`: the affine map of a
/// normalized value into the integer range `[newmin, newmax]`.
pub open spec fn spec_scale_range(val: Frac, newmin: u32, newmax: u32) -> int {
    newmin + val.num * (newmax - newmin) / (val.den as int)
}

/// Rescale a normalized value in `[0, 1]` into the range `[newmin, newmax]`,
/// truncating fractional positions toward zero.
pub fn scale_range(val: Frac, newmin: u32, newmax: u32) -> (r: u32)
    requires
        val.wf(),
        val.le_one(),
        newmin <= newmax,
    ensures
        r == spec_scale_range(val, newmin, newmax),
{
    let range: u32 = newmax - newmin;
    proof {
        lemma_u32_mul_fits_u64(val.num as int, range as int);
        lemma_frac_of_range(val.num as int, val.den as int, range as int);
    }
    newmin + (((val.num as u64) * (range as u64)) / (val.den as u64)) as u32
}

/// A pixel-space crop rectangle within a source image.
#[derive(Clone, Copy, Debug, PartialEq, Eq, Structural)]
pub struct CropWindow {
    pub x: u32,
    pub y: u32,
    pub width: u32,
    pub height: u32,
}

/// The scale actually used for the crop: the requested scale, capped by
/// the batch-wide upper bound.
pub open spec fn effective_scale(scale: Frac, max_crop_fraction: Frac) -> Frac {
    if scale.spec_le(max_crop_fraction) {
        scale
    } else {
        max_crop_fraction
    }
}

/// One side of the crop rectangle: `floor(dim * eff)`, floored at 2 so the
/// crop stays non-degenerate under extreme scale-down.
pub open spec fn spec_crop_side(dim: u32, eff: Frac) -> int {
    let scaled = spec_scale_range(eff, 0, dim);
    if scaled < 2 {
        2
    } else {
        scaled
    }
}

/// The crop origin on one axis: the scaled anchor, clamped down so the
/// window stays inside the image. The clamp only ever reduces the anchor,
/// biasing overflowing requests toward the low edge.
pub open spec fn spec_crop_origin(frac: Frac, dim: u32, side: int) -> int {
    let raw = spec_scale_range(frac, 0, dim);
    let limit = if side <= dim {
        dim - side
    } else {
        0
    };
    if raw <= limit {
        raw
    } else {
        limit
    }
}

/// The whole geometry computation, including argument validation: the
/// normalized coordinates and the scale bound must lie in `[0, 1]`.
pub open spec fn spec_compute_crop(
    image_width: u32,
    image_height: u32,
    scale: Frac,
    x_frac: Frac,
    y_frac: Frac,
    max_crop_fraction: Frac,
) -> Result<CropWindow, CropError> {
    if !(x_frac.le_one() && y_frac.le_one() && max_crop_fraction.le_one()) {
        Err(CropError::InvalidArgument)
    } else {
        let eff = effective_scale(scale, max_crop_fraction);
        let w = spec_crop_side(image_width, eff);
        let h = spec_crop_side(image_height, eff);
        Ok(
            CropWindow {
                x: spec_crop_origin(x_frac, image_width, w) as u32,
                y: spec_crop_origin(y_frac, image_height, h) as u32,
                width: w as u32,
                height: h as u32,
            },
        )
    }
}

/// One side of the crop rectangle, executable form.
fn crop_side(dim: u32, eff: Frac) -> (r: u32)
    requires
        eff.wf(),
        eff.le_one(),
    ensures
        r == spec_crop_side(dim, eff),
        2 <= r,
{
    let scaled = scale_range(eff, 0, dim);
    if scaled < 2 {
        2
    } else {
        scaled
    }
}

/// Compute the pixel-space crop window for one image.
///
/// Rejects a normalized coordinate or scale bound outside `[0, 1]` with
/// `InvalidArgument`; otherwise returns exactly the window that
/// `spec_compute_crop` describes.
pub fn compute_crop(
    image_width: u32,
    image_height: u32,
    scale: Frac,
    x_frac: Frac,
    y_frac: Frac,
    max_crop_fraction: Frac,
) -> (r: Result<CropWindow, CropError>)
    requires
        scale.wf(),
        x_frac.wf(),
        y_frac.wf(),
        max_crop_fraction.wf(),
    ensures
        r == spec_compute_crop(image_width, image_height, scale, x_frac, y_frac, max_crop_fraction),
        r is Ok ==> 2 <= r->Ok_0.width && 2 <= r->Ok_0.height,
{
    if x_frac.num > x_frac.den || y_frac.num > y_frac.den
        || max_crop_fraction.num > max_crop_fraction.den {
        return Err(CropError::InvalidArgument);
    }
    let eff = if scale.le(max_crop_fraction) {
        scale
    } else {
        max_crop_fraction
    };
    proof {
        lemma_effective_scale_le_one(scale, max_crop_fraction);
    }
    let crop_w = crop_side(image_width, eff);
    let crop_h = crop_side(image_height, eff);
    let raw_x = scale_range(x_frac, 0, image_width);
    let raw_y = scale_range(y_frac, 0, image_height);
    let max_x = if crop_w <= image_width {
        image_width - crop_w
    } else {
        0
    };
    let max_y = if crop_h <= image_height {
        image_height - crop_h
    } else {
        0
    };
    let x = if raw_x <= max_x {
        raw_x
    } else {
        max_x
    };
    let y = if raw_y <= max_y {
        raw_y
    } else {
        max_y
    };
    Ok(CropWindow { x, y, width: crop_w, height: crop_h })
}

/// The effective scale never exceeds one once the scale bound is in range.
proof fn lemma_effective_scale_le_one(scale: Frac, max_crop_fraction: Frac)
    requires
        scale.wf(),
        max_crop_fraction.wf(),
        max_crop_fraction.le_one(),
    ensures
        effective_scale(scale, max_crop_fraction).le_one(),
{
    if scale.spec_le(max_crop_fraction) {
        lemma_le_bounded_by_one(
            scale.num as int,
            scale.den as int,
            max_crop_fraction.num as int,
            max_crop_fraction.den as int,
        );
    }
}

/// Law: for an image at least 2 pixels on each side and in-range
/// parameters, the computed crop window lies fully inside the image and
/// each of its sides is at least 2 pixels.
pub proof fn lemma_crop_window_contained(
    image_width: u32,
    image_height: u32,
    scale: Frac,
    x_frac: Frac,
    y_frac: Frac,
    max_crop_fraction: Frac,
)
    requires
        2 <= image_width,
        2 <= image_height,
        scale.wf(),
        x_frac.wf(),
        y_frac.wf(),
        max_crop_fraction.wf(),
        x_frac.le_one(),
        y_frac.le_one(),
        max_crop_fraction.le_one(),
    ensures
        spec_compute_crop(image_width, image_height, scale, x_frac, y_frac, max_crop_fraction)
            is Ok,
        ({
            let cw = spec_compute_crop(
                image_width,
                image_height,
                scale,
                x_frac,
                y_frac,
                max_crop_fraction,
            )->Ok_0;
            &&& 2 <= cw.width
            &&& 2 <= cw.height
            &&& cw.x + cw.width <= image_width
            &&& cw.y + cw.height <= image_height
        }),
{
    let eff = effective_scale(scale, max_crop_fraction);
    lemma_effective_scale_le_one(scale, max_crop_fraction);
    lemma_frac_of_range(eff.num as int, eff.den as int, image_width as int);
    lemma_frac_of_range(eff.num as int, eff.den as int, image_height as int);
    let side_w = spec_crop_side(image_width, eff);
    let side_h = spec_crop_side(image_height, eff);
    assert(2 <= side_w <= image_width);
    assert(2 <= side_h <= image_height);
    lemma_frac_of_range(x_frac.num as int, x_frac.den as int, image_width as int);
    lemma_frac_of_range(y_frac.num as int, y_frac.den as int, image_height as int);
    assert(spec_crop_origin(x_frac, image_width, side_w) + side_w <= image_width);
    assert(spec_crop_origin(y_frac, image_height, side_h) + side_h <= image_height);
}

/// Law: the crop computation is a pure function of its arguments: two
/// results obtained from identical inputs are identical.
pub proof fn lemma_compute_crop_idempotent(
    r1: Result<CropWindow, CropError>,
    r2: Result<CropWindow, CropError>,
    image_width: u32,
    image_height: u32,
    scale: Frac,
    x_frac: Frac,
    y_frac: Frac,
    max_crop_fraction: Frac,
)
    requires
        r1 == spec_compute_crop(image_width, image_height, scale, x_frac, y_frac, max_crop_fraction),
        r2 == spec_compute_crop(image_width, image_height, scale, x_frac, y_frac, max_crop_fraction),
    ensures
        r1 == r2,
{
}

/// Law: anchor `(0, 0)` with scale and scale bound both 1 selects the
/// whole image, each side floored at 2 for degenerate images.
pub proof fn lemma_full_image_window(
    image_width: u32,
    image_height: u32,
    scale: Frac,
    x_frac: Frac,
    y_frac: Frac,
    max_crop_fraction: Frac,
)
    requires
        scale.wf(),
        x_frac.wf(),
        y_frac.wf(),
        max_crop_fraction.wf(),
        x_frac.num == 0,
        y_frac.num == 0,
        scale.num == scale.den,
        max_crop_fraction.num == max_crop_fraction.den,
    ensures
        spec_compute_crop(image_width, image_height, scale, x_frac, y_frac, max_crop_fraction)
            == Ok::<CropWindow, CropError>(
            CropWindow {
                x: 0,
                y: 0,
                width: if image_width < 2 { 2 } else { image_width },
                height: if image_height < 2 { 2 } else { image_height },
            },
        ),
{
    lemma_full_scale_floor(scale, image_width);
    lemma_full_scale_floor(scale, image_height);
    lemma_zero_scale_floor(x_frac, image_width);
    lemma_zero_scale_floor(y_frac, image_height);
    assert(scale.num * max_crop_fraction.den == max_crop_fraction.num * scale.den)
        by (nonlinear_arith)
        requires
            scale.num == scale.den,
            max_crop_fraction.num == max_crop_fraction.den,
    ;
}

/// Scaling a dimension by a fraction equal to one returns the dimension.
proof fn lemma_full_scale_floor(f: Frac, dim: u32)
    requires
        f.wf(),
        f.num == f.den,
    ensures
        spec_scale_range(f, 0, dim) == dim,
{
    lemma_mul_is_commutative(f.den as int, dim as int);
    lemma_div_multiples_vanish(dim as int, f.den as int);
}

/// Scaling a dimension by a fraction equal to zero returns zero.
proof fn lemma_zero_scale_floor(f: Frac, dim: u32)
    requires
        f.wf(),
        f.num == 0,
    ensures
        spec_scale_range(f, 0, dim) == 0,
{
    assert(0int / (f.den as int) == 0) by {
        lemma_div_multiples_vanish(0, f.den as int);
    }
}

/// Law: anchor `(1, 1)` clamps the crop origin exactly to the far edge,
/// `(image_width - width, image_height - height)`.
pub proof fn lemma_far_edge_clamp(
    image_width: u32,
    image_height: u32,
    scale: Frac,
    x_frac: Frac,
    y_frac: Frac,
    max_crop_fraction: Frac,
)
    requires
        2 <= image_width,
        2 <= image_height,
        scale.wf(),
        x_frac.wf(),
        y_frac.wf(),
        max_crop_fraction.wf(),
        max_crop_fraction.le_one(),
        x_frac.num == x_frac.den,
        y_frac.num == y_frac.den,
    ensures
        spec_compute_crop(image_width, image_height, scale, x_frac, y_frac, max_crop_fraction)
            is Ok,
        ({
            let cw = spec_compute_crop(
                image_width,
                image_height,
                scale,
                x_frac,
                y_frac,
                max_crop_fraction,
            )->Ok_0;
            &&& cw.x == image_width - cw.width
            &&& cw.y == image_height - cw.height
        }),
{
    let eff = effective_scale(scale, max_crop_fraction);
    lemma_effective_scale_le_one(scale, max_crop_fraction);
    lemma_frac_of_range(eff.num as int, eff.den as int, image_width as int);
    lemma_frac_of_range(eff.num as int, eff.den as int, image_height as int);
    lemma_full_scale_floor(x_frac, image_width);
    lemma_full_scale_floor(y_frac, image_height);
}

} // verus!
