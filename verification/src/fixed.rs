//! Fixed-point page coordinates.
//!
//! Every coordinate, matrix entry and font size in this crate is an `i64`
//! holding thousandths of a PDF page unit.  All arithmetic saturates at
//! `FX_MAX` thousandths, a bound far beyond any real page geometry, so that
//! every operation is total and free of overflow.

use vstd::arithmetic::div_mod::{lemma_div_nonincreasing, lemma_div_pos_is_pos};
use vstd::prelude::*;

verus! {

/// Thousandths per page unit.
pub const SCALE: i64 = 1000;

/// Saturation bound for every stored coordinate, in thousandths.
pub const FX_MAX: i64 = 1_000_000_000_000;

/// A value that the saturating operations can produce.
pub open spec fn in_range(x: int) -> bool {
    -(FX_MAX as int) <= x <= FX_MAX as int
}

/// Saturation at the coordinate bound.
pub open spec fn spec_clamp(x: int) -> int {
    if x > FX_MAX as int {
        FX_MAX as int
    } else if x < -(FX_MAX as int) {
        -(FX_MAX as int)
    } else {
        x
    }
}

/// Division truncating toward zero, for a positive divisor.
pub open spec fn tdiv(a: int, b: int) -> int
    recommends
        b > 0,
{
    if a >= 0 {
        a / b
    } else {
        -((-a) / b)
    }
}

/// Product of two fixed-point values, rescaled and saturated.
pub open spec fn spec_fx_mul(a: int, b: int) -> int {
    spec_clamp(tdiv(a * b, SCALE as int))
}

/// `x1*y1 + x2*y2` of fixed-point values, rescaled, then offset: the core
/// step of an affine transform.
pub open spec fn spec_fx_mac2(x1: int, y1: int, x2: int, y2: int, off: int) -> int {
    spec_clamp(tdiv(x1 * y1 + x2 * y2, SCALE as int) + off)
}

/// The product of two in-range values fits comfortably below `i128` limits.
pub proof fn lemma_prod_bound(x: int, y: int)
    requires
        in_range(x),
        in_range(y),
    ensures
        -(FX_MAX as int) * (FX_MAX as int) <= x * y <= (FX_MAX as int) * (FX_MAX as int),
{
    assert(-(FX_MAX as int) * (FX_MAX as int) <= x * y <= (FX_MAX as int) * (FX_MAX as int))
        by (nonlinear_arith)
        requires
            -(FX_MAX as int) <= x <= FX_MAX as int,
            -(FX_MAX as int) <= y <= FX_MAX as int,
    ;
}

/// Truncated division never grows the magnitude of the dividend.
pub proof fn lemma_tdiv_bounds(a: int, b: int)
    requires
        b > 0,
    ensures
        a >= 0 ==> 0 <= tdiv(a, b) <= a,
        a < 0 ==> a <= tdiv(a, b) <= 0,
{
    if a >= 0 {
        lemma_div_nonincreasing(a, b);
        if a > 0 {
            lemma_div_pos_is_pos(a, b);
        } else {
            assert(a / b == 0) by {
                vstd::arithmetic::div_mod::lemma_basic_div(a, b);
            }
        }
    } else {
        lemma_div_nonincreasing(-a, b);
        lemma_div_pos_is_pos(-a, b);
    }
}

pub fn fx_clamp(x: i64) -> (r: i64)
    ensures
        r as int == spec_clamp(x as int),
{
    if x > FX_MAX {
        FX_MAX
    } else if x < -FX_MAX {
        -FX_MAX
    } else {
        x
    }
}

pub fn fx_clamp_wide(x: i128) -> (r: i64)
    ensures
        r as int == spec_clamp(x as int),
{
    if x > FX_MAX as i128 {
        FX_MAX
    } else if x < -(FX_MAX as i128) {
        -FX_MAX
    } else {
        x as i64
    }
}

pub fn tdiv_wide(a: i128, b: i128) -> (r: i128)
    requires
        b > 0,
    ensures
        r as int == tdiv(a as int, b as int),
{
    proof {
        lemma_tdiv_bounds(a as int, b as int);
    }
    match a.checked_div(b) {
        Some(q) => q,
        None => 0,
    }
}

/// Fixed-point product, used to scale a nominal font size by a matrix entry.
pub fn fx_mul(a: i64, b: i64) -> (r: i64)
    requires
        in_range(a as int),
        in_range(b as int),
    ensures
        r as int == spec_fx_mul(a as int, b as int),
{
    proof {
        lemma_prod_bound(a as int, b as int);
    }
    let p: i128 = (a as i128) * (b as i128);
    let q = tdiv_wide(p, SCALE as i128);
    proof {
        lemma_tdiv_bounds(p as int, SCALE as int);
    }
    fx_clamp_wide(q)
}

/// One affine-transform component: `(x1*y1 + x2*y2) / SCALE + off`, saturated.
pub fn fx_mac2(x1: i64, y1: i64, x2: i64, y2: i64, off: i64) -> (r: i64)
    requires
        in_range(x1 as int),
        in_range(y1 as int),
        in_range(x2 as int),
        in_range(y2 as int),
        in_range(off as int),
    ensures
        r as int == spec_fx_mac2(x1 as int, y1 as int, x2 as int, y2 as int, off as int),
{
    proof {
        lemma_prod_bound(x1 as int, y1 as int);
        lemma_prod_bound(x2 as int, y2 as int);
    }
    let p: i128 = (x1 as i128) * (y1 as i128) + (x2 as i128) * (y2 as i128);
    let q = tdiv_wide(p, SCALE as i128);
    proof {
        lemma_tdiv_bounds(p as int, SCALE as int);
    }
    fx_clamp_wide(q + (off as i128))
}

} // verus!
