//! Graphics and text state for the page-content interpreter.
//!
//! A `Matrix3x3` is the usual PDF affine matrix `[a b c d e f]` over
//! fixed-point entries; `PdfState` carries the current transformation matrix,
//! the text matrix, the leading value and the current path point.

use crate::fixed::{
    fx_clamp, fx_mac2, in_range, spec_clamp, spec_fx_mac2, spec_fx_mul, fx_mul, SCALE,
};
use vstd::prelude::*;

verus! {

/// An affine transform `[a b c d e f]`: maps `(x, y)` to
/// `(a*x + c*y + e, b*x + d*y + f)`.
#[derive(Clone, Copy, Debug)]
pub struct Matrix3x3 {
    pub a: i64,
    pub b: i64,
    pub c: i64,
    pub d: i64,
    pub e: i64,
    pub f: i64,
}

impl Matrix3x3 {
    /// All entries within the fixed-point coordinate bound.
    pub open spec fn wf(self) -> bool {
        &&& in_range(self.a as int)
        &&& in_range(self.b as int)
        &&& in_range(self.c as int)
        &&& in_range(self.d as int)
        &&& in_range(self.e as int)
        &&& in_range(self.f as int)
    }

    pub open spec fn spec_identity() -> Matrix3x3 {
        Matrix3x3 { a: SCALE, b: 0, c: 0, d: SCALE, e: 0, f: 0 }
    }

    /// Each component saturated into range.
    pub open spec fn spec_clamped(a: int, b: int, c: int, d: int, e: int, f: int) -> Matrix3x3 {
        Matrix3x3 {
            a: spec_clamp(a) as i64,
            b: spec_clamp(b) as i64,
            c: spec_clamp(c) as i64,
            d: spec_clamp(d) as i64,
            e: spec_clamp(e) as i64,
            f: spec_clamp(f) as i64,
        }
    }

    /// The affine composition `self ∘ other` (`other` applied first when
    /// transforming points), written over fixed-point products.
    pub open spec fn spec_multiply(self, other: Matrix3x3) -> Matrix3x3 {
        Matrix3x3 {
            a: spec_fx_mac2(self.a as int, other.a as int, self.c as int, other.b as int, 0) as i64,
            b: spec_fx_mac2(self.b as int, other.a as int, self.d as int, other.b as int, 0) as i64,
            c: spec_fx_mac2(self.a as int, other.c as int, self.c as int, other.d as int, 0) as i64,
            d: spec_fx_mac2(self.b as int, other.c as int, self.d as int, other.d as int, 0) as i64,
            e: spec_fx_mac2(
                self.a as int,
                other.e as int,
                self.c as int,
                other.f as int,
                self.e as int,
            ) as i64,
            f: spec_fx_mac2(
                self.b as int,
                other.e as int,
                self.d as int,
                other.f as int,
                self.f as int,
            ) as i64,
        }
    }

    /// Where this transform sends the point `(x, y)`.
    pub open spec fn spec_apply(self, x: int, y: int) -> (int, int) {
        (
            spec_fx_mac2(self.a as int, x, self.c as int, y, self.e as int),
            spec_fx_mac2(self.b as int, x, self.d as int, y, self.f as int),
        )
    }

    pub fn identity() -> (r: Matrix3x3)
        ensures
            r == Matrix3x3::spec_identity(),
            r.wf(),
    {
        Matrix3x3 { a: SCALE, b: 0, c: 0, d: SCALE, e: 0, f: 0 }
    }

    /// Builds a matrix from raw fixed-point components, saturating each.
    pub fn from_components(a: i64, b: i64, c: i64, d: i64, e: i64, f: i64) -> (r: Matrix3x3)
        ensures
            r == Matrix3x3::spec_clamped(a as int, b as int, c as int, d as int, e as int, f as int),
            r.wf(),
    {
        Matrix3x3 {
            a: fx_clamp(a),
            b: fx_clamp(b),
            c: fx_clamp(c),
            d: fx_clamp(d),
            e: fx_clamp(e),
            f: fx_clamp(f),
        }
    }

    pub fn multiply(&self, other: &Matrix3x3) -> (r: Matrix3x3)
        requires
            self.wf(),
            other.wf(),
        ensures
            r == self.spec_multiply(*other),
            r.wf(),
    {
        Matrix3x3 {
            a: fx_mac2(self.a, other.a, self.c, other.b, 0),
            b: fx_mac2(self.b, other.a, self.d, other.b, 0),
            c: fx_mac2(self.a, other.c, self.c, other.d, 0),
            d: fx_mac2(self.b, other.c, self.d, other.d, 0),
            e: fx_mac2(self.a, other.e, self.c, other.f, self.e),
            f: fx_mac2(self.b, other.e, self.d, other.f, self.f),
        }
    }

    pub fn apply_to_point(&self, x: i64, y: i64) -> (r: (i64, i64))
        requires
            self.wf(),
            in_range(x as int),
            in_range(y as int),
        ensures
            (r.0 as int, r.1 as int) == self.spec_apply(x as int, y as int),
            in_range(r.0 as int),
            in_range(r.1 as int),
    {
        (fx_mac2(self.a, x, self.c, y, self.e), fx_mac2(self.b, x, self.d, y, self.f))
    }

    /// The image of the origin: just the translation components.
    pub fn apply_to_origin(&self) -> (r: (i64, i64))
        ensures
            r == (self.e, self.f),
    {
        (self.e, self.f)
    }
}

/// Interpreter state: current transformation matrix, text matrix, leading,
/// and the current path point set by the `m` operator.
#[derive(Clone, Copy, Debug)]
pub struct PdfState {
    pub ctm: Matrix3x3,
    pub tm: Matrix3x3,
    pub leading: i64,
    pub m: (i64, i64),
}

impl PdfState {
    pub open spec fn wf(self) -> bool {
        &&& self.ctm.wf()
        &&& self.tm.wf()
        &&& in_range(self.leading as int)
        &&& in_range(self.m.0 as int)
        &&& in_range(self.m.1 as int)
    }

    pub open spec fn spec_initial() -> PdfState {
        PdfState {
            ctm: Matrix3x3::spec_identity(),
            tm: Matrix3x3::spec_identity(),
            leading: 0,
            m: (0, 0),
        }
    }

    /// The translation applied to the text matrix by `Td`.
    pub open spec fn spec_td(self, tx: int, ty: int) -> PdfState {
        PdfState {
            tm: self.tm.spec_multiply(
                Matrix3x3::spec_clamped(SCALE as int, 0, 0, SCALE as int, tx, ty),
            ),
            ..self
        }
    }

    pub fn new() -> (r: PdfState)
        ensures
            r == PdfState::spec_initial(),
            r.wf(),
    {
        PdfState {
            ctm: Matrix3x3::identity(),
            tm: Matrix3x3::identity(),
            leading: 0,
            m: (0, 0),
        }
    }

    /// `BT`: reset the text matrix for a new text object.
    pub fn bt(&mut self)
        ensures
            *final(self) == (PdfState { tm: Matrix3x3::spec_identity(), ..*old(self) }),
    {
        self.tm = Matrix3x3::identity();
    }

    /// `ET`: end of a text object; leaves the state unchanged.
    pub fn et(&mut self)
        ensures
            *final(self) == *old(self),
    {
    }

    /// `TL`: set the leading.
    pub fn tl(&mut self, leading: i64)
        ensures
            *final(self) == (PdfState { leading: spec_clamp(leading as int) as i64, ..*old(self) }),
    {
        self.leading = fx_clamp(leading);
    }

    /// `Td`: translate the text matrix.
    pub fn td(&mut self, tx: i64, ty: i64)
        requires
            old(self).wf(),
        ensures
            *final(self) == old(self).spec_td(tx as int, ty as int),
            final(self).wf(),
    {
        let translation = Matrix3x3::from_components(SCALE, 0, 0, SCALE, tx, ty);
        self.tm = self.tm.multiply(&translation);
    }

    /// `TD`: like `Td`, and sets the leading to the negated vertical step.
    pub fn td_capital(&mut self, tx: i64, ty: i64)
        requires
            old(self).wf(),
        ensures
            *final(self) == (PdfState {
                leading: -spec_clamp(ty as int) as i64,
                ..old(self).spec_td(tx as int, ty as int)
            }),
            final(self).wf(),
    {
        self.leading = -fx_clamp(ty);
        self.td(tx, ty);
    }

    /// `Tm`: replace the text matrix.
    pub fn tm(&mut self, a: i64, b: i64, c: i64, d: i64, e: i64, f: i64)
        ensures
            *final(self) == (PdfState {
                tm: Matrix3x3::spec_clamped(a as int, b as int, c as int, d as int, e as int, f as int),
                ..*old(self)
            }),
    {
        let m = Matrix3x3::from_components(a, b, c, d, e, f);
        self.tm = m;
    }

    /// `T*`: advance to the next line using the current leading.
    pub fn t_star(&mut self)
        requires
            old(self).wf(),
        ensures
            *final(self) == old(self).spec_td(0, -old(self).leading as int),
            final(self).wf(),
    {
        let neg_leading = -self.leading;
        self.td(0, neg_leading);
    }

    /// `cm`: replace the current transformation matrix.
    pub fn cm(&mut self, a: i64, b: i64, c: i64, d: i64, e: i64, f: i64)
        ensures
            *final(self) == (PdfState {
                ctm: Matrix3x3::spec_clamped(a as int, b as int, c as int, d as int, e as int, f as int),
                ..*old(self)
            }),
    {
        self.ctm = Matrix3x3::from_components(a, b, c, d, e, f);
    }

    /// `m`: record the current path point.
    pub fn m(&mut self, tx: i64, ty: i64)
        ensures
            *final(self) == (PdfState {
                m: (spec_clamp(tx as int) as i64, spec_clamp(ty as int) as i64),
                ..*old(self)
            }),
    {
        self.m = (fx_clamp(tx), fx_clamp(ty));
    }

    /// Where text shown now would land: the origin under `CTM × TM`.
    pub open spec fn spec_current_position(self) -> (int, int) {
        let combined = self.ctm.spec_multiply(self.tm);
        (combined.e as int, combined.f as int)
    }

    pub fn current_position(&self) -> (r: (i64, i64))
        requires
            self.wf(),
        ensures
            (r.0 as int, r.1 as int) == self.spec_current_position(),
            in_range(r.0 as int),
            in_range(r.1 as int),
    {
        let combined = self.ctm.multiply(&self.tm);
        combined.apply_to_origin()
    }

    /// `l`: the segment from the current path point to `to`, both mapped
    /// through the current transformation matrix.
    pub open spec fn spec_l(self, to: (int, int)) -> ((int, int), (int, int)) {
        (
            self.ctm.spec_apply(self.m.0 as int, self.m.1 as int),
            self.ctm.spec_apply(spec_clamp(to.0), spec_clamp(to.1)),
        )
    }

    pub fn l(&self, to: (i64, i64)) -> (r: ((i64, i64), (i64, i64)))
        requires
            self.wf(),
        ensures
            ((r.0.0 as int, r.0.1 as int), (r.1.0 as int, r.1.1 as int))
                == self.spec_l((to.0 as int, to.1 as int)),
            in_range(r.0.0 as int) && in_range(r.0.1 as int),
            in_range(r.1.0 as int) && in_range(r.1.1 as int),
    {
        let from = self.ctm.apply_to_point(self.m.0, self.m.1);
        let to = self.ctm.apply_to_point(fx_clamp(to.0), fx_clamp(to.1));
        (from, to)
    }

    /// `re` edge helper: both endpoints mapped through the current
    /// transformation matrix.
    pub open spec fn spec_re(self, from: (int, int), to: (int, int)) -> ((int, int), (int, int)) {
        (
            self.ctm.spec_apply(spec_clamp(from.0), spec_clamp(from.1)),
            self.ctm.spec_apply(spec_clamp(to.0), spec_clamp(to.1)),
        )
    }

    pub fn re(&self, from: (i64, i64), to: (i64, i64)) -> (r: ((i64, i64), (i64, i64)))
        requires
            self.wf(),
        ensures
            ((r.0.0 as int, r.0.1 as int), (r.1.0 as int, r.1.1 as int))
                == self.spec_re((from.0 as int, from.1 as int), (to.0 as int, to.1 as int)),
            in_range(r.0.0 as int) && in_range(r.0.1 as int),
            in_range(r.1.0 as int) && in_range(r.1.1 as int),
    {
        let from = self.ctm.apply_to_point(fx_clamp(from.0), fx_clamp(from.1));
        let to = self.ctm.apply_to_point(fx_clamp(to.0), fx_clamp(to.1));
        (from, to)
    }
}

} // verus!
