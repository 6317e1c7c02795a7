//! Stability and privacy maps.
//!
//! A [`DistanceMap`] is the proof object carried by a transformation or
//! a measurement: a monotone, pure function from an input distance
//! bound to an output distance or privacy-loss bound. The maps of this
//! library are built from two primitives — scaling by a nonnegative
//! factor and division by a positive noise scale — and closed under
//! point-wise composition, which is exactly what the chain operators
//! produce. Evaluation rounds up and saturates to [`Bound::Infinite`],
//! so a published bound is never tighter than the exact one.

use vstd::prelude::*;

use crate::fixed::{ceil_scale, Fix, SCALE};

verus! {

/// A monotone map from an input distance bound to an output bound.
#[derive(PartialEq, Eq, Debug)]
pub enum DistanceMap {
    /// `b` maps to `factor * b`, rounded up.
    Scale {
        /// The nonnegative scaling factor.
        factor: Fix,
    },
    /// `b` maps to `b / scale`, rounded up.
    DivideBy {
        /// The positive divisor.
        scale: Fix,
    },
    /// The point-wise composition `b` maps to `outer(inner(b))`.
    Compose {
        /// The map applied second.
        outer: Box<DistanceMap>,
        /// The map applied first.
        inner: Box<DistanceMap>,
    },
}

/// An output distance bound: finite, or saturated to infinity.
#[derive(Clone, Copy, PartialEq, Eq, Debug)]
pub enum Bound {
    /// A finite bound.
    Finite(Fix),
    /// No finite sound bound could be computed.
    Infinite,
}

/// Whether a map's parameters are legal: nonnegative factors, positive
/// divisors.
pub open spec fn map_wf(m: DistanceMap) -> bool
    decreases m,
{
    match m {
        DistanceMap::Scale { factor } => factor@ >= 0,
        DistanceMap::DivideBy { scale } => scale@ > 0,
        DistanceMap::Compose { outer, inner } => map_wf(*outer) && map_wf(*inner),
    }
}

/// The evaluation of a map on a nonnegative bound, in units: `None`
/// stands for a bound that exceeds every representable value.
pub open spec fn eval_units(m: DistanceMap, b: int) -> Option<int>
    decreases m,
{
    match m {
        DistanceMap::Scale { factor } => clip(ceil_scale(factor@ * b)),
        DistanceMap::DivideBy { scale } => clip(ceil_div(b * (SCALE as int), scale@)),
        DistanceMap::Compose { outer, inner } => match eval_units(*inner, b) {
            Some(x) => eval_units(*outer, x),
            None => None,
        },
    }
}

/// Ceiling division of a nonnegative dividend by a positive divisor.
pub open spec fn ceil_div(p: int, d: int) -> int
    recommends
        p >= 0,
        d > 0,
{
    (p + d - 1) / d
}

/// Saturation: a bound above the representable range becomes `None`.
pub open spec fn clip(v: int) -> Option<int> {
    if v <= i64::MAX {
        Some(v)
    } else {
        None
    }
}

/// The order on saturated bounds: `None` is the top element.
pub open spec fn opt_le(a: Option<int>, b: Option<int>) -> bool {
    match b {
        None => true,
        Some(y) => match a {
            Some(x) => x <= y,
            None => false,
        },
    }
}

/// The point-wise composition of two map evaluations: `inner` first,
/// then `outer`, with saturation carried through.
pub open spec fn compose_eval(outer: DistanceMap, inner: DistanceMap, b: int) -> Option<int> {
    match eval_units(inner, b) {
        Some(c) => eval_units(outer, c),
        None => None,
    }
}

/// Whether a distance `d` is within a saturated bound.
pub open spec fn within(d: int, b: Option<int>) -> bool {
    match b {
        Some(v) => d <= v,
        None => true,
    }
}

impl View for Bound {
    type V = Option<int>;

    open spec fn view(&self) -> Option<int> {
        match *self {
            Bound::Finite(f) => Some(f@),
            Bound::Infinite => None,
        }
    }
}

impl DistanceMap {
    /// Whether the map's parameters are legal.
    pub open spec fn wf(&self) -> bool {
        map_wf(*self)
    }

    /// Evaluates the map on a nonnegative input distance bound.
    pub fn eval(&self, b: Fix) -> (r: Bound)
        requires
            self.wf(),
            b@ >= 0,
        ensures
            r@ == eval_units(*self, b@),
            match r {
                Bound::Finite(f) => f@ >= 0,
                Bound::Infinite => true,
            },
        decreases *self,
    {
        match self {
            DistanceMap::Scale { factor } => {
                match crate::fixed::mul_up(*factor, b) {
                    Some(f) => Bound::Finite(f),
                    None => Bound::Infinite,
                }
            },
            DistanceMap::DivideBy { scale } => {
                proof {
                    assert((b.units as int) * (SCALE as int) >= 0 && (b.units as int) * (
                    SCALE as int) <= (i64::MAX as int) * (SCALE as int)) by (nonlinear_arith)
                        requires
                            0 <= b.units as int <= i64::MAX as int,
                    ;
                    vstd::arithmetic::div_mod::lemma_div_pos_is_pos(
                        (b.units as int) * (SCALE as int) + (scale.units as int) - 1,
                        scale.units as int,
                    );
                }
                let p: u128 = (b.units as u128) * (SCALE as u128);
                let q: u128 = (p + (scale.units as u128) - 1) / (scale.units as u128);
                if q > i64::MAX as u128 {
                    Bound::Infinite
                } else {
                    Bound::Finite(Fix { units: q as i64 })
                }
            },
            DistanceMap::Compose { outer, inner } => {
                match inner.eval(b) {
                    Bound::Finite(x) => outer.eval(x),
                    Bound::Infinite => Bound::Infinite,
                }
            },
        }
    }
}

/// Monotonicity of every map of the library: a larger input distance
/// bound never yields a smaller output bound, with saturation as the
/// top element. Evaluation also preserves nonnegativity.
pub proof fn lemma_map_monotone(m: DistanceMap, b1: int, b2: int)
    requires
        map_wf(m),
        0 <= b1 <= b2,
    ensures
        opt_le(eval_units(m, b1), eval_units(m, b2)),
        match eval_units(m, b1) {
            Some(v) => v >= 0,
            None => true,
        },
    decreases m,
{
    match m {
        DistanceMap::Scale { factor } => {
            assert(factor@ * b1 <= factor@ * b2 && factor@ * b1 >= 0) by (nonlinear_arith)
                requires
                    factor@ >= 0,
                    0 <= b1 <= b2,
            ;
            crate::fixed::lemma_ceil_monotone(factor@ * b1, factor@ * b2);
        },
        DistanceMap::DivideBy { scale } => {
            assert(b1 * (SCALE as int) <= b2 * (SCALE as int) && b1 * (SCALE as int) >= 0)
                by (nonlinear_arith)
                requires
                    0 <= b1 <= b2,
            ;
            vstd::arithmetic::div_mod::lemma_div_is_ordered(
                b1 * (SCALE as int) + scale@ - 1,
                b2 * (SCALE as int) + scale@ - 1,
                scale@,
            );
            vstd::arithmetic::div_mod::lemma_div_pos_is_pos(
                b1 * (SCALE as int) + scale@ - 1,
                scale@,
            );
        },
        DistanceMap::Compose { outer, inner } => {
            lemma_map_monotone(*inner, b1, b2);
            match eval_units(*inner, b1) {
                Some(x1) => {
                    match eval_units(*inner, b2) {
                        Some(x2) => {
                            lemma_map_monotone(*outer, x1, x2);
                        },
                        None => {
                            lemma_map_monotone(*outer, x1, x1);
                        },
                    }
                },
                None => {},
            }
        },
    }
}


/// Rounding never under-reports: a finite bound that a scaling map
/// publishes is at least the exact product of factor and input bound.
pub proof fn lemma_scale_map_sound(factor: Fix, b: int)
    requires
        factor@ >= 0,
        b >= 0,
    ensures
        match eval_units(DistanceMap::Scale { factor }, b) {
            Some(v) => v * (SCALE as int) >= factor@ * b,
            None => true,
        },
{
    assert(factor@ * b >= 0) by (nonlinear_arith)
        requires
            factor@ >= 0,
            b >= 0,
    ;
    crate::fixed::lemma_ceil_sound(factor@ * b);
}


/// The composition of two scaling maps never under-reports either: a
/// finite bound it publishes is at least the exact product of both
/// factors and the input bound, despite the two roundings.
pub proof fn lemma_compose_scale_sound(outer: Fix, inner: Fix, b: int)
    requires
        outer@ >= 0,
        inner@ >= 0,
        b >= 0,
    ensures
        match compose_eval(
            DistanceMap::Scale { factor: outer },
            DistanceMap::Scale { factor: inner },
            b,
        ) {
            Some(v) => v * (SCALE as int) * (SCALE as int) >= outer@ * inner@ * b,
            None => true,
        },
{
    let s = SCALE as int;
    match eval_units(DistanceMap::Scale { factor: inner }, b) {
        Some(v1) => {
            assert(inner@ * b >= 0) by (nonlinear_arith)
                requires
                    inner@ >= 0,
                    b >= 0,
            ;
            crate::fixed::lemma_ceil_sound(inner@ * b);
            crate::fixed::lemma_ceil_monotone(0, inner@ * b);
            assert(v1 * s >= inner@ * b && v1 >= 0);
            match eval_units(DistanceMap::Scale { factor: outer }, v1) {
                Some(v) => {
                    assert(outer@ * v1 >= 0) by (nonlinear_arith)
                        requires
                            outer@ >= 0,
                            v1 >= 0,
                    ;
                    crate::fixed::lemma_ceil_sound(outer@ * v1);
                    assert(v * s >= outer@ * v1);
                    assert(v * s * s >= outer@ * inner@ * b) by (nonlinear_arith)
                        requires
                            v * s >= outer@ * v1,
                            v1 * s >= inner@ * b,
                            outer@ >= 0,
                            s > 0,
                    ;
                },
                None => {},
            }
        },
        None => {},
    }
}

/// Soundness of composition: if `m1` soundly bounds how `f1` moves
/// distances from `dx` to `dy`, and `m2` soundly bounds how `f2` moves
/// distances from `dy` to `dz`, then their point-wise composition
/// soundly bounds the composed function — for any two maps satisfying
/// the point-wise bound invariant, which is why this holds of every
/// chain the library constructs.
pub proof fn lemma_chain_map_soundness<X, Y, Z>(
    f1: spec_fn(X) -> Y,
    f2: spec_fn(Y) -> Z,
    dx: spec_fn(X, X) -> int,
    dy: spec_fn(Y, Y) -> int,
    dz: spec_fn(Z, Z) -> int,
    m1: DistanceMap,
    m2: DistanceMap,
)
    requires
        forall|y1: Y, y2: Y| #[trigger] dy(y1, y2) >= 0,
        forall|x1: X, x2: X, b: int|
            0 <= b && #[trigger] dx(x1, x2) <= b ==> within(
                dy(f1(x1), f1(x2)),
                #[trigger] eval_units(m1, b),
            ),
        forall|y1: Y, y2: Y, c: int|
            0 <= c && #[trigger] dy(y1, y2) <= c ==> within(
                dz(f2(y1), f2(y2)),
                #[trigger] eval_units(m2, c),
            ),
    ensures
        forall|x1: X, x2: X, b: int|
            0 <= b && #[trigger] dx(x1, x2) <= b ==> within(
                dz(f2(f1(x1)), f2(f1(x2))),
                #[trigger] compose_eval(m2, m1, b),
            ),
{
    assert forall|x1: X, x2: X, b: int| 0 <= b && #[trigger] dx(x1, x2) <= b implies within(
        dz(f2(f1(x1)), f2(f1(x2))),
        #[trigger] compose_eval(m2, m1, b),
    ) by {
        assert(within(dy(f1(x1), f1(x2)), eval_units(m1, b)));
        match eval_units(m1, b) {
            Some(c) => {
                assert(dy(f1(x1), f1(x2)) <= c);
                assert(c >= 0);
                assert(within(dz(f2(f1(x1)), f2(f1(x2))), eval_units(m2, c)));
            },
            None => {},
        }
    }
}

} // verus!
