//! Measurements: privacy-bounded randomized mappings.
//!
//! A [`Measurement`] pairs a randomized function — a deterministic
//! pipeline followed by the addition of Laplace-distributed noise —
//! with a privacy map bounding the privacy loss by the input distance.
//! The noise itself is drawn outside the library and handed to
//! [`Measurement::invoke_with_noise`]; every contract here holds for
//! every value the noise may take.

use vstd::prelude::*;

use crate::domains::{
    check_member, domain_wf, member, metric_space_valid, AtomDomain, DataView, Domain, Measure,
    Metric, Value, VectorDomain,
};
use crate::error::{Error, ErrorKind};
use crate::fixed::{fits_i64, Fix, SCALE};
use crate::maps::{ceil_div, compose_eval, eval_units, DistanceMap};
use crate::transformations::{
    domain_after, lemma_domain_after_concat, run_steps, steps_apply, Step, Transformation,
};

verus! {

/// The domain of the values a pipeline's output reaches once unbounded
/// noise is added: the same shape, without bounds.
pub open spec fn strip_bounds(d: Domain) -> Domain {
    match d {
        Domain::Atom(_) => Domain::Atom(AtomDomain { bounds: None }),
        Domain::Vector(vd) => Domain::Vector(
            VectorDomain { element_domain: AtomDomain { bounds: None }, size: vd.size },
        ),
    }
}

/// The pointwise sum of a value and a noise value of the same shape.
pub open spec fn noisy(v: DataView, w: DataView) -> DataView {
    match v {
        DataView::Scalar(x) => match w {
            DataView::Scalar(y) => DataView::Scalar(x + y),
            _ => v,
        },
        DataView::Vector(s) => match w {
            DataView::Vector(t) => DataView::Vector(Seq::new(s.len(), |i: int| s[i] + t[i])),
            _ => v,
        },
    }
}

/// Whether a value and a noise value have the same shape.
pub open spec fn same_shape(v: DataView, w: DataView) -> bool {
    match v {
        DataView::Scalar(_) => w is Scalar,
        DataView::Vector(s) => match w {
            DataView::Vector(t) => s.len() == t.len(),
            _ => false,
        },
    }
}

/// Whether every pointwise sum of a value and a noise value fits the
/// representable range.
pub open spec fn sums_fit(v: DataView, w: DataView) -> bool {
    match v {
        DataView::Scalar(x) => match w {
            DataView::Scalar(y) => fits_i64(x + y),
            _ => true,
        },
        DataView::Vector(s) => match w {
            DataView::Vector(t) => forall|i: int|
                0 <= i < s.len() ==> fits_i64(#[trigger] s[i] + t[i]),
            _ => true,
        },
    }
}

/// A randomized, privacy-bounded data-to-distribution mapping.
#[derive(PartialEq, Eq, Debug)]
pub struct Measurement {
    /// The set of legal inputs.
    pub input_domain: Domain,
    /// The distance notion over inputs.
    pub input_metric: Metric,
    /// The set into which every output falls.
    pub output_domain: Domain,
    /// The distance notion over output distributions.
    pub output_measure: Measure,
    /// The deterministic pipeline applied before the noise.
    pub steps: Vec<Step>,
    /// The positive scale of the Laplace noise added at the end.
    pub noise_scale: Fix,
    /// The privacy map bounding privacy loss by input distance.
    pub privacy_map: DistanceMap,
}

impl Measurement {
    /// Well-formedness: a valid input pairing, legal map parameters, a
    /// positive noise scale, and a pipeline that carries the input
    /// domain onto the output domain up to the bounds the noise erases.
    pub open spec fn wf(&self) -> bool {
        &&& domain_wf(self.input_domain)
        &&& metric_space_valid(self.input_domain, self.input_metric)
        &&& self.privacy_map.wf()
        &&& self.noise_scale@ > 0
        &&& match domain_after(self.steps@, self.input_domain) {
            Some(pre) => self.output_domain == strip_bounds(pre),
            None => false,
        }
    }

    /// Runs the deterministic pipeline and adds the supplied noise,
    /// which the caller draws from the Laplace distribution with scale
    /// `noise_scale`. The contract holds for every noise value.
    pub fn invoke_with_noise(&self, arg: &Value, noise: &Value) -> (r: Result<Value, Error>)
        requires
            self.wf(),
        ensures
            match r {
                Ok(out) => {
                    &&& member(self.input_domain, arg@)
                    &&& same_shape(steps_apply(self.steps@, arg@), noise@)
                    &&& sums_fit(steps_apply(self.steps@, arg@), noise@)
                    &&& out@ == noisy(steps_apply(self.steps@, arg@), noise@)
                    &&& member(self.output_domain, out@)
                },
                Err(e) => if !member(self.input_domain, arg@) {
                    e.kind == ErrorKind::InvalidData
                } else if !same_shape(steps_apply(self.steps@, arg@), noise@) {
                    e.kind == ErrorKind::InvalidData
                } else {
                    e.kind == ErrorKind::Overflow && !sums_fit(
                        steps_apply(self.steps@, arg@),
                        noise@,
                    )
                },
            },
    {
        if !check_member(&self.input_domain, arg) {
            return Err(
                Error {
                    kind: ErrorKind::InvalidData,
                    message: "argument is not a member of the input domain",
                },
            );
        }
        let ghost pre = domain_after(self.steps@, self.input_domain).unwrap();
        let exact = run_steps(&self.steps, arg, Ghost(self.input_domain), Ghost(pre));
        match exact {
            Value::Scalar(x) => {
                match noise {
                    Value::Scalar(y) => {
                        match crate::fixed::checked_add(x, *y) {
                            Some(z) => Ok(Value::Scalar(z)),
                            None => Err(
                                Error {
                                    kind: ErrorKind::Overflow,
                                    message: "the noisy value does not fit the numeric range",
                                },
                            ),
                        }
                    },
                    Value::Vector(_) => Err(
                        Error {
                            kind: ErrorKind::InvalidData,
                            message: "the noise does not have the shape of the output",
                        },
                    ),
                }
            },
            Value::Vector(xs) => {
                match noise {
                    Value::Vector(ys) => {
                        if xs.len() != ys.len() {
                            return Err(
                                Error {
                                    kind: ErrorKind::InvalidData,
                                    message: "the noise does not have the shape of the output",
                                },
                            );
                        }
                        let ghost sx = xs@.map_values(|f: Fix| f@);
                        let ghost sy = ys@.map_values(|f: Fix| f@);
                        proof {
                            assert(steps_apply(self.steps@, arg@) == DataView::Vector(sx));
                            assert(noise@ == DataView::Vector(sy));
                        }
                        let mut out: Vec<Fix> = Vec::new();
                        let mut i: usize = 0;
                        while i < xs.len()
                            invariant
                                0 <= i <= xs@.len(),
                                xs@.len() == ys@.len(),
                                steps_apply(self.steps@, arg@) == DataView::Vector(sx),
                                noise@ == DataView::Vector(sy),
                                member(self.input_domain, arg@),
                                sx == xs@.map_values(|f: Fix| f@),
                                sy == ys@.map_values(|f: Fix| f@),
                                sx.len() == xs@.len(),
                                sy.len() == ys@.len(),
                                out@.len() == i,
                                forall|j: int|
                                    0 <= j < i ==> fits_i64(#[trigger] sx[j] + sy[j]),
                                forall|j: int|
                                    0 <= j < i ==> (#[trigger] out@[j])@ == sx[j] + sy[j],
                            decreases xs@.len() - i,
                        {
                            proof {
                                assert(sx[i as int] == xs@[i as int]@);
                                assert(sy[i as int] == ys@[i as int]@);
                            }
                            match crate::fixed::checked_add(xs[i], ys[i]) {
                                Some(z) => {
                                    out.push(z);
                                },
                                None => {
                                    proof {
                                        assert(!fits_i64(sx[i as int] + sy[i as int]));
                                        assert(steps_apply(self.steps@, arg@)
                                            == DataView::Vector(sx));
                                        assert(noise@ == DataView::Vector(sy));
                                        assert(!sums_fit(
                                            DataView::Vector(sx),
                                            DataView::Vector(sy),
                                        ));
                                    }
                                    return Err(
                                        Error {
                                            kind: ErrorKind::Overflow,
                                            message: "the noisy value does not fit the numeric range",
                                        },
                                    );
                                },
                            }
                            i = i + 1;
                        }
                        let r = Value::Vector(out);
                        proof {
                            let so = out@.map_values(|f: Fix| f@);
                            assert(forall|j: int|
                                0 <= j < so.len() ==> #[trigger] so[j] == out@[j]@);
                            assert(so =~= Seq::new(sx.len(), |k: int| sx[k] + sy[k]));
                            assert(r@ == noisy(DataView::Vector(sx), DataView::Vector(sy)));
                        }
                        Ok(r)
                    },
                    Value::Scalar(_) => Err(
                        Error {
                            kind: ErrorKind::InvalidData,
                            message: "the noise does not have the shape of the output",
                        },
                    ),
                }
            },
        }
    }

    /// Whether an input distance of at most `d_in` is guaranteed to
    /// cost at most `d_out` privacy loss under the privacy map.
    pub fn check(&self, d_in: Fix, d_out: Fix) -> (r: bool)
        requires
            self.wf(),
            d_in@ >= 0,
        ensures
            r == crate::maps::opt_le(eval_units(self.privacy_map, d_in@), Some(d_out@)),
    {
        match self.privacy_map.eval(d_in) {
            crate::maps::Bound::Finite(v) => v.le(&d_out),
            crate::maps::Bound::Infinite => false,
        }
    }
}

/// What a successful `make_base_laplace` returns, given its argument.
pub open spec fn base_laplace_ok(m: Measurement, scale: Fix) -> bool {
    &&& m.input_domain == (Domain::Atom(AtomDomain { bounds: None }))
    &&& m.input_metric == Metric::AbsoluteDistance
    &&& m.output_domain == (Domain::Atom(AtomDomain { bounds: None }))
    &&& m.output_measure == Measure::MaxDivergence
    &&& m.steps@ == Seq::<Step>::empty()
    &&& m.noise_scale == scale
    &&& m.privacy_map == (DistanceMap::DivideBy { scale })
    &&& m.wf()
}

/// Makes a measurement that adds Laplace noise of the given positive
/// scale to a scalar. Its privacy map divides the input distance by
/// the scale, rounded up.
pub fn make_base_laplace(scale: Fix) -> (r: Result<Measurement, Error>)
    ensures
        match r {
            Ok(m) => scale@ > 0 && base_laplace_ok(m, scale),
            Err(e) => scale@ <= 0 && e.kind == ErrorKind::MakeMeasurement,
        },
{
    let zero = Fix::zero();
    if scale.le(&zero) {
        return Err(
            Error { kind: ErrorKind::MakeMeasurement, message: "noise scale must be positive" },
        );
    }
    let m = Measurement {
        input_domain: Domain::Atom(AtomDomain { bounds: None }),
        input_metric: Metric::AbsoluteDistance,
        output_domain: Domain::Atom(AtomDomain { bounds: None }),
        output_measure: Measure::MaxDivergence,
        steps: Vec::new(),
        noise_scale: scale,
        privacy_map: DistanceMap::DivideBy { scale },
    };
    proof {
        assert(m.steps@ =~= Seq::<Step>::empty());
    }
    Ok(m)
}

/// What a successful `make_base_laplace_vec` returns, given its
/// argument.
pub open spec fn base_laplace_vec_ok(m: Measurement, scale: Fix) -> bool {
    &&& m.input_domain == (Domain::Vector(
        VectorDomain { element_domain: AtomDomain { bounds: None }, size: None },
    ))
    &&& m.input_metric == Metric::L1Distance
    &&& m.output_domain == m.input_domain
    &&& m.output_measure == Measure::MaxDivergence
    &&& m.steps@ == Seq::<Step>::empty()
    &&& m.noise_scale == scale
    &&& m.privacy_map == (DistanceMap::DivideBy { scale })
    &&& m.wf()
}

/// Makes a measurement that adds Laplace noise of the given positive
/// scale to every element of a vector. Its privacy map divides the
/// input distance by the scale, rounded up.
pub fn make_base_laplace_vec(scale: Fix) -> (r: Result<Measurement, Error>)
    ensures
        match r {
            Ok(m) => scale@ > 0 && base_laplace_vec_ok(m, scale),
            Err(e) => scale@ <= 0 && e.kind == ErrorKind::MakeMeasurement,
        },
{
    let zero = Fix::zero();
    if scale.le(&zero) {
        return Err(
            Error { kind: ErrorKind::MakeMeasurement, message: "noise scale must be positive" },
        );
    }
    let m = Measurement {
        input_domain: Domain::Vector(
            VectorDomain { element_domain: AtomDomain { bounds: None }, size: None },
        ),
        input_metric: Metric::L1Distance,
        output_domain: Domain::Vector(
            VectorDomain { element_domain: AtomDomain { bounds: None }, size: None },
        ),
        output_measure: Measure::MaxDivergence,
        steps: Vec::new(),
        noise_scale: scale,
        privacy_map: DistanceMap::DivideBy { scale },
    };
    proof {
        assert(m.steps@ =~= Seq::<Step>::empty());
    }
    Ok(m)
}


/// What a successful `make_base_laplace_on` returns, given its
/// arguments.
pub open spec fn base_laplace_on_ok(m: Measurement, input_domain: AtomDomain, scale: Fix) -> bool {
    &&& m.input_domain == Domain::Atom(input_domain)
    &&& m.input_metric == Metric::AbsoluteDistance
    &&& m.output_domain == (Domain::Atom(AtomDomain { bounds: None }))
    &&& m.output_measure == Measure::MaxDivergence
    &&& m.steps@ == Seq::<Step>::empty()
    &&& m.noise_scale == scale
    &&& m.privacy_map == (DistanceMap::DivideBy { scale })
    &&& m.wf()
}

/// Makes a measurement that adds Laplace noise of the given positive
/// scale to a scalar drawn from the given domain. The unbounded noise
/// erases the bounds, so the output domain is the unbounded scalar
/// domain; the privacy map divides the input distance by the scale,
/// rounded up.
pub fn make_base_laplace_on(input_domain: AtomDomain, scale: Fix) -> (r: Result<
    Measurement,
    Error,
>)
    requires
        crate::domains::atom_domain_wf(input_domain),
    ensures
        match r {
            Ok(m) => scale@ > 0 && base_laplace_on_ok(m, input_domain, scale),
            Err(e) => scale@ <= 0 && e.kind == ErrorKind::MakeMeasurement,
        },
{
    let zero = Fix::zero();
    if scale.le(&zero) {
        return Err(
            Error { kind: ErrorKind::MakeMeasurement, message: "noise scale must be positive" },
        );
    }
    let m = Measurement {
        input_domain: Domain::Atom(input_domain),
        input_metric: Metric::AbsoluteDistance,
        output_domain: Domain::Atom(AtomDomain { bounds: None }),
        output_measure: Measure::MaxDivergence,
        steps: Vec::new(),
        noise_scale: scale,
        privacy_map: DistanceMap::DivideBy { scale },
    };
    proof {
        assert(m.steps@ =~= Seq::<Step>::empty());
    }
    Ok(m)
}

/// Chains a transformation into a measurement: the result applies the
/// transformation first, then the measurement, and its privacy map is
/// the point-wise composition of the two maps. The boundary must match
/// exactly.
pub fn make_chain_mt(m: Measurement, t: Transformation) -> (r: Result<Measurement, Error>)
    requires
        m.wf(),
        t.wf(),
    ensures
        match r {
            Ok(c) => {
                &&& t.output_domain == m.input_domain
                &&& t.output_metric == m.input_metric
                &&& c.wf()
                &&& c.input_domain == t.input_domain
                &&& c.input_metric == t.input_metric
                &&& c.output_domain == m.output_domain
                &&& c.output_measure == m.output_measure
                &&& c.steps@ == t.steps@ + m.steps@
                &&& c.noise_scale == m.noise_scale
                &&& c.privacy_map matches DistanceMap::Compose { outer, inner }
                    && *outer == m.privacy_map && *inner == t.stability_map
                &&& forall|b: int| #[trigger]
                    eval_units(c.privacy_map, b) == compose_eval(
                        m.privacy_map,
                        t.stability_map,
                        b,
                    )
            },
            Err(e) => (t.output_domain != m.input_domain || t.output_metric != m.input_metric)
                && e.kind == ErrorKind::MetricSpace,
        },
{
    if !crate::domains::domain_eq(&t.output_domain, &m.input_domain) {
        return Err(
            Error {
                kind: ErrorKind::MetricSpace,
                message: "chained domains do not match: the output domain of the transformation must equal the input domain of the measurement",
            },
        );
    }
    if t.output_metric != m.input_metric {
        return Err(
            Error {
                kind: ErrorKind::MetricSpace,
                message: "chained metrics do not match: the output metric of the transformation must equal the input metric of the measurement",
            },
        );
    }
    let Measurement {
        input_domain: mdi,
        input_metric: mmi,
        output_domain: mdo,
        output_measure: mmo,
        steps: msteps,
        noise_scale,
        privacy_map,
    } = m;
    let Transformation {
        input_domain: tdi,
        input_metric: tmi,
        output_domain: tdo,
        output_metric: tmo,
        steps: tsteps,
        stability_map,
    } = t;
    let mut steps = tsteps;
    let mut tail = msteps;
    steps.append(&mut tail);
    let c = Measurement {
        input_domain: tdi,
        input_metric: tmi,
        output_domain: mdo,
        output_measure: mmo,
        steps,
        noise_scale,
        privacy_map: DistanceMap::Compose {
            outer: Box::new(privacy_map),
            inner: Box::new(stability_map),
        },
    };
    proof {
        lemma_domain_after_concat(t.steps@, m.steps@, t.input_domain);
        assert forall|b: int| #[trigger]
            eval_units(c.privacy_map, b) == compose_eval(
                m.privacy_map,
                t.stability_map,
                b,
            ) by {}
    }
    Ok(c)
}

/// The Laplace privacy map: for a positive scale, the evaluated bound
/// is the least representable value at least `b / scale`, and exactly
/// `b / scale` whenever that quotient is representable; for a
/// non-positive scale, construction fails instead.
pub proof fn lemma_laplace_privacy_map(scale: Fix, b: int)
    requires
        scale@ > 0,
        0 <= b,
    ensures
        match eval_units(DistanceMap::DivideBy { scale }, b) {
            Some(v) => v * scale@ >= b * (SCALE as int) && ((b * (SCALE as int)) % scale@ == 0
                ==> v * scale@ == b * (SCALE as int)),
            None => ceil_div(b * (SCALE as int), scale@) > i64::MAX,
        },
{
    let s = scale@;
    let p = b * (SCALE as int);
    assert(b * (SCALE as int) >= 0) by (nonlinear_arith)
        requires
            b >= 0,
            SCALE as int == 1_000_000_000,
    ;
    vstd::arithmetic::div_mod::lemma_fundamental_div_mod(p + s - 1, s);
    let q = (p + s - 1) / s;
    let rr = (p + s - 1) % s;
    assert(q * s >= p) by (nonlinear_arith)
        requires
            p + s - 1 == s * q + rr,
            0 <= rr < s,
    ;
    if p % s == 0 {
        vstd::arithmetic::div_mod::lemma_fundamental_div_mod(p, s);
        let k = p / s;
        assert(p == s * k);
        vstd::arithmetic::div_mod::lemma_fundamental_div_mod_converse(p + s - 1, s, k, s - 1);
        assert(q == k);
        assert(q * s == p) by (nonlinear_arith)
            requires
                p == s * k,
                q == k,
        ;
    }
}

} // verus!
