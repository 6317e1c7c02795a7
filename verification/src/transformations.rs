//! Transformations: sensitivity-bounded data-to-data mappings.
//!
//! A [`Transformation`] pairs a total function over the data of its
//! input domain with a stability map bounding how far the output can
//! move when the input moves. The data function is a pipeline of
//! [`Step`]s, interpreted by [`Transformation::invoke`]; construction
//! validates every precondition, and the chain operator composes two
//! transformations after re-validating the boundary.

use vstd::prelude::*;

use crate::domains::{
    atom_domain_wf, check_member, clone_value, domain_eq, domain_wf, member, metric_space_valid, AtomDomain,
    DataView, Domain, Metric, Value, VectorDomain,
};
use crate::error::{Error, ErrorKind};
use crate::fixed::{fits_i64, fits_sym, recip_up_units, trunc_scale, Fix, SCALE};
use crate::maps::{compose_eval, eval_units, DistanceMap};

verus! {

/// One step of a data pipeline.
#[derive(Clone, Copy, PartialEq, Eq, Debug)]
pub enum Step {
    /// Sum the elements of a vector into a scalar.
    Sum,
    /// Multiply a scalar by a nonnegative constant, truncating.
    MulConst {
        /// The nonnegative constant.
        c: Fix,
    },
}

/// The domain a step produces from a given input domain, or `None`
/// where the step does not apply or its output bounds are not
/// representable.
pub open spec fn step_domain(s: Step, d: Domain) -> Option<Domain> {
    match s {
        Step::Sum => match d {
            Domain::Vector(vd) => match vd.element_domain.bounds {
                Some((l, u)) => match vd.size {
                    Some(n) => if fits_sym((n as int) * l@) && fits_sym((n as int) * u@) {
                    Some(
                        Domain::Atom(
                            AtomDomain {
                                bounds: Some(
                                    (
                                        Fix { units: ((n as int) * l@) as i64 },
                                        Fix { units: ((n as int) * u@) as i64 },
                                    ),
                                ),
                            },
                        ),
                    )
                    } else {
                        None
                    },
                    None => None,
                },
                None => None,
            },
            _ => None,
        },
        Step::MulConst { c } => match d {
            Domain::Atom(a) => match a.bounds {
                Some((l, u)) => if c@ >= 0 && fits_sym(trunc_scale(c@ * l@)) && fits_sym(
                    trunc_scale(c@ * u@),
                ) {
                    Some(
                        Domain::Atom(
                            AtomDomain {
                                bounds: Some(
                                    (
                                        Fix { units: trunc_scale(c@ * l@) as i64 },
                                        Fix { units: trunc_scale(c@ * u@) as i64 },
                                    ),
                                ),
                            },
                        ),
                    )
                } else {
                    None
                },
                None => None,
            },
            _ => None,
        },
    }
}

/// The domain a pipeline produces from a given input domain.
pub open spec fn domain_after(steps: Seq<Step>, d: Domain) -> Option<Domain>
    decreases steps.len(),
{
    if steps.len() == 0 {
        Some(d)
    } else {
        match step_domain(steps[0], d) {
            Some(d2) => domain_after(steps.drop_first(), d2),
            None => None,
        }
    }
}

/// The sum of a sequence of unit counts.
pub open spec fn sum_units(s: Seq<int>) -> int
    decreases s.len(),
{
    if s.len() == 0 {
        0
    } else {
        sum_units(s.drop_last()) + s.last()
    }
}

/// The mathematical result of one step.
pub open spec fn step_apply(s: Step, v: DataView) -> DataView {
    match s {
        Step::Sum => match v {
            DataView::Vector(xs) => DataView::Scalar(sum_units(xs)),
            _ => v,
        },
        Step::MulConst { c } => match v {
            DataView::Scalar(x) => DataView::Scalar(trunc_scale(c@ * x)),
            _ => v,
        },
    }
}

/// The mathematical result of a pipeline.
pub open spec fn steps_apply(steps: Seq<Step>, v: DataView) -> DataView
    decreases steps.len(),
{
    if steps.len() == 0 {
        v
    } else {
        steps_apply(steps.drop_first(), step_apply(steps[0], v))
    }
}

/// Domain tracking distributes over pipeline concatenation.
pub proof fn lemma_domain_after_concat(s1: Seq<Step>, s2: Seq<Step>, d: Domain)
    ensures
        domain_after(s1 + s2, d) == (match domain_after(s1, d) {
            Some(d1) => domain_after(s2, d1),
            None => None,
        }),
    decreases s1.len(),
{
    if s1.len() == 0 {
        assert(s1 + s2 =~= s2);
    } else {
        assert((s1 + s2)[0] == s1[0]);
        match step_domain(s1[0], d) {
            Some(d2) => {
                assert((s1 + s2).drop_first() =~= s1.drop_first() + s2);
                lemma_domain_after_concat(s1.drop_first(), s2, d2);
            },
            None => {},
        }
    }
}

/// The sum of a sequence of bounded unit counts is bounded by the
/// count times each bound.
pub proof fn lemma_sum_bounds(s: Seq<int>, l: int, u: int)
    requires
        forall|i: int| 0 <= i < s.len() ==> l <= #[trigger] s[i] <= u,
    ensures
        (s.len() as int) * l <= sum_units(s) <= (s.len() as int) * u,
    decreases s.len(),
{
    if s.len() == 0 {
    } else {
        lemma_sum_bounds(s.drop_last(), l, u);
        assert(((s.len() - 1) as int) * l + l == (s.len() as int) * l) by (nonlinear_arith);
        assert(((s.len() - 1) as int) * u + u == (s.len() as int) * u) by (nonlinear_arith);
    }
}

/// A deterministic, sensitivity-bounded data-to-data mapping.
#[derive(PartialEq, Eq, Debug)]
pub struct Transformation {
    /// The set of legal inputs.
    pub input_domain: Domain,
    /// The distance notion over inputs.
    pub input_metric: Metric,
    /// The set into which every output falls.
    pub output_domain: Domain,
    /// The distance notion over outputs.
    pub output_metric: Metric,
    /// The data function, as an interpreted pipeline.
    pub steps: Vec<Step>,
    /// The stability map bounding output distance by input distance.
    pub stability_map: DistanceMap,
}

impl Transformation {
    /// Well-formedness: valid metric pairings on both sides, legal map
    /// parameters, and a pipeline that carries the input domain exactly
    /// onto the output domain.
    pub open spec fn wf(&self) -> bool {
        &&& domain_wf(self.input_domain)
        &&& metric_space_valid(self.input_domain, self.input_metric)
        &&& metric_space_valid(self.output_domain, self.output_metric)
        &&& self.stability_map.wf()
        &&& domain_after(self.steps@, self.input_domain) == Some(self.output_domain)
    }

    /// Runs the data function. Succeeds on exactly the members of the
    /// input domain, and every output is a member of the output domain.
    pub fn invoke(&self, arg: &Value) -> (r: Result<Value, Error>)
        requires
            self.wf(),
        ensures
            match r {
                Ok(out) => member(self.input_domain, arg@) && out@ == steps_apply(
                    self.steps@,
                    arg@,
                ) && member(self.output_domain, out@),
                Err(e) => !member(self.input_domain, arg@) && e.kind == ErrorKind::InvalidData,
            },
    {
        if !check_member(&self.input_domain, arg) {
            return Err(
                Error {
                    kind: ErrorKind::InvalidData,
                    message: "argument is not a member of the input domain",
                },
            );
        }
        Ok(run_steps(&self.steps, arg, Ghost(self.input_domain), Ghost(self.output_domain)))
    }

    /// Whether an input distance of at most `d_in` is guaranteed to
    /// yield an output distance of at most `d_out` under the stability
    /// map.
    pub fn check(&self, d_in: Fix, d_out: Fix) -> (r: bool)
        requires
            self.wf(),
            d_in@ >= 0,
        ensures
            r == crate::maps::opt_le(
                crate::maps::eval_units(self.stability_map, d_in@),
                Some(d_out@),
            ),
    {
        match self.stability_map.eval(d_in) {
            crate::maps::Bound::Finite(v) => v.le(&d_out),
            crate::maps::Bound::Infinite => false,
        }
    }
}

/// Interprets a pipeline on a member of its input domain. Every step
/// of a well-formed pipeline is total on the members of its domain, so
/// no arithmetic here can overflow.
pub(crate) fn run_steps(
    steps: &Vec<Step>,
    arg: &Value,
    Ghost(d0): Ghost<Domain>,
    Ghost(dout): Ghost<Domain>,
) -> (r: Value)
    requires
        domain_after(steps@, d0) == Some(dout),
        member(d0, arg@),
        domain_wf(d0),
    ensures
        r@ == steps_apply(steps@, arg@),
        member(dout, r@),
{
    let mut cur: Value = clone_value(arg);
    let ghost mut dom: Domain = d0;
    proof {
        assert(steps@.subrange(0, steps@.len() as int) =~= steps@);
    }
    let mut i: usize = 0;
    while i < steps.len()
        invariant
            0 <= i <= steps@.len(),
            domain_after(steps@.subrange(i as int, steps@.len() as int), dom) == Some(dout),
            member(dom, cur@),
            domain_wf(dom),
            steps_apply(steps@.subrange(i as int, steps@.len() as int), cur@) == steps_apply(
                steps@,
                arg@,
            ),
        decreases steps@.len() - i,
    {
        let ghost rest = steps@.subrange(i as int, steps@.len() as int);
        let ghost next_rest = steps@.subrange(i as int + 1, steps@.len() as int);
        proof {
            assert(rest[0] == steps@[i as int]);
            assert(next_rest =~= rest.drop_first());
            assert(step_domain(rest[0], dom) is Some);
        }
        let step = steps[i];
        match step {
            Step::Sum => {
                match cur {
                    Value::Vector(xs) => {
                        let ghost s = xs@.map_values(|f: Fix| f@);
                        let ghost (l, u, n) = match dom {
                            Domain::Vector(vd) => {
                                let (lf, uf) = vd.element_domain.bounds.unwrap();
                                (lf@, uf@, vd.size.unwrap() as int)
                            },
                            _ => (0int, 0int, 0int),
                        };
                        let ghost eb = match dom {
                            Domain::Vector(vd) => vd.element_domain.bounds,
                            _ => None,
                        };
                        proof {
                            assert forall|k: int|
                                0 <= k < xs@.len() implies l <= #[trigger] xs@[k]@ <= u by {
                                assert(crate::domains::in_bounds(eb, s[k]));
                                assert(s[k] == xs@[k]@);
                            }
                            lemma_sum_bounds(s, l, u);
                            assert(n * l <= n * u) by (nonlinear_arith)
                                requires
                                    l <= u,
                                    n >= 0,
                            ;
                        }
                        let sv = sum_vec(&xs, Ghost(l), Ghost(u));
                        cur = Value::Scalar(sv);
                        proof {
                            dom = step_domain(step, dom).unwrap();
                        }
                    },
                    Value::Scalar(x) => {
                        proof {
                            assert(false);
                        }
                        cur = Value::Scalar(x);
                    },
                }
            },
            Step::MulConst { c } => {
                match cur {
                    Value::Scalar(x) => {
                        let ghost (l, u) = match dom {
                            Domain::Atom(a) => {
                                let (lf, uf) = a.bounds.unwrap();
                                (lf@, uf@)
                            },
                            _ => (0int, 0int),
                        };
                        proof {
                            assert(c@ * l <= c@ * x@ <= c@ * u) by (nonlinear_arith)
                                requires
                                    c@ >= 0,
                                    l <= x@ <= u,
                            ;
                            crate::fixed::lemma_trunc_monotone(c@ * l, c@ * x@);
                            crate::fixed::lemma_trunc_monotone(c@ * x@, c@ * u);
                        }
                        match crate::fixed::mul_trunc(c, x) {
                            Some(y) => {
                                cur = Value::Scalar(y);
                                proof {
                                    dom = step_domain(step, dom).unwrap();
                                }
                            },
                            None => {
                                proof {
                                    assert(false);
                                }
                                cur = Value::Scalar(x);
                            },
                        }
                    },
                    Value::Vector(xs) => {
                        proof {
                            assert(false);
                        }
                        cur = Value::Vector(xs);
                    },
                }
            },
        }
        i = i + 1;
    }
    proof {
        assert(steps@.subrange(i as int, steps@.len() as int) =~= Seq::<Step>::empty());
    }
    cur
}

/// Sums a vector whose elements are bounded well enough that no
/// intermediate sum can leave the representable range.
fn sum_vec(xs: &Vec<Fix>, Ghost(l): Ghost<int>, Ghost(u): Ghost<int>) -> (r: Fix)
    requires
        forall|i: int| 0 <= i < xs@.len() ==> l <= #[trigger] xs@[i]@ <= u,
        fits_sym((xs@.len() as int) * l),
        fits_sym((xs@.len() as int) * u),
    ensures
        r@ == sum_units(xs@.map_values(|f: Fix| f@)),
{
    let ghost s = xs@.map_values(|f: Fix| f@);
    let ghost n = xs@.len() as int;
    proof {
        assert(forall|k: int| 0 <= k < n ==> #[trigger] s[k] == xs@[k]@);
    }
    let mut acc: i64 = 0;
    let mut i: usize = 0;
    while i < xs.len()
        invariant
            0 <= i <= n,
            n == xs@.len() as int,
            s == xs@.map_values(|f: Fix| f@),
            s.len() == n,
            forall|k: int| 0 <= k < n ==> l <= #[trigger] s[k] <= u,
            fits_sym(n * l),
            fits_sym(n * u),
            acc as int == sum_units(s.take(i as int)),
        decreases n - i,
    {
        proof {
            assert(forall|k: int|
                0 <= k < i as int + 1 ==> l <= #[trigger] s.take(i as int + 1)[k] <= u);
            lemma_sum_bounds(s.take(i as int + 1), l, u);
            assert(fits_sym((i as int + 1) * l) && fits_sym((i as int + 1) * u))
                by (nonlinear_arith)
                requires
                    0 <= i as int + 1 <= n,
                    fits_sym(n * l),
                    fits_sym(n * u),
            ;
            assert(s.take(i as int + 1).drop_last() =~= s.take(i as int));
            assert(s.take(i as int + 1).last() == s[i as int]);
            assert(s[i as int] == xs@[i as int]@);
        }
        let e: i128 = (acc as i128) + (xs[i].units as i128);
        proof {
            assert(e as int == sum_units(s.take(i as int + 1)));
        }
        acc = e as i64;
        i = i + 1;
    }
    proof {
        assert(s.take(i as int) =~= s);
    }
    Fix { units: acc }
}

/// What a successful `make_sum` returns, given its arguments.
pub open spec fn sum_ok(t: Transformation, input_domain: VectorDomain, input_metric: Metric) -> bool {
    match input_domain.element_domain.bounds {
        Some((l, u)) => match input_domain.size {
            Some(n) => {
                &&& t.input_domain == Domain::Vector(input_domain)
                &&& t.input_metric == input_metric
                &&& Some(t.output_domain) == step_domain(Step::Sum, Domain::Vector(input_domain))
                &&& t.output_metric == Metric::AbsoluteDistance
                &&& t.steps@ == seq![Step::Sum]
                &&& t.stability_map == (DistanceMap::Scale { factor: (Fix { units: (u@ - l@) as i64 }) })
                &&& t.wf()
            },
            None => false,
        },
        None => false,
    }
}

/// Makes a transformation that sums a vector of bounded data of known
/// size under the symmetric-difference metric. Its stability map
/// scales the input distance by the width of the element bounds.
pub fn make_sum(input_domain: VectorDomain, input_metric: Metric) -> (r: Result<
    Transformation,
    Error,
>)
    requires
        atom_domain_wf(input_domain.element_domain),
    ensures
        match r {
            Ok(t) => {
                &&& input_metric == Metric::SymmetricDistance
                &&& input_domain.size is Some
                &&& input_domain.element_domain.bounds is Some
                &&& sum_ok(t, input_domain, input_metric)
            },
            Err(e) => if input_metric != Metric::SymmetricDistance {
                e.kind == ErrorKind::MetricSpace
            } else if input_domain.size is None {
                e.kind == ErrorKind::MakeTransformation
            } else if input_domain.element_domain.bounds is None {
                e.kind == ErrorKind::MakeTransformation
            } else {
                e.kind == ErrorKind::Overflow && {
                    let (l, u) = input_domain.element_domain.bounds.unwrap();
                    let n = input_domain.size.unwrap();
                    !fits_i64(u@ - l@) || !fits_sym((n as int) * l@) || !fits_sym(
                        (n as int) * u@,
                    )
                }
            },
        },
{
    if input_metric != Metric::SymmetricDistance {
        return Err(
            Error {
                kind: ErrorKind::MetricSpace,
                message: "the sum is stable under the symmetric-difference metric only",
            },
        );
    }
    let n: u64 = match input_domain.size {
        Some(n) => n,
        None => {
            return Err(
                Error {
                    kind: ErrorKind::MakeTransformation,
                    message: "dataset size must be known. Either specify size in the input domain or use make_resize",
                },
            );
        },
    };
    let (l, u): (Fix, Fix) = match input_domain.element_domain.bounds {
        Some(b) => b,
        None => {
            return Err(
                Error {
                    kind: ErrorKind::MakeTransformation,
                    message: "input domain must consist of bounded data. Either specify bounds in the input domain or use make_clamp.",
                },
            );
        },
    };
    let width: Fix = match crate::fixed::checked_sub(u, l) {
        Some(w) => w,
        None => {
            return Err(
                Error { kind: ErrorKind::Overflow, message: "the width of the bounds overflows" },
            );
        },
    };
    let nl: Fix = match crate::fixed::count_mul(n, l) {
        Some(v) => v,
        None => {
            return Err(
                Error { kind: ErrorKind::Overflow, message: "the sum bound overflows" },
            );
        },
    };
    let nu: Fix = match crate::fixed::count_mul(n, u) {
        Some(v) => v,
        None => {
            return Err(
                Error { kind: ErrorKind::Overflow, message: "the sum bound overflows" },
            );
        },
    };
    let t = Transformation {
        input_domain: Domain::Vector(input_domain),
        input_metric,
        output_domain: Domain::Atom(AtomDomain { bounds: Some((nl, nu)) }),
        output_metric: Metric::AbsoluteDistance,
        steps: vec![Step::Sum],
        stability_map: DistanceMap::Scale { factor: width },
    };
    proof {
        assert((n as int) * l@ <= (n as int) * u@) by (nonlinear_arith)
            requires
                l@ <= u@,
                n >= 0,
        ;
        assert(t.steps@ =~= seq![Step::Sum]);
        assert(t.steps@.drop_first() =~= Seq::<Step>::empty());
        assert(nl@ == (n as int) * l@ && fits_sym((n as int) * l@));
        assert(nu@ == (n as int) * u@ && fits_sym((n as int) * u@));
        assert(nl == (Fix { units: ((n as int) * l@) as i64 }));
        assert(nu == (Fix { units: ((n as int) * u@) as i64 }));
        assert(step_domain(Step::Sum, t.input_domain) == Some(t.output_domain));
        assert(domain_after(Seq::<Step>::empty(), t.output_domain) == Some(t.output_domain));
        assert(domain_after(t.steps@, t.input_domain) == Some(t.output_domain));
    }
    Ok(t)
}

/// What a successful `make_lipschitz_mul` returns, given its arguments.
pub open spec fn lipschitz_mul_ok(t: Transformation, constant: Fix, bounds: (Fix, Fix)) -> bool {
    &&& t.input_domain == (Domain::Atom(AtomDomain { bounds: Some(bounds) }))
    &&& t.input_metric == Metric::AbsoluteDistance
    &&& Some(t.output_domain) == step_domain(
        Step::MulConst { c: constant },
        Domain::Atom(AtomDomain { bounds: Some(bounds) }),
    )
    &&& t.output_metric == Metric::AbsoluteDistance
    &&& t.steps@ == seq![Step::MulConst { c: constant }]
    &&& t.stability_map == (DistanceMap::Scale { factor: constant })
    &&& t.wf()
}

/// Makes a transformation that multiplies a bounded scalar by a
/// nonnegative Lipschitz constant. Its stability map scales the input
/// distance by the constant, rounded up so the published bound is
/// never tighter than the exact one.
pub fn make_lipschitz_mul(constant: Fix, bounds: (Fix, Fix)) -> (r: Result<Transformation, Error>)
    ensures
        match r {
            Ok(t) => {
                &&& constant@ >= 0
                &&& bounds.0@ <= bounds.1@
                &&& fits_sym(trunc_scale(constant@ * bounds.0@))
                &&& fits_sym(trunc_scale(constant@ * bounds.1@))
                &&& lipschitz_mul_ok(t, constant, bounds)
            },
            Err(e) => if constant@ < 0 {
                e.kind == ErrorKind::MakeTransformation
            } else if bounds.0@ > bounds.1@ {
                e.kind == ErrorKind::MakeTransformation
            } else {
                e.kind == ErrorKind::Overflow && (!fits_sym(trunc_scale(constant@ * bounds.0@))
                    || !fits_sym(trunc_scale(constant@ * bounds.1@)))
            },
        },
{
    let zero = Fix::zero();
    if !zero.le(&constant) {
        return Err(
            Error {
                kind: ErrorKind::MakeTransformation,
                message: "the Lipschitz constant must not be negative",
            },
        );
    }
    let element_domain = match AtomDomain::new_closed(bounds) {
        Ok(d) => d,
        Err(e) => {
            return Err(e);
        },
    };
    let tl: Fix = match crate::fixed::mul_trunc(constant, bounds.0) {
        Some(v) => v,
        None => {
            return Err(
                Error { kind: ErrorKind::Overflow, message: "the output bound overflows" },
            );
        },
    };
    let tu: Fix = match crate::fixed::mul_trunc(constant, bounds.1) {
        Some(v) => v,
        None => {
            return Err(
                Error { kind: ErrorKind::Overflow, message: "the output bound overflows" },
            );
        },
    };
    let t = Transformation {
        input_domain: Domain::Atom(element_domain),
        input_metric: Metric::AbsoluteDistance,
        output_domain: Domain::Atom(AtomDomain { bounds: Some((tl, tu)) }),
        output_metric: Metric::AbsoluteDistance,
        steps: vec![Step::MulConst { c: constant }],
        stability_map: DistanceMap::Scale { factor: constant },
    };
    proof {
        assert(constant@ * bounds.0@ <= constant@ * bounds.1@) by (nonlinear_arith)
            requires
                constant@ >= 0,
                bounds.0@ <= bounds.1@,
        ;
        crate::fixed::lemma_trunc_monotone(constant@ * bounds.0@, constant@ * bounds.1@);
        assert(t.steps@ =~= seq![Step::MulConst { c: constant }]);
        assert(t.steps@.drop_first() =~= Seq::<Step>::empty());
        assert(tl@ == trunc_scale(constant@ * bounds.0@));
        assert(tu@ == trunc_scale(constant@ * bounds.1@));
        assert(tl == (Fix { units: trunc_scale(constant@ * bounds.0@) as i64 }));
        assert(tu == (Fix { units: trunc_scale(constant@ * bounds.1@) as i64 }));
        assert(step_domain(Step::MulConst { c: constant }, t.input_domain) == Some(
            t.output_domain,
        ));
        assert(domain_after(Seq::<Step>::empty(), t.output_domain) == Some(t.output_domain));
        assert(domain_after(t.steps@, t.input_domain) == Some(t.output_domain));
    }
    Ok(t)
}

/// Chains two transformations: the result applies `t1` first and `t2`
/// second, and its stability map is the point-wise composition of the
/// two maps. The output domain and metric of `t1` must equal the input
/// domain and metric of `t2` exactly; a mismatch is a hard error.
pub fn make_chain_tt(t2: Transformation, t1: Transformation) -> (r: Result<Transformation, Error>)
    requires
        t1.wf(),
        t2.wf(),
    ensures
        match r {
            Ok(t) => {
                &&& t1.output_domain == t2.input_domain
                &&& t1.output_metric == t2.input_metric
                &&& t.wf()
                &&& t.input_domain == t1.input_domain
                &&& t.input_metric == t1.input_metric
                &&& t.output_domain == t2.output_domain
                &&& t.output_metric == t2.output_metric
                &&& t.steps@ == t1.steps@ + t2.steps@
                &&& t.stability_map matches DistanceMap::Compose { outer, inner }
                    && *outer == t2.stability_map && *inner == t1.stability_map
                &&& forall|b: int| #[trigger]
                    eval_units(t.stability_map, b) == compose_eval(
                        t2.stability_map,
                        t1.stability_map,
                        b,
                    )
            },
            Err(e) => (t1.output_domain != t2.input_domain || t1.output_metric
                != t2.input_metric) && e.kind == ErrorKind::MetricSpace,
        },
{
    if !domain_eq(&t1.output_domain, &t2.input_domain) {
        return Err(
            Error {
                kind: ErrorKind::MetricSpace,
                message: "chained domains do not match: the output domain of the first must equal the input domain of the second",
            },
        );
    }
    if t1.output_metric != t2.input_metric {
        return Err(
            Error {
                kind: ErrorKind::MetricSpace,
                message: "chained metrics do not match: the output metric of the first must equal the input metric of the second",
            },
        );
    }
    let Transformation {
        input_domain: d1i,
        input_metric: m1i,
        output_domain: d1o,
        output_metric: m1o,
        steps: steps1,
        stability_map: map1,
    } = t1;
    let Transformation {
        input_domain: d2i,
        input_metric: m2i,
        output_domain: d2o,
        output_metric: m2o,
        steps: steps2,
        stability_map: map2,
    } = t2;
    let mut steps = steps1;
    let mut tail = steps2;
    steps.append(&mut tail);
    let t = Transformation {
        input_domain: d1i,
        input_metric: m1i,
        output_domain: d2o,
        output_metric: m2o,
        steps,
        stability_map: DistanceMap::Compose { outer: Box::new(map2), inner: Box::new(map1) },
    };
    proof {
        lemma_domain_after_concat(t1.steps@, t2.steps@, t1.input_domain);
        assert forall|b: int| #[trigger]
            eval_units(t.stability_map, b) == compose_eval(
                t2.stability_map,
                t1.stability_map,
                b,
            ) by {}
    }
    Ok(t)
}



/// The number of positions at which two equal-length sequences differ.
pub open spec fn diff_count(x: Seq<int>, y: Seq<int>) -> int
    decreases x.len(),
{
    if x.len() == 0 {
        0
    } else {
        diff_count(x.drop_last(), y.drop_last()) + if x.last() == y.last() {
            0int
        } else {
            1int
        }
    }
}

/// Changing entries of a bounded dataset moves the sum by at most the
/// number of changed entries times the width of the bounds.
proof fn lemma_sum_diff(x: Seq<int>, y: Seq<int>, l: int, u: int)
    requires
        x.len() == y.len(),
        forall|i: int| 0 <= i < x.len() ==> l <= #[trigger] x[i] <= u,
        forall|i: int| 0 <= i < y.len() ==> l <= #[trigger] y[i] <= u,
    ensures
        -(diff_count(x, y) * (u - l)) <= sum_units(x) - sum_units(y) <= diff_count(x, y) * (u
            - l),
    decreases x.len(),
{
    if x.len() == 0 {
    } else {
        lemma_sum_diff(x.drop_last(), y.drop_last(), l, u);
        let k = diff_count(x.drop_last(), y.drop_last());
        if x.last() == y.last() {
        } else {
            assert((k + 1) * (u - l) == k * (u - l) + (u - l)) by (nonlinear_arith);
        }
    }
}

/// The point-wise bound invariant of the sum: changing at most `k`
/// entries of a dataset of bounded entries moves the sum by at most
/// the stability map's bound for a distance of `k`. A symmetric
/// difference of `k` records on datasets of a fixed size permits at
/// most `k` substitutions, so the published map is sound for it.
pub proof fn lemma_sum_stability(x: Seq<int>, y: Seq<int>, l: Fix, u: Fix, k: int)
    requires
        l@ <= u@,
        x.len() == y.len(),
        forall|i: int| 0 <= i < x.len() ==> l@ <= #[trigger] x[i] <= u@,
        forall|i: int| 0 <= i < y.len() ==> l@ <= #[trigger] y[i] <= u@,
        fits_i64(u@ - l@),
        0 <= diff_count(x, y) <= k,
        k * (SCALE as int) <= i64::MAX,
    ensures
        crate::maps::within(
            (if sum_units(x) >= sum_units(y) {
                sum_units(x) - sum_units(y)
            } else {
                sum_units(y) - sum_units(x)
            }),
            eval_units(
                DistanceMap::Scale { factor: (Fix { units: (u@ - l@) as i64 }) },
                k * (SCALE as int),
            ),
        ),
{
    let s = SCALE as int;
    let w = u@ - l@;
    lemma_sum_diff(x, y, l@, u@);
    assert(diff_count(x, y) * w <= k * w) by (nonlinear_arith)
        requires
            0 <= diff_count(x, y) <= k,
            w >= 0,
    ;
    assert(w * (k * s) == (k * w) * s) by (nonlinear_arith);
    assert(crate::fixed::ceil_scale((k * w) * s) == k * w) by {
        vstd::arithmetic::div_mod::lemma_fundamental_div_mod_converse(
            (k * w) * s + s - 1,
            s,
            k * w,
            s - 1,
        );
    }
}

/// The point-wise bound invariant of the Lipschitz multiplication: for
/// any two inputs at absolute distance at most `b`, the outputs of the
/// truncating multiplication are at distance at most the stability
/// map's bound for `b`. This is the semantic guarantee the map
/// publishes, proven against the data function itself.
pub proof fn lemma_lipschitz_stability(c: Fix, x: int, y: int, b: int)
    requires
        c@ >= 0,
        0 <= b,
        -b <= x - y <= b,
    ensures
        crate::maps::within(
            (if trunc_scale(c@ * x) >= trunc_scale(c@ * y) {
                trunc_scale(c@ * x) - trunc_scale(c@ * y)
            } else {
                trunc_scale(c@ * y) - trunc_scale(c@ * x)
            }),
            eval_units(DistanceMap::Scale { factor: c }, b),
        ),
{
    assert(c@ * b >= 0) by (nonlinear_arith)
        requires
            c@ >= 0,
            b >= 0,
    ;
    if x >= y {
        assert(c@ * y <= c@ * x && c@ * x - c@ * y == c@ * (x - y) && c@ * (x - y) <= c@ * b)
            by (nonlinear_arith)
            requires
                c@ >= 0,
                y <= x,
                x - y <= b,
        ;
        crate::fixed::lemma_trunc_monotone(c@ * y, c@ * x);
        crate::fixed::lemma_trunc_diff_bound(c@ * x, c@ * y);
        crate::fixed::lemma_ceil_monotone(c@ * x - c@ * y, c@ * b);
    } else {
        assert(c@ * x <= c@ * y && c@ * y - c@ * x == c@ * (y - x) && c@ * (y - x) <= c@ * b)
            by (nonlinear_arith)
            requires
                c@ >= 0,
                x <= y,
                y - x <= b,
        ;
        crate::fixed::lemma_trunc_monotone(c@ * x, c@ * y);
        crate::fixed::lemma_trunc_diff_bound(c@ * y, c@ * x);
        crate::fixed::lemma_ceil_monotone(c@ * y - c@ * x, c@ * b);
    }
}

/// The point-wise bound invariant of the whole mean pipeline: changing
/// at most `k` entries of a dataset of bounded entries moves the
/// truncated scaled sum by at most the composed map's bound for a
/// distance of `k`. Soundness of the composition follows from the two
/// steps' own invariants and the monotonicity of their maps.
pub proof fn lemma_mean_stability(x: Seq<int>, y: Seq<int>, l: Fix, u: Fix, k: int, c: Fix)
    requires
        l@ <= u@,
        x.len() == y.len(),
        forall|i: int| 0 <= i < x.len() ==> l@ <= #[trigger] x[i] <= u@,
        forall|i: int| 0 <= i < y.len() ==> l@ <= #[trigger] y[i] <= u@,
        fits_i64(u@ - l@),
        0 <= diff_count(x, y) <= k,
        k * (SCALE as int) <= i64::MAX,
        c@ >= 0,
    ensures
        crate::maps::within(
            (if trunc_scale(c@ * sum_units(x)) >= trunc_scale(c@ * sum_units(y)) {
                trunc_scale(c@ * sum_units(x)) - trunc_scale(c@ * sum_units(y))
            } else {
                trunc_scale(c@ * sum_units(y)) - trunc_scale(c@ * sum_units(x))
            }),
            crate::maps::compose_eval(
                DistanceMap::Scale { factor: c },
                DistanceMap::Scale { factor: (Fix { units: (u@ - l@) as i64 }) },
                k * (SCALE as int),
            ),
        ),
{
    let w = Fix { units: (u@ - l@) as i64 };
    lemma_sum_stability(x, y, l, u, k);
    match eval_units(DistanceMap::Scale { factor: w }, k * (SCALE as int)) {
        Some(v) => {
            crate::maps::lemma_map_monotone(
                DistanceMap::Scale { factor: w },
                k * (SCALE as int),
                k * (SCALE as int),
            );
            assert(v >= 0);
            assert(-v <= sum_units(x) - sum_units(y) <= v);
            lemma_lipschitz_stability(c, sum_units(x), sum_units(y), v);
        },
        None => {},
    }
}

/// The rounded-up reciprocal of a whole count is at most one.
proof fn lemma_recip_le_scale(x: int)
    requires
        x >= SCALE as int,
        x <= i64::MAX as int,
    ensures
        0 < crate::fixed::recip_up_units(x) <= SCALE as int,
{
    let s = SCALE as int;
    assert(s * s <= s * x) by (nonlinear_arith)
        requires
            0 < s <= x,
    ;
    vstd::arithmetic::div_mod::lemma_div_is_ordered(s * s + x - 1, s * x + x - 1, x);
    vstd::arithmetic::div_mod::lemma_fundamental_div_mod_converse(s * x + x - 1, x, s, x - 1);
    vstd::arithmetic::div_mod::lemma_div_pos_is_pos(s * s + x - 1, x);
    assert(s * s + x - 1 >= x) by (nonlinear_arith)
        requires
            s >= 1,
            x >= 1,
    ;
    assert(crate::fixed::recip_up_units(x) >= 1) by {
        vstd::arithmetic::div_mod::lemma_div_is_ordered(x, s * s + x - 1, x);
        vstd::arithmetic::div_mod::lemma_div_multiples_vanish(1, x);
        assert(x * 1 == x) by (nonlinear_arith);
    }
}

/// Multiplying by a constant of at most one, truncating, never grows
/// the magnitude.
proof fn lemma_trunc_bounded(c: int, x: int)
    requires
        0 <= c <= SCALE as int,
        crate::fixed::fits_sym(x),
    ensures
        fits_sym(trunc_scale(c * x)),
{
    let s = SCALE as int;
    if x >= 0 {
        assert(0 <= c * x <= s * x) by (nonlinear_arith)
            requires
                0 <= c <= s,
                x >= 0,
        ;
        vstd::arithmetic::div_mod::lemma_div_is_ordered(c * x, s * x, s);
        vstd::arithmetic::div_mod::lemma_div_multiples_vanish(x, s);
        vstd::arithmetic::div_mod::lemma_div_pos_is_pos(c * x, s);
    } else {
        assert(c * x == -(c * (-x)) && 0 <= c * (-x) <= s * (-x)) by (nonlinear_arith)
            requires
                0 <= c <= s,
                x < 0,
        ;
        vstd::arithmetic::div_mod::lemma_div_is_ordered(c * (-x), s * (-x), s);
        vstd::arithmetic::div_mod::lemma_div_multiples_vanish(-x, s);
        vstd::arithmetic::div_mod::lemma_div_pos_is_pos(c * (-x), s);
    }
}

/// What a successful `make_mean` returns, given its arguments: the sum
/// transformation chained into a Lipschitz multiplication by the
/// rounded-up reciprocal of the dataset size.
pub open spec fn mean_ok(t: Transformation, input_domain: VectorDomain, input_metric: Metric) -> bool {
    match input_domain.element_domain.bounds {
        Some((l, u)) => match input_domain.size {
            Some(n) => {
                let c = recip_up_units((n as int) * (SCALE as int));
                &&& t.input_domain == Domain::Vector(input_domain)
                &&& t.input_metric == input_metric
                &&& t.output_metric == Metric::AbsoluteDistance
                &&& t.steps@ == seq![
                    Step::Sum,
                    Step::MulConst { c: (Fix { units: c as i64 }) },
                ]
                &&& t.stability_map matches DistanceMap::Compose { outer, inner }
                    && *outer == (DistanceMap::Scale { factor: (Fix { units: c as i64 }) })
                    && *inner == (DistanceMap::Scale { factor: (Fix { units: (u@ - l@) as i64 }) })
                &&& t.output_domain == (Domain::Atom(
                    AtomDomain {
                        bounds: Some(
                            (
                                Fix { units: trunc_scale(c * ((n as int) * l@)) as i64 },
                                Fix { units: trunc_scale(c * ((n as int) * u@)) as i64 },
                            ),
                        ),
                    },
                ))
                &&& t.wf()
            },
            None => false,
        },
        None => false,
    }
}

/// Makes a transformation that computes the mean of bounded data of
/// known positive size: the sum, scaled by the reciprocal of the size.
/// The reciprocal is rounded up, so the published sensitivity bound is
/// never tighter than the exact one.
pub fn make_mean(input_domain: VectorDomain, input_metric: Metric) -> (r: Result<
    Transformation,
    Error,
>)
    requires
        atom_domain_wf(input_domain.element_domain),
    ensures
        match r {
            Ok(t) => {
                &&& input_domain.size is Some
                &&& input_domain.size != Some(0u64)
                &&& input_domain.element_domain.bounds is Some
                &&& input_metric == Metric::SymmetricDistance
                &&& mean_ok(t, input_domain, input_metric)
            },
            Err(e) => if input_domain.size is None {
                e.kind == ErrorKind::MakeTransformation && e.message@
                    == "dataset size must be known. Either specify size in the input domain or use make_resize"@
            } else if input_domain.element_domain.bounds is None {
                e.kind == ErrorKind::MakeTransformation && e.message@
                    == "input domain must consist of bounded data. Either specify bounds in the input domain or use make_clamp."@
            } else if input_domain.size == Some(0u64) {
                e.kind == ErrorKind::MakeTransformation && e.message@
                    == "dataset size must be positive"@
            } else if input_metric != Metric::SymmetricDistance {
                e.kind == ErrorKind::MetricSpace
            } else if (input_domain.size.unwrap() as int) * (SCALE as int) > i64::MAX {
                e.kind == ErrorKind::Overflow
            } else {
                e.kind == ErrorKind::Overflow && {
                    let (l, u) = input_domain.element_domain.bounds.unwrap();
                    let n = input_domain.size.unwrap();
                    !fits_i64(u@ - l@) || !fits_sym((n as int) * l@) || !fits_sym(
                        (n as int) * u@,
                    )
                }
            },
        },
{
    let n: u64 = match input_domain.size {
        Some(n) => n,
        None => {
            return Err(
                Error {
                    kind: ErrorKind::MakeTransformation,
                    message: "dataset size must be known. Either specify size in the input domain or use make_resize",
                },
            );
        },
    };
    if input_domain.element_domain.get_closed_bounds().is_none() {
        return Err(
            Error {
                kind: ErrorKind::MakeTransformation,
                message: "input domain must consist of bounded data. Either specify bounds in the input domain or use make_clamp.",
            },
        );
    }
    if n == 0 {
        return Err(
            Error {
                kind: ErrorKind::MakeTransformation,
                message: "dataset size must be positive",
            },
        );
    }
    if input_metric != Metric::SymmetricDistance {
        return Err(
            Error {
                kind: ErrorKind::MetricSpace,
                message: "the mean is stable under the symmetric-difference metric only",
            },
        );
    }
    let size_ = match Fix::from_count(n) {
        Some(f) => f,
        None => {
            return Err(
                Error {
                    kind: ErrorKind::Overflow,
                    message: "dataset size does not fit the numeric range",
                },
            );
        },
    };
    let c = crate::fixed::recip_up(size_);
    let t_sum = match make_sum(input_domain, input_metric) {
        Ok(t) => t,
        Err(e) => {
            return Err(e);
        },
    };
    let sum_bounds: (Fix, Fix) = match t_sum.output_domain {
        Domain::Atom(a) => match a.bounds {
            Some(b) => b,
            None => {
                proof {
                    assert(false);
                }
                (Fix { units: 0 }, Fix { units: 0 })
            },
        },
        Domain::Vector(_) => {
            proof {
                assert(false);
            }
            (Fix { units: 0 }, Fix { units: 0 })
        },
    };
    proof {
        lemma_recip_le_scale(size_@);
        lemma_trunc_bounded(c@, sum_bounds.0@);
        lemma_trunc_bounded(c@, sum_bounds.1@);
        let (l, u) = input_domain.element_domain.bounds.unwrap();
        assert((n as int) * l@ <= (n as int) * u@) by (nonlinear_arith)
            requires
                l@ <= u@,
                n >= 0,
        ;
    }
    let t_mul = match make_lipschitz_mul(c, sum_bounds) {
        Ok(t) => t,
        Err(e) => {
            proof {
                assert(false);
            }
            return Err(e);
        },
    };
    let ghost sum_map = t_sum.stability_map;
    let ghost mul_map = t_mul.stability_map;
    let t = match make_chain_tt(t_mul, t_sum) {
        Ok(t) => t,
        Err(e) => {
            proof {
                assert(false);
            }
            return Err(e);
        },
    };
    proof {
        let (l, u) = input_domain.element_domain.bounds.unwrap();
        let cu = recip_up_units((n as int) * (SCALE as int));
        assert(c == (Fix { units: cu as i64 }));
        assert(t.steps@ =~= seq![
            Step::Sum,
            Step::MulConst { c: (Fix { units: cu as i64 }) },
        ]);
    }
    Ok(t)
}

} // verus!
