//! Domains, metrics, measures and the values they describe.
//!
//! A [`Domain`] describes the set of legal values a piece of data may
//! take; a [`Metric`] names a distance notion over such values; a
//! [`Measure`] names a distance notion over distributions of outputs.
//! The [`metric_space_valid`] relation says which (domain, metric)
//! pairings are well-formed; it is checked at every constructor and at
//! every chain boundary. Values are modelled in specifications by
//! [`DataView`], an exact mathematical image of a [`Value`].

use vstd::prelude::*;

use crate::error::{Error, ErrorKind};
use crate::fixed::Fix;

verus! {

/// The domain of a single numeric atom, optionally bounded to a closed
/// interval.
#[derive(Clone, Copy, PartialEq, Eq, Debug)]
pub struct AtomDomain {
    /// Optional closed bounds `[lower, upper]` on the atom.
    pub bounds: Option<(Fix, Fix)>,
}

/// The domain of a vector of atoms, optionally of a known size.
#[derive(Clone, Copy, PartialEq, Eq, Debug)]
pub struct VectorDomain {
    /// The domain of each element.
    pub element_domain: AtomDomain,
    /// Optional known number of records.
    pub size: Option<u64>,
}

/// The set of legal values a function accepts or produces.
#[derive(Clone, Copy, PartialEq, Eq, Debug)]
pub enum Domain {
    /// A single numeric atom.
    Atom(AtomDomain),
    /// A vector of numeric atoms.
    Vector(VectorDomain),
}

/// A named distance notion over the values of a domain.
#[derive(Clone, Copy, PartialEq, Eq, Structural, Debug)]
pub enum Metric {
    /// Symmetric-difference distance between datasets.
    SymmetricDistance,
    /// Absolute distance between scalars.
    AbsoluteDistance,
    /// Sum of per-coordinate absolute distances between vectors.
    L1Distance,
}

/// A named distance notion over distributions of output values.
#[derive(Clone, Copy, PartialEq, Eq, Structural, Debug)]
pub enum Measure {
    /// The worst-case privacy-loss measure of pure differential privacy.
    MaxDivergence,
}

/// A data value: the argument or result of an invocation.
/// [`clone_value`] copies one.
#[derive(PartialEq, Eq, Debug)]
pub enum Value {
    /// A single atom.
    Scalar(Fix),
    /// A vector of atoms.
    Vector(Vec<Fix>),
}

/// The mathematical image of a [`Value`]: unit counts as unbounded
/// integers.
pub enum DataView {
    /// A single atom, in units.
    Scalar(int),
    /// A vector of atoms, in units.
    Vector(Seq<int>),
}

impl View for Value {
    type V = DataView;

    open spec fn view(&self) -> DataView {
        match *self {
            Value::Scalar(x) => DataView::Scalar(x@),
            Value::Vector(xs) => DataView::Vector(xs@.map_values(|f: Fix| f@)),
        }
    }
}

/// Whether a unit count lies inside optional closed bounds.
pub open spec fn in_bounds(b: Option<(Fix, Fix)>, x: int) -> bool {
    match b {
        Some((l, u)) => l@ <= x <= u@,
        None => true,
    }
}

/// Whether the bounds of an atom domain are ordered.
pub open spec fn atom_domain_wf(d: AtomDomain) -> bool {
    match d.bounds {
        Some((l, u)) => l@ <= u@,
        None => true,
    }
}

/// Whether a domain's declared constraints are internally consistent.
pub open spec fn domain_wf(d: Domain) -> bool {
    match d {
        Domain::Atom(a) => atom_domain_wf(a),
        Domain::Vector(v) => atom_domain_wf(v.element_domain),
    }
}

/// Whether a value is a member of a domain.
pub open spec fn member(d: Domain, v: DataView) -> bool {
    match d {
        Domain::Atom(a) => match v {
            DataView::Scalar(x) => in_bounds(a.bounds, x),
            DataView::Vector(_) => false,
        },
        Domain::Vector(vd) => match v {
            DataView::Scalar(_) => false,
            DataView::Vector(s) => (match vd.size {
                Some(n) => s.len() == n,
                None => true,
            }) && (forall|i: int|
                0 <= i < s.len() ==> in_bounds(vd.element_domain.bounds, #[trigger] s[i])),
        },
    }
}

/// Whether a (domain, metric) pairing is well-formed: dataset metrics
/// pair with vector domains, the scalar metric with atom domains.
pub open spec fn metric_space_valid(d: Domain, m: Metric) -> bool {
    match d {
        Domain::Vector(_) => m is SymmetricDistance || m is L1Distance,
        Domain::Atom(_) => m is AbsoluteDistance,
    }
}

impl AtomDomain {
    /// The unbounded atom domain.
    pub fn new() -> (r: AtomDomain)
        ensures
            r.bounds is None,
            atom_domain_wf(r),
    {
        AtomDomain { bounds: None }
    }

    /// An atom domain bounded to the closed interval `[l, u]`; the
    /// bounds must be ordered.
    pub fn new_closed(bounds: (Fix, Fix)) -> (r: Result<AtomDomain, Error>)
        ensures
            match r {
                Ok(d) => d.bounds == Some(bounds) && bounds.0@ <= bounds.1@ && atom_domain_wf(d),
                Err(e) => bounds.0@ > bounds.1@ && e.kind == ErrorKind::MakeTransformation,
            },
    {
        if bounds.0.le(&bounds.1) {
            Ok(AtomDomain { bounds: Some(bounds) })
        } else {
            Err(Error {
                kind: ErrorKind::MakeTransformation,
                message: "lower bound may not be greater than upper bound",
            })
        }
    }

    /// The closed bounds of the domain, if it has any.
    pub fn get_closed_bounds(&self) -> (r: Option<(Fix, Fix)>)
        ensures
            r == self.bounds,
    {
        self.bounds
    }
}

impl VectorDomain {
    /// The domain of vectors over the given element domain, without a
    /// declared size.
    pub fn new(element_domain: AtomDomain) -> (r: VectorDomain)
        ensures
            r.element_domain == element_domain,
            r.size is None,
    {
        VectorDomain { element_domain, size: None }
    }

    /// The same domain with a declared number of records.
    pub fn with_size(self, size: u64) -> (r: VectorDomain)
        ensures
            r.element_domain == self.element_domain,
            r.size == Some(size),
    {
        VectorDomain { element_domain: self.element_domain, size: Some(size) }
    }
}

/// Structural equality of atom domains.
pub fn atom_domain_eq(a: &AtomDomain, b: &AtomDomain) -> (r: bool)
    ensures
        r == (*a == *b),
{
    match (a.bounds, b.bounds) {
        (None, None) => true,
        (Some((al, au)), Some((bl, bu))) => al == bl && au == bu,
        _ => false,
    }
}

/// Structural equality of domains.
pub fn domain_eq(a: &Domain, b: &Domain) -> (r: bool)
    ensures
        r == (*a == *b),
{
    match (a, b) {
        (Domain::Atom(x), Domain::Atom(y)) => atom_domain_eq(x, y),
        (Domain::Vector(x), Domain::Vector(y)) => atom_domain_eq(
            &x.element_domain,
            &y.element_domain,
        ) && (match (x.size, y.size) {
            (None, None) => true,
            (Some(n), Some(m)) => n == m,
            _ => false,
        }),
        _ => false,
    }
}

/// Whether a value is a member of a domain.
pub fn check_member(d: &Domain, v: &Value) -> (r: bool)
    ensures
        r == member(*d, v@),
{
    match d {
        Domain::Atom(a) => match v {
            Value::Scalar(x) => {
                let rb: bool = match a.bounds {
                    Some((l, u)) => l.le(x) && x.le(&u),
                    None => true,
                };
                proof {
                    assert(v@ == DataView::Scalar(x@));
                    assert(rb == member(*d, v@));
                }
                rb
            },
            Value::Vector(xs) => {
                proof {
                    assert(v@ == DataView::Vector(xs@.map_values(|f: Fix| f@)));
                    assert(!member(*d, v@));
                }
                false
            },
        },
        Domain::Vector(vd) => match v {
            Value::Scalar(x) => {
                proof {
                    assert(v@ == DataView::Scalar(x@));
                    assert(!member(*d, v@));
                }
                false
            },
            Value::Vector(xs) => {
                let ghost s = xs@.map_values(|f: Fix| f@);
                proof {
                    assert(s.len() == xs@.len());
                }
                let size_ok: bool = match vd.size {
                    Some(n) => xs.len() as u64 == n,
                    None => true,
                };
                if !size_ok {
                    proof {
                        assert(!member(*d, v@));
                    }
                    false
                } else {
                    let mut i: usize = 0;
                    let mut ok: bool = true;
                    while i < xs.len()
                        invariant
                            0 <= i <= xs@.len(),
                            s == xs@.map_values(|f: Fix| f@),
                            s.len() == xs@.len(),
                            ok == (forall|j: int|
                                0 <= j < i ==> in_bounds(
                                    vd.element_domain.bounds,
                                    #[trigger] s[j],
                                )),
                        decreases xs@.len() - i,
                    {
                        let x = xs[i];
                        let here: bool = match vd.element_domain.bounds {
                            Some((l, u)) => l.le(&x) && x.le(&u),
                            None => true,
                        };
                        proof {
                            assert(s[i as int] == xs@[i as int]@);
                            assert(here == in_bounds(vd.element_domain.bounds, s[i as int]));
                        }
                        ok = ok && here;
                        i = i + 1;
                    }
                    proof {
                        assert(v@ == DataView::Vector(s));
                        if ok {
                            assert(member(*d, v@));
                        } else {
                            let j0 = choose|j: int|
                                0 <= j < s.len() && !in_bounds(
                                    vd.element_domain.bounds,
                                    #[trigger] s[j],
                                );
                            assert(!in_bounds((*vd).element_domain.bounds, s[j0]));
                            assert(!member(*d, v@));
                        }
                    }
                    ok
                }
            },
        },
    }
}

/// Copies a value.
pub fn clone_value(v: &Value) -> (r: Value)
    ensures
        r@ == v@,
{
    match v {
        Value::Scalar(x) => Value::Scalar(*x),
        Value::Vector(xs) => {
            let mut out: Vec<Fix> = Vec::new();
            let mut i: usize = 0;
            while i < xs.len()
                invariant
                    0 <= i <= xs@.len(),
                    out@.len() == i,
                    forall|j: int| 0 <= j < i ==> out@[j] == xs@[j],
                decreases xs@.len() - i,
            {
                out.push(xs[i]);
                i = i + 1;
            }
            proof {
                assert(out@ =~= xs@);
            }
            Value::Vector(out)
        },
    }
}

} // verus!
