use dp_core::domains::{AtomDomain, Domain, Metric, Value, VectorDomain};
use dp_core::error::ErrorKind;
use dp_core::fixed::{Fix, SCALE};
use dp_core::maps::{Bound, DistanceMap};
use dp_core::measurements::{make_base_laplace, make_base_laplace_on, make_base_laplace_vec, make_chain_mt};
use dp_core::transformations::{make_chain_tt, make_lipschitz_mul, make_mean, make_sum};

fn whole(v: i64) -> Fix {
    Fix::from_int(v).unwrap()
}

fn bounded_vector_domain(l: i64, u: i64, size: u64) -> VectorDomain {
    VectorDomain::new(AtomDomain::new_closed((whole(l), whole(u))).unwrap()).with_size(size)
}

#[test]
fn test_make_bounded_mean_symmetric() {
    let transformation = make_mean(
        bounded_vector_domain(0, 10, 5),
        Metric::SymmetricDistance,
    )
    .unwrap();
    let arg = Value::Vector(vec![whole(1), whole(2), whole(3), whole(4), whole(5)]);
    let ret = transformation.invoke(&arg).unwrap();
    let expected = Value::Scalar(whole(3));
    assert_eq!(ret, expected);
    assert!(transformation.check(whole(1), whole(2)));
}

#[test]
fn test_mean_rejects_unknown_size() {
    let domain = VectorDomain::new(AtomDomain::new_closed((whole(0), whole(10))).unwrap());
    let err = make_mean(domain, Metric::SymmetricDistance).unwrap_err();
    assert_eq!(err.kind, ErrorKind::MakeTransformation);
    assert_eq!(
        err.message,
        "dataset size must be known. Either specify size in the input domain or use make_resize"
    );
}

#[test]
fn test_mean_rejects_zero_size() {
    let err = make_mean(bounded_vector_domain(0, 10, 0), Metric::SymmetricDistance).unwrap_err();
    assert_eq!(err.kind, ErrorKind::MakeTransformation);
    assert_eq!(err.message, "dataset size must be positive");
}

#[test]
fn test_mean_rejects_unbounded_data() {
    let domain = VectorDomain::new(AtomDomain::new()).with_size(5);
    let err = make_mean(domain, Metric::SymmetricDistance).unwrap_err();
    assert_eq!(err.kind, ErrorKind::MakeTransformation);
    assert_eq!(
        err.message,
        "input domain must consist of bounded data. Either specify bounds in the input domain or use make_clamp."
    );
}

#[test]
fn test_mean_rejects_wrong_metric() {
    let err = make_mean(bounded_vector_domain(0, 10, 5), Metric::L1Distance).unwrap_err();
    assert_eq!(err.kind, ErrorKind::MetricSpace);
}

#[test]
fn test_sum_exact_value_and_map() {
    let t = make_sum(bounded_vector_domain(-2, 7, 3), Metric::SymmetricDistance).unwrap();
    let arg = Value::Vector(vec![whole(-2), whole(3), whole(7)]);
    assert_eq!(t.invoke(&arg).unwrap(), Value::Scalar(whole(8)));
    // The stability map scales by the bound width, here 9.
    match &t.stability_map {
        DistanceMap::Scale { factor } => assert_eq!(*factor, whole(9)),
        _ => panic!("the sum's map must be a scaling map"),
    }
    assert!(t.check(whole(2), whole(18)));
    assert!(!t.check(whole(2), Fix { units: 18 * SCALE - 1 }));
}

#[test]
fn test_sum_rejects_unknown_size() {
    let domain = VectorDomain::new(AtomDomain::new_closed((whole(0), whole(1))).unwrap());
    let err = make_sum(domain, Metric::SymmetricDistance).unwrap_err();
    assert_eq!(err.kind, ErrorKind::MakeTransformation);
}

#[test]
fn test_invoke_rejects_non_members() {
    let t = make_sum(bounded_vector_domain(0, 10, 3), Metric::SymmetricDistance).unwrap();
    // Wrong length.
    let err = t.invoke(&Value::Vector(vec![whole(1), whole(2)])).unwrap_err();
    assert_eq!(err.kind, ErrorKind::InvalidData);
    // An element out of bounds.
    let err = t
        .invoke(&Value::Vector(vec![whole(1), whole(2), whole(11)]))
        .unwrap_err();
    assert_eq!(err.kind, ErrorKind::InvalidData);
}

#[test]
fn test_mean_of_thirds_rounds_conservatively() {
    // Size 3: the reciprocal rounds up to 0.333333334, so the mean of
    // [1, 1, 1] overshoots 1 by two billionths and the published
    // sensitivity is never tighter than the exact one.
    let t = make_mean(bounded_vector_domain(0, 3, 3), Metric::SymmetricDistance).unwrap();
    let arg = Value::Vector(vec![whole(1), whole(1), whole(1)]);
    let ret = t.invoke(&arg).unwrap();
    assert_eq!(ret, Value::Scalar(Fix { units: 1_000_000_002 }));
}

#[test]
fn test_map_monotonicity_on_samples() {
    // For every constructor's map, a larger input bound never yields a
    // smaller output bound.
    let mean = make_mean(bounded_vector_domain(0, 10, 5), Metric::SymmetricDistance).unwrap();
    let laplace = make_base_laplace(whole(2)).unwrap();
    let mut last_mean: i64 = -1;
    let mut last_lap: i64 = -1;
    for b in 0..20i64 {
        let bound = Fix { units: b * (SCALE / 2) };
        match mean.stability_map.eval(bound) {
            Bound::Finite(v) => {
                assert!(v.units >= last_mean);
                last_mean = v.units;
            }
            Bound::Infinite => panic!("the mean's map is finite on small bounds"),
        }
        match laplace.privacy_map.eval(bound) {
            Bound::Finite(v) => {
                assert!(v.units >= last_lap);
                last_lap = v.units;
            }
            Bound::Infinite => panic!("the Laplace map is finite on small bounds"),
        }
    }
}

#[test]
fn test_composed_map_never_under_reports() {
    // The chained map evaluates to at least the product of the exact
    // factors: size 5, bounds [0, 10], so the mean's sensitivity for a
    // distance of 1 is exactly 2.
    let t = make_mean(bounded_vector_domain(0, 10, 5), Metric::SymmetricDistance).unwrap();
    match t.stability_map.eval(whole(1)) {
        Bound::Finite(v) => assert_eq!(v, whole(2)),
        Bound::Infinite => panic!("the composed map is finite here"),
    }
}

#[test]
fn test_laplace_privacy_map_divides_by_scale() {
    let m = make_base_laplace(whole(2)).unwrap();
    // privacy_map(1) == 1 / 2.
    match m.privacy_map.eval(whole(1)) {
        Bound::Finite(v) => assert_eq!(v.units, SCALE / 2),
        Bound::Infinite => panic!("the Laplace map is finite here"),
    }
    assert!(m.check(whole(1), Fix { units: SCALE / 2 }));
    assert!(!m.check(whole(1), Fix { units: SCALE / 2 - 1 }));
}

#[test]
fn test_laplace_rejects_non_positive_scale() {
    let err = make_base_laplace(whole(0)).unwrap_err();
    assert_eq!(err.kind, ErrorKind::MakeMeasurement);
    let err = make_base_laplace(whole(-1)).unwrap_err();
    assert_eq!(err.kind, ErrorKind::MakeMeasurement);
    let err = make_base_laplace_vec(whole(0)).unwrap_err();
    assert_eq!(err.kind, ErrorKind::MakeMeasurement);
}

#[test]
fn test_laplace_noise_addition() {
    let m = make_base_laplace(whole(1)).unwrap();
    let out = m
        .invoke_with_noise(&Value::Scalar(whole(5)), &Value::Scalar(whole(-2)))
        .unwrap();
    assert_eq!(out, Value::Scalar(whole(3)));
    // Noise of the wrong shape is rejected before anything is added.
    let err = m
        .invoke_with_noise(&Value::Scalar(whole(5)), &Value::Vector(vec![whole(1)]))
        .unwrap_err();
    assert_eq!(err.kind, ErrorKind::InvalidData);
}

#[test]
fn test_vector_laplace_noise_addition() {
    let m = make_base_laplace_vec(whole(1)).unwrap();
    let out = m
        .invoke_with_noise(
            &Value::Vector(vec![whole(1), whole(2)]),
            &Value::Vector(vec![whole(10), whole(-10)]),
        )
        .unwrap();
    assert_eq!(out, Value::Vector(vec![whole(11), whole(-8)]));
}

#[test]
fn test_chain_rejects_mismatched_domains() {
    let t_sum = make_sum(bounded_vector_domain(0, 10, 5), Metric::SymmetricDistance).unwrap();
    // The sum's output domain is [0, 50]; these bounds differ.
    let t_mul = make_lipschitz_mul(Fix { units: SCALE / 5 }, (whole(0), whole(40))).unwrap();
    let err = make_chain_tt(t_mul, t_sum).unwrap_err();
    assert_eq!(err.kind, ErrorKind::MetricSpace);
}

#[test]
fn test_chain_mt_rejects_mismatched_domains() {
    let t_sum = make_sum(bounded_vector_domain(0, 10, 5), Metric::SymmetricDistance).unwrap();
    // The scalar Laplace measurement expects an unbounded atom domain,
    // not the sum's bounded output domain.
    let m = make_base_laplace(whole(2)).unwrap();
    let err = make_chain_mt(m, t_sum).unwrap_err();
    assert_eq!(err.kind, ErrorKind::MetricSpace);
}

#[test]
fn test_chain_mt_composes_privacy_map() {
    // A full pipeline: the mean of bounded data, then Laplace noise on
    // the mean's output domain. The composed privacy map for a unit
    // distance is mean map (2) divided by the scale (2): exactly 1.
    let t_mean = make_mean(bounded_vector_domain(0, 10, 5), Metric::SymmetricDistance).unwrap();
    let out_domain = match t_mean.output_domain {
        Domain::Atom(a) => a,
        _ => panic!("the mean outputs a scalar"),
    };
    let m = make_base_laplace_on(out_domain, whole(2)).unwrap();
    let pipeline = make_chain_mt(m, t_mean).unwrap();
    assert!(pipeline.check(whole(1), whole(1)));
    assert!(!pipeline.check(whole(1), Fix { units: SCALE - 1 }));
    // Running the pipeline with a concrete noise value: mean 3, noise -1.
    let arg = Value::Vector(vec![whole(1), whole(2), whole(3), whole(4), whole(5)]);
    let out = pipeline
        .invoke_with_noise(&arg, &Value::Scalar(whole(-1)))
        .unwrap();
    assert_eq!(out, Value::Scalar(whole(2)));
}

#[test]
fn test_lipschitz_mul_rejects_bad_arguments() {
    let err = make_lipschitz_mul(whole(-1), (whole(0), whole(1))).unwrap_err();
    assert_eq!(err.kind, ErrorKind::MakeTransformation);
    let err = make_lipschitz_mul(whole(1), (whole(1), whole(0))).unwrap_err();
    assert_eq!(err.kind, ErrorKind::MakeTransformation);
}

#[test]
fn test_sum_overflow_is_rejected_at_construction() {
    let big = Fix { units: i64::MAX };
    let domain = VectorDomain::new(AtomDomain::new_closed((whole(0), big)).unwrap()).with_size(2);
    let err = make_sum(domain, Metric::SymmetricDistance).unwrap_err();
    assert_eq!(err.kind, ErrorKind::Overflow);
}

#[test]
fn test_chain_tt_composes_maps_and_functions() {
    let t_sum = make_sum(bounded_vector_domain(0, 10, 2), Metric::SymmetricDistance).unwrap();
    let bounds = match t_sum.output_domain {
        Domain::Atom(a) => a.bounds.unwrap(),
        _ => panic!("the sum outputs a scalar"),
    };
    let half = Fix { units: SCALE / 2 };
    let t_mul = make_lipschitz_mul(half, bounds).unwrap();
    let chained = make_chain_tt(t_mul, t_sum).unwrap();
    // Function composition: (4 + 6) * 0.5 == 5.
    let out = chained
        .invoke(&Value::Vector(vec![whole(4), whole(6)]))
        .unwrap();
    assert_eq!(out, Value::Scalar(whole(5)));
    // Map composition: width 10 then factor 0.5: map(1) == 5.
    match chained.stability_map.eval(whole(1)) {
        Bound::Finite(v) => assert_eq!(v, whole(5)),
        Bound::Infinite => panic!("the composed map is finite here"),
    }
}

#[test]
fn test_composition_soundness_on_sampled_pairs() {
    // For data pairs within distance 1 (one substituted record, which
    // is a symmetric difference of at most 2), the observed output
    // distance of the mean never exceeds the chained map's bound for 2.
    let t = make_mean(bounded_vector_domain(0, 10, 5), Metric::SymmetricDistance).unwrap();
    let bound = match t.stability_map.eval(whole(2)) {
        Bound::Finite(v) => v,
        Bound::Infinite => panic!("the mean's map is finite here"),
    };
    let base: Vec<i64> = vec![0, 2, 5, 7, 10];
    for position in 0..5usize {
        for replacement in [0i64, 1, 4, 9, 10] {
            let mut changed = base.clone();
            changed[position] = replacement;
            let v1 = t
                .invoke(&Value::Vector(base.iter().map(|&v| whole(v)).collect()))
                .unwrap();
            let v2 = t
                .invoke(&Value::Vector(changed.iter().map(|&v| whole(v)).collect()))
                .unwrap();
            let (a, b) = match (v1, v2) {
                (Value::Scalar(a), Value::Scalar(b)) => (a, b),
                _ => panic!("the mean outputs scalars"),
            };
            let observed = (a.units - b.units).abs();
            assert!(observed <= bound.units);
        }
    }
}
