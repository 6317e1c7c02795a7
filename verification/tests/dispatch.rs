use dp_core::bridge::{
    opendp_meas__make_base_laplace, opendp_meas__make_base_laplace_vec, parse_type_args,
    TypeToken,
};
use dp_core::domains::Value;
use dp_core::error::ErrorKind;
use dp_core::fixed::Fix;
use dp_core::measurements::{make_base_laplace, make_base_laplace_vec};

// 2.0 in native units (2_000_000_000 = 0x7735_9400), little-endian.
const TWO_F64: [u8; 8] = [0x00, 0x94, 0x35, 0x77, 0x00, 0x00, 0x00, 0x00];

// 2.0 in the coarser 32-bit grid (2_000_000 = 0x1E_8480), little-endian.
const TWO_F32: [u8; 4] = [0x80, 0x84, 0x1E, 0x00];

#[test]
fn test_dispatch_round_trip_f64() {
    let handle = opendp_meas__make_base_laplace(b"f64", &TWO_F64).unwrap();
    assert_eq!(handle.token, TypeToken::F64);
    let direct = make_base_laplace(Fix { units: 2_000_000_000 }).unwrap();
    let bridged = handle.into_inner();
    assert_eq!(bridged, direct);
    // Behaviorally identical: same privacy guarantee, same outputs.
    let one = Fix { units: 1_000_000_000 };
    let half = Fix { units: 500_000_000 };
    assert_eq!(bridged.check(one, half), direct.check(one, half));
    let arg = Value::Scalar(Fix { units: 7 });
    let noise = Value::Scalar(Fix { units: -3 });
    assert_eq!(
        bridged.invoke_with_noise(&arg, &noise).unwrap(),
        direct.invoke_with_noise(&arg, &noise).unwrap()
    );
}

#[test]
fn test_dispatch_round_trip_f32() {
    let handle = opendp_meas__make_base_laplace(b"f32", &TWO_F32).unwrap();
    assert_eq!(handle.token, TypeToken::F32);
    // The coarser grid denotes the same scale here.
    let direct = make_base_laplace(Fix { units: 2_000_000_000 }).unwrap();
    assert_eq!(handle.into_inner(), direct);
}

#[test]
fn test_dispatch_round_trip_vec() {
    let handle = opendp_meas__make_base_laplace_vec(b"f64", &TWO_F64).unwrap();
    let direct = make_base_laplace_vec(Fix { units: 2_000_000_000 }).unwrap();
    assert_eq!(handle.into_inner(), direct);
}

#[test]
fn test_dispatch_rejects_unsupported_token() {
    let err = opendp_meas__make_base_laplace(b"i32", &TWO_F64).unwrap_err();
    assert_eq!(err.kind, ErrorKind::TypeParse);
    assert_eq!(err.message, "unsupported type token");
}

#[test]
fn test_dispatch_rejects_wrong_arity() {
    let err = opendp_meas__make_base_laplace(b"f64,f32", &TWO_F64).unwrap_err();
    assert_eq!(err.kind, ErrorKind::TypeParse);
}

#[test]
fn test_dispatch_rejects_wrong_argument_width() {
    // A 4-byte buffer under the 8-byte token fails before any byte is
    // interpreted.
    let err = opendp_meas__make_base_laplace(b"f64", &TWO_F32).unwrap_err();
    assert_eq!(err.kind, ErrorKind::TypeParse);
    let err = opendp_meas__make_base_laplace(b"f32", &TWO_F64).unwrap_err();
    assert_eq!(err.kind, ErrorKind::TypeParse);
}

#[test]
fn test_dispatch_rejects_overflowing_scale() {
    let err = opendp_meas__make_base_laplace(b"f64", &[0xFF; 8]).unwrap_err();
    assert_eq!(err.kind, ErrorKind::Overflow);
}

#[test]
fn test_dispatch_propagates_constructor_error() {
    // A zero scale resolves and decodes, then the constructor rejects it.
    let err = opendp_meas__make_base_laplace(b"f64", &[0x00; 8]).unwrap_err();
    assert_eq!(err.kind, ErrorKind::MakeMeasurement);
}

#[test]
fn test_parse_type_args_multiple_tokens() {
    let toks = parse_type_args(b"f32,f64", 2).unwrap();
    assert_eq!(toks, vec![TypeToken::F32, TypeToken::F64]);
    assert!(parse_type_args(b"f32 f64", 2).is_err());
    assert!(parse_type_args(b"f32,f64", 1).is_err());
}
