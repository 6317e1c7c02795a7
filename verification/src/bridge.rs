//! The dispatch bridge: constructors for callers outside the library's
//! type system.
//!
//! A caller on the other side of a native-function boundary selects a
//! concrete numeric representation with a textual type descriptor and
//! hands every argument as an opaque little-endian byte buffer. The
//! bridge resolves the descriptor against the closed set of supported
//! tokens, validates the argument count and each buffer's width
//! *before* interpreting any byte, and only then invokes the
//! constructor, wrapping the result in a handle. An unsupported or
//! malformed descriptor fails loudly; there is no fallback type.

use vstd::prelude::*;

use crate::error::{Error, ErrorKind};
use crate::fixed::Fix;
use crate::measurements::{
    base_laplace_ok, base_laplace_vec_ok, make_base_laplace, make_base_laplace_vec, Measurement,
};

verus! {

/// A supported concrete numeric representation: the 32-bit token takes
/// 4-byte arguments on a microsecond-sized grid, the 64-bit token
/// 8-byte arguments on the library's native grid.
#[derive(Clone, Copy, PartialEq, Eq, Structural, Debug)]
pub enum TypeToken {
    /// The 32-bit representation: 4-byte arguments, coarser grid.
    F32,
    /// The 64-bit representation: 8-byte arguments, native grid.
    F64,
}

/// The token encoded at the start of a descriptor segment, if any.
/// The supported spellings are `f32` and `f64`.
pub open spec fn token_of(s: Seq<u8>) -> Option<TypeToken> {
    if s.len() == 3 && s[0] == 102 && s[1] == 51 && s[2] == 50 {
        Some(TypeToken::F32)
    } else if s.len() == 3 && s[0] == 102 && s[1] == 54 && s[2] == 52 {
        Some(TypeToken::F64)
    } else {
        None
    }
}

/// The byte width of an opaque argument of a token's type.
pub open spec fn token_width(t: TypeToken) -> int {
    match t {
        TypeToken::F32 => 4,
        TypeToken::F64 => 8,
    }
}

/// Whether a descriptor is exactly `n` comma-separated supported
/// tokens.
pub open spec fn well_formed_args(s: Seq<u8>, n: int) -> bool {
    &&& n >= 1
    &&& s.len() == 4 * n - 1
    &&& forall|i: int| 0 <= i < n ==> token_of(#[trigger] s.subrange(4 * i, 4 * i + 3)) is Some
    &&& forall|i: int| 0 <= i < n - 1 ==> #[trigger] s[4 * i + 3] == 44
}

/// The tokens of a well-formed descriptor.
pub open spec fn tokens_of(s: Seq<u8>, n: int) -> Seq<TypeToken> {
    Seq::new(n as nat, |i: int| token_of(s.subrange(4 * i, 4 * i + 3)).unwrap())
}

/// Parses a type descriptor into exactly `n` supported type tokens:
/// three-letter tokens separated by single commas. A descriptor with
/// the wrong arity, an unsupported token or a malformed separator is
/// rejected before any argument is looked at.
pub fn parse_type_args(args: &[u8], n: usize) -> (r: Result<Vec<TypeToken>, Error>)
    requires
        1 <= n <= 256,
    ensures
        match r {
            Ok(v) => well_formed_args(args@, n as int) && v@ == tokens_of(args@, n as int),
            Err(e) => !well_formed_args(args@, n as int) && e.kind == ErrorKind::TypeParse,
        },
{
    if args.len() != 4 * n - 1 {
        return Err(
            Error {
                kind: ErrorKind::TypeParse,
                message: "the type descriptor does not have the expected number of type arguments",
            },
        );
    }
    let mut out: Vec<TypeToken> = Vec::new();
    let mut i: usize = 0;
    while i < n
        invariant
            1 <= n <= 256,
            0 <= i <= n,
            args@.len() == 4 * n - 1,
            out@.len() == i,
            forall|j: int|
                0 <= j < i ==> token_of(#[trigger] args@.subrange(4 * j, 4 * j + 3)) is Some,
            forall|j: int|
                0 <= j < i ==> out@[j] == token_of(args@.subrange(4 * j, 4 * j + 3)).unwrap(),
            forall|j: int| 0 <= j < i && j < n - 1 ==> #[trigger] args@[4 * j + 3] == 44,
        decreases n - i,
    {
        let b0 = args[4 * i];
        let b1 = args[4 * i + 1];
        let b2 = args[4 * i + 2];
        let ghost seg = args@.subrange(4 * i as int, 4 * i as int + 3);
        proof {
            assert(seg.len() == 3);
            assert(seg[0] == b0 && seg[1] == b1 && seg[2] == b2);
        }
        let tok: TypeToken = if b0 == 102 && b1 == 51 && b2 == 50 {
            TypeToken::F32
        } else if b0 == 102 && b1 == 54 && b2 == 52 {
            TypeToken::F64
        } else {
            proof {
                assert(token_of(seg) is None);
            }
            return Err(
                Error { kind: ErrorKind::TypeParse, message: "unsupported type token" },
            );
        };
        if i + 1 < n {
            if args[4 * i + 3] != 44 {
                return Err(
                    Error {
                        kind: ErrorKind::TypeParse,
                        message: "type arguments must be separated by commas",
                    },
                );
            }
        }
        out.push(tok);
        i = i + 1;
    }
    proof {
        assert(out@ =~= tokens_of(args@, n as int));
    }
    Ok(out)
}

/// The value of a little-endian byte sequence.
pub open spec fn le_val(s: Seq<u8>) -> nat
    decreases s.len(),
{
    if s.len() == 0 {
        0
    } else {
        (s[0] + 256 * le_val(s.subrange(1, s.len() as int))) as nat
    }
}

/// An upper bound on the value of `k` little-endian bytes.
pub open spec fn pow256(k: nat) -> nat
    decreases k,
{
    if k == 0 {
        1
    } else {
        256 * pow256((k - 1) as nat)
    }
}

/// The value of a byte sequence is below `pow256` of its length.
proof fn lemma_le_val_bound(s: Seq<u8>)
    ensures
        le_val(s) < pow256(s.len()),
    decreases s.len(),
{
    if s.len() == 0 {
    } else {
        let rest = s.subrange(1, s.len() as int);
        lemma_le_val_bound(rest);
        assert(s[0] + 256 * le_val(rest) < 256 * pow256(rest.len())) by (nonlinear_arith)
            requires
                0 <= s[0] < 256,
                le_val(rest) < pow256(rest.len()),
        ;
    }
}

/// Reads an unsigned little-endian value of up to 8 bytes.
fn le_bytes_to_u64(b: &[u8]) -> (r: u64)
    requires
        1 <= b@.len() <= 8,
    ensures
        r == le_val(b@),
{
    proof {
        reveal_with_fuel(pow256, 9);
    }
    let mut acc: u64 = 0;
    let mut i: usize = b.len();
    while i > 0
        invariant
            0 <= i <= b@.len() <= 8,
            acc == le_val(b@.subrange(i as int, b@.len() as int)),
            acc < pow256((b@.len() - i) as nat),
            pow256(8) == 0x1_0000_0000_0000_0000,
            forall|k: nat| k < 8 ==> #[trigger] pow256(k) < pow256(8),
        decreases i,
    {
        let ghost old_tail = b@.subrange(i as int, b@.len() as int);
        let ghost new_tail = b@.subrange(i as int - 1, b@.len() as int);
        proof {
            assert(new_tail.subrange(1, new_tail.len() as int) =~= old_tail);
            assert(new_tail[0] == b@[i as int - 1]);
            assert(le_val(new_tail) == b@[i as int - 1] + 256 * le_val(old_tail));
            lemma_le_val_bound(new_tail);
            assert(new_tail.len() == b@.len() - i + 1);
        }
        acc = acc * 256 + (b[i - 1] as u64);
        i = i - 1;
    }
    proof {
        assert(b@.subrange(0, b@.len() as int) =~= b@);
    }
    acc
}

/// The scale units that an opaque buffer denotes under a token: the
/// 32-bit token uses a grid one thousand times coarser.
pub open spec fn decoded_units(t: TypeToken, s: Seq<u8>) -> int {
    match t {
        TypeToken::F32 => (le_val(s) * 1000) as int,
        TypeToken::F64 => le_val(s) as int,
    }
}

/// Decodes an opaque scale argument once its token is resolved: the
/// buffer must have exactly the width of the token's type, and the
/// value must fit the numeric range.
fn decode_scale(t: TypeToken, scale: &[u8]) -> (r: Result<Fix, Error>)
    ensures
        match r {
            Ok(f) => scale@.len() == token_width(t) && 0 <= decoded_units(t, scale@)
                <= i64::MAX && f@ == decoded_units(t, scale@),
            Err(e) => if scale@.len() != token_width(t) {
                e.kind == ErrorKind::TypeParse
            } else {
                e.kind == ErrorKind::Overflow && decoded_units(t, scale@) > i64::MAX
            },
        },
{
    let width: usize = match t {
        TypeToken::F32 => 4,
        TypeToken::F64 => 8,
    };
    if scale.len() != width {
        return Err(
            Error {
                kind: ErrorKind::TypeParse,
                message: "the opaque argument does not have the width of the resolved type",
            },
        );
    }
    let raw: u64 = le_bytes_to_u64(scale);
    match t {
        TypeToken::F32 => {
            proof {
                reveal_with_fuel(pow256, 5);
                lemma_le_val_bound(scale@);
                assert(le_val(scale@) * 1000 < 0x1_0000_0000u64 * 1000) by (nonlinear_arith)
                    requires
                        le_val(scale@) < 0x1_0000_0000,
                ;
            }
            Ok(Fix { units: (raw as i64) * 1000 })
        },
        TypeToken::F64 => {
            if raw > 0x7fff_ffff_ffff_ffffu64 {
                Err(
                    Error {
                        kind: ErrorKind::Overflow,
                        message: "the scale does not fit the numeric range",
                    },
                )
            } else {
                Ok(Fix { units: raw as i64 })
            }
        },
    }
}

/// A handle to a constructed measurement, tagged with the numeric
/// representation it was built for.
#[derive(PartialEq, Eq, Debug)]
pub struct FfiMeasurement {
    /// The representation the caller selected.
    pub token: TypeToken,
    /// The constructed measurement.
    pub inner: Measurement,
}

impl FfiMeasurement {
    /// Decodes the handle back into the measurement it wraps.
    pub fn into_inner(self) -> (r: Measurement)
        ensures
            r == self.inner,
    {
        self.inner
    }
}

/// Makes a scalar Laplace measurement through the dispatch bridge: the
/// descriptor selects one supported numeric type, and the opaque scale
/// buffer is interpreted only after the token and the buffer width
/// have been validated. The handle wraps exactly the measurement that
/// the in-process constructor builds for the decoded scale.
#[allow(non_snake_case)]
pub fn opendp_meas__make_base_laplace(type_args: &[u8], scale: &[u8]) -> (r: Result<
    FfiMeasurement,
    Error,
>)
    ensures
        match r {
            Ok(h) => {
                &&& well_formed_args(type_args@, 1)
                &&& h.token == tokens_of(type_args@, 1)[0]
                &&& scale@.len() == token_width(h.token)
                &&& 0 < decoded_units(h.token, scale@) <= i64::MAX
                &&& base_laplace_ok(
                    h.inner,
                    Fix { units: decoded_units(h.token, scale@) as i64 },
                )
            },
            Err(e) => if !well_formed_args(type_args@, 1) {
                e.kind == ErrorKind::TypeParse
            } else if scale@.len() != token_width(tokens_of(type_args@, 1)[0]) {
                e.kind == ErrorKind::TypeParse
            } else if decoded_units(tokens_of(type_args@, 1)[0], scale@) > i64::MAX {
                e.kind == ErrorKind::Overflow
            } else {
                e.kind == ErrorKind::MakeMeasurement && decoded_units(
                    tokens_of(type_args@, 1)[0],
                    scale@,
                ) <= 0
            },
        },
{
    let toks = match parse_type_args(type_args, 1) {
        Ok(v) => v,
        Err(e) => {
            return Err(e);
        },
    };
    let tok = toks[0];
    let scale_fix = match decode_scale(tok, scale) {
        Ok(f) => f,
        Err(e) => {
            return Err(e);
        },
    };
    match make_base_laplace(scale_fix) {
        Ok(m) => Ok(FfiMeasurement { token: tok, inner: m }),
        Err(e) => Err(e),
    }
}

/// Makes a vector Laplace measurement through the dispatch bridge, in
/// the same way as the scalar form.
#[allow(non_snake_case)]
pub fn opendp_meas__make_base_laplace_vec(type_args: &[u8], scale: &[u8]) -> (r: Result<
    FfiMeasurement,
    Error,
>)
    ensures
        match r {
            Ok(h) => {
                &&& well_formed_args(type_args@, 1)
                &&& h.token == tokens_of(type_args@, 1)[0]
                &&& scale@.len() == token_width(h.token)
                &&& 0 < decoded_units(h.token, scale@) <= i64::MAX
                &&& base_laplace_vec_ok(
                    h.inner,
                    Fix { units: decoded_units(h.token, scale@) as i64 },
                )
            },
            Err(e) => if !well_formed_args(type_args@, 1) {
                e.kind == ErrorKind::TypeParse
            } else if scale@.len() != token_width(tokens_of(type_args@, 1)[0]) {
                e.kind == ErrorKind::TypeParse
            } else if decoded_units(tokens_of(type_args@, 1)[0], scale@) > i64::MAX {
                e.kind == ErrorKind::Overflow
            } else {
                e.kind == ErrorKind::MakeMeasurement && decoded_units(
                    tokens_of(type_args@, 1)[0],
                    scale@,
                ) <= 0
            },
        },
{
    let toks = match parse_type_args(type_args, 1) {
        Ok(v) => v,
        Err(e) => {
            return Err(e);
        },
    };
    let tok = toks[0];
    let scale_fix = match decode_scale(tok, scale) {
        Ok(f) => f,
        Err(e) => {
            return Err(e);
        },
    };
    match make_base_laplace_vec(scale_fix) {
        Ok(m) => Ok(FfiMeasurement { token: tok, inner: m }),
        Err(e) => Err(e),
    }
}

} // verus!
