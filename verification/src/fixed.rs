//! Exact fixed-point arithmetic for data values and distance bounds.
//!
//! Every numeric quantity in the library — data atoms, domain bounds,
//! dataset distances and privacy-loss bounds — is a [`Fix`]: a signed
//! count of units of `1 / SCALE`. Arithmetic on distance bounds rounds
//! away from zero (`mul_up`), so a computed bound is never smaller than
//! the exact one; arithmetic on data rounds toward zero (`mul_trunc`).
//! Every operation reports overflow instead of wrapping.

use vstd::prelude::*;

verus! {

/// Number of fixed-point units per whole unit.
pub const SCALE: i64 = 1_000_000_000;

/// A signed fixed-point number: `units / SCALE`.
#[derive(Clone, Copy, PartialEq, Eq, Structural, Debug)]
pub struct Fix {
    /// The value in units of `1 / SCALE`.
    pub units: i64,
}

impl View for Fix {
    type V = int;

    open spec fn view(&self) -> int {
        self.units as int
    }
}

/// Truncating division of a unit product by `SCALE`: rounds toward zero.
pub open spec fn trunc_scale(p: int) -> int {
    if p >= 0 {
        p / (SCALE as int)
    } else {
        -((-p) / (SCALE as int))
    }
}

/// Ceiling division of a nonnegative unit product by `SCALE`.
pub open spec fn ceil_scale(p: int) -> int
    recommends
        p >= 0,
{
    (p + (SCALE - 1)) / (SCALE as int)
}

impl Fix {
    /// The value zero.
    pub fn zero() -> (r: Fix)
        ensures
            r@ == 0,
    {
        Fix { units: 0 }
    }

    /// The whole number `v`, if it is representable.
    pub fn from_int(v: i64) -> (r: Option<Fix>)
        ensures
            match r {
                Some(f) => f@ == v * (SCALE as int),
                None => !fits_i64(v * (SCALE as int)),
            },
    {
        if v > 9_223_372_036i64 || v < -9_223_372_036i64 {
            proof {
                lemma_scaled_out_of_range(v as int);
            }
            None
        } else {
            proof {
                lemma_scaled_in_range(v as int);
            }
            Some(Fix { units: v * SCALE })
        }
    }

    /// The whole number `n`, for a record count, if it is representable.
    pub fn from_count(n: u64) -> (r: Option<Fix>)
        ensures
            match r {
                Some(f) => f@ == n * (SCALE as int) && ((f@ > 0) <==> (n > 0)),
                None => n * (SCALE as int) > i64::MAX,
            },
    {
        if n > 9_223_372_036u64 {
            proof {
                assert((n as int) * (SCALE as int) > i64::MAX) by (nonlinear_arith)
                    requires
                        n > 9_223_372_036,
                ;
            }
            None
        } else {
            proof {
                assert(0 <= (n as int) * (SCALE as int) <= i64::MAX && (((n as int) * (
                SCALE as int) > 0) <==> (n > 0))) by (nonlinear_arith)
                    requires
                        0 <= n <= 9_223_372_036,
                ;
            }
            Some(Fix { units: (n as i64) * SCALE })
        }
    }

    /// Whether `self <= other` as values.
    pub fn le(&self, other: &Fix) -> (r: bool)
        ensures
            r == (self@ <= other@),
    {
        self.units <= other.units
    }
}

/// Whether a mathematical integer fits the unit range of a `Fix`.
pub open spec fn fits_i64(v: int) -> bool {
    i64::MIN <= v <= i64::MAX
}

/// Whether a mathematical integer fits the symmetric unit range used by
/// the sign-magnitude operations.
pub open spec fn fits_sym(v: int) -> bool {
    -(i64::MAX as int) <= v <= i64::MAX as int
}

/// Exact checked addition of unit counts.
pub fn checked_add(a: Fix, b: Fix) -> (r: Option<Fix>)
    ensures
        match r {
            Some(f) => f@ == a@ + b@,
            None => !fits_i64(a@ + b@),
        },
{
    let s: i128 = (a.units as i128) + (b.units as i128);
    if s > i64::MAX as i128 || s < i64::MIN as i128 {
        None
    } else {
        Some(Fix { units: s as i64 })
    }
}

/// Exact checked subtraction of unit counts.
pub fn checked_sub(a: Fix, b: Fix) -> (r: Option<Fix>)
    ensures
        match r {
            Some(f) => f@ == a@ - b@,
            None => !fits_i64(a@ - b@),
        },
{
    let s: i128 = (a.units as i128) - (b.units as i128);
    if s > i64::MAX as i128 || s < i64::MIN as i128 {
        None
    } else {
        Some(Fix { units: s as i64 })
    }
}

/// Multiplication of two nonnegative values, rounded up: the result is
/// never smaller than the exact product. Used for distance bounds.
pub fn mul_up(a: Fix, b: Fix) -> (r: Option<Fix>)
    requires
        a@ >= 0,
        b@ >= 0,
    ensures
        match r {
            Some(f) => f@ == ceil_scale(a@ * b@) && f@ >= 0,
            None => ceil_scale(a@ * b@) > i64::MAX,
        },
{
    proof {
        assert((a.units as int) * (b.units as int) < 0x4000_0000_0000_0000_0000_0000_0000_0000int
            && (a.units as int) * (b.units as int) >= 0) by (nonlinear_arith)
            requires
                0 <= a.units as int <= i64::MAX,
                0 <= b.units as int <= i64::MAX,
        ;
    }
    let p: u128 = (a.units as u128) * (b.units as u128);
    let q: u128 = (p + (SCALE as u128 - 1)) / (SCALE as u128);
    proof {
        vstd::arithmetic::div_mod::lemma_div_pos_is_pos(p as int + (SCALE - 1), SCALE as int);
    }
    if q > i64::MAX as u128 {
        None
    } else {
        Some(Fix { units: q as i64 })
    }
}

/// The magnitude of a value as a `u64`.
fn magnitude(x: Fix) -> (r: u64)
    ensures
        r == if x@ >= 0 { x@ } else { -x@ },
{
    if x.units >= 0 {
        x.units as u64
    } else {
        (-(x.units as i128)) as u64
    }
}

/// Multiplication of a data value by a nonnegative constant, rounded
/// toward zero. Used for data, not for distance bounds.
pub fn mul_trunc(c: Fix, x: Fix) -> (r: Option<Fix>)
    requires
        c@ >= 0,
    ensures
        match r {
            Some(f) => f@ == trunc_scale(c@ * x@) && fits_sym(trunc_scale(c@ * x@)),
            None => !fits_sym(trunc_scale(c@ * x@)),
        },
{
    let xm: u64 = magnitude(x);
    proof {
        assert((c.units as int) * (xm as int) < 0x4000_0000_0000_0000_0000_0000_0000_0000int
            && (c.units as int) * (xm as int) >= 0) by (nonlinear_arith)
            requires
                0 <= c.units as int <= i64::MAX,
                0 <= xm as int <= 0x8000_0000_0000_0000u64 as int,
        ;
        if x@ < 0 {
            assert(c@ * x@ == -(c@ * (xm as int))) by (nonlinear_arith)
                requires
                    xm as int == -(x@),
            ;
        }
        lemma_trunc_neg(c@ * (xm as int));
    }
    let m: u128 = (c.units as u128) * (xm as u128);
    let q: u128 = m / (SCALE as u128);
    proof {
        vstd::arithmetic::div_mod::lemma_div_pos_is_pos(m as int, SCALE as int);
    }
    if q > i64::MAX as u128 {
        None
    } else {
        if x.units >= 0 {
            Some(Fix { units: q as i64 })
        } else {
            Some(Fix { units: -(q as i64) })
        }
    }
}

/// Exact multiplication of a value by a record count.
pub fn count_mul(n: u64, x: Fix) -> (r: Option<Fix>)
    ensures
        match r {
            Some(f) => f@ == n * x@ && fits_sym(n * x@),
            None => !fits_sym(n * x@),
        },
{
    let xm: u64 = magnitude(x);
    proof {
        assert((n as int) * (xm as int) <= (u64::MAX as int) * (u64::MAX as int)
            && (n as int) * (xm as int) >= 0) by (nonlinear_arith)
            requires
                0 <= n as int <= u64::MAX as int,
                0 <= xm as int <= u64::MAX as int,
        ;
        assert((u64::MAX as int) * (u64::MAX as int) <= u128::MAX as int);
        if x@ < 0 {
            assert((n as int) * x@ == -((n as int) * (xm as int))) by (nonlinear_arith)
                requires
                    xm as int == -(x@),
            ;
        }
    }
    let m: u128 = (n as u128) * (xm as u128);
    if m > i64::MAX as u128 {
        None
    } else {
        if x.units >= 0 {
            Some(Fix { units: m as i64 })
        } else {
            Some(Fix { units: -(m as i64) })
        }
    }
}

/// The reciprocal of a positive value, rounded up.
pub fn recip_up(x: Fix) -> (r: Fix)
    requires
        x@ > 0,
    ensures
        r@ == recip_up_units(x@),
        r@ > 0,
{
    proof {
        assert((SCALE as int) * (SCALE as int) == 1_000_000_000_000_000_000int);
        vstd::arithmetic::div_mod::lemma_div_pos_is_pos(
            1_000_000_000_000_000_000int + x@ - 1,
            x@,
        );
        assert(((1_000_000_000_000_000_000int + x@ - 1) / x@) <= 1_000_000_000_000_000_000int)
            by (nonlinear_arith)
            requires
                1 <= x@,
        ;
        assert(((1_000_000_000_000_000_000int + x@ - 1) / x@) >= 1) by (nonlinear_arith)
            requires
                1 <= x@ <= i64::MAX as int,
        ;
    }
    let q: u128 = (1_000_000_000_000_000_000u128 + (x.units as u128) - 1) / (x.units as u128);
    Fix { units: q as i64 }
}

/// Units of the rounded-up reciprocal of a positive value.
pub open spec fn recip_up_units(x: int) -> int
    recommends
        x > 0,
{
    ((SCALE as int) * (SCALE as int) + x - 1) / x
}

/// Truncating division commutes with negation of the dividend.
proof fn lemma_trunc_neg(m: int)
    requires
        m >= 0,
    ensures
        trunc_scale(-m) == -(m / (SCALE as int)),
        trunc_scale(m) == m / (SCALE as int),
{
}


/// A quotient is at least `k` once the dividend reaches `SCALE * k`.
proof fn lemma_div_lower(x: int, k: int)
    requires
        x >= (SCALE as int) * k,
    ensures
        x / (SCALE as int) >= k,
{
    vstd::arithmetic::div_mod::lemma_div_is_ordered((SCALE as int) * k, x, SCALE as int);
    vstd::arithmetic::div_mod::lemma_div_multiples_vanish(k, SCALE as int);
}

/// Flooring both ends of an interval never stretches it beyond the
/// rounded-up width.
proof fn lemma_floor_diff(x: int, y: int)
    requires
        0 <= y <= x,
    ensures
        x / (SCALE as int) - y / (SCALE as int) <= ceil_scale(x - y),
{
    let s = SCALE as int;
    vstd::arithmetic::div_mod::lemma_fundamental_div_mod(x, s);
    vstd::arithmetic::div_mod::lemma_fundamental_div_mod(y, s);
    let k = x / s - y / s;
    assert(x - y + s - 1 >= s * k) by (nonlinear_arith)
        requires
            x == s * (x / s) + x % s,
            y == s * (y / s) + y % s,
            0 <= x % s < s,
            0 <= y % s < s,
            k == x / s - y / s,
    ;
    lemma_div_lower(x - y + s - 1, k);
}

/// The sum of two floors is at most the rounded-up quotient of the sum.
proof fn lemma_floor_add(a: int, b: int)
    requires
        a >= 0,
        b >= 0,
    ensures
        a / (SCALE as int) + b / (SCALE as int) <= ceil_scale(a + b),
{
    let s = SCALE as int;
    vstd::arithmetic::div_mod::lemma_fundamental_div_mod(a, s);
    vstd::arithmetic::div_mod::lemma_fundamental_div_mod(b, s);
    let k = a / s + b / s;
    assert(a + b + s - 1 >= s * k) by (nonlinear_arith)
        requires
            a == s * (a / s) + a % s,
            b == s * (b / s) + b % s,
            0 <= a % s < s,
            0 <= b % s < s,
            k == a / s + b / s,
    ;
    lemma_div_lower(a + b + s - 1, k);
}

/// Truncating both ends of an interval never stretches it beyond the
/// rounded-up width: the distance between two truncated quotients is
/// bounded by the rounded-up quotient of the distance.
pub proof fn lemma_trunc_diff_bound(p: int, q: int)
    requires
        q <= p,
    ensures
        trunc_scale(p) - trunc_scale(q) <= ceil_scale(p - q),
{
    if q >= 0 {
        lemma_floor_diff(p, q);
    } else if p < 0 {
        lemma_floor_diff(-q, -p);
    } else {
        lemma_floor_add(p, -q);
    }
}

/// Truncation toward zero is monotone.
pub proof fn lemma_trunc_monotone(a: int, b: int)
    requires
        a <= b,
    ensures
        trunc_scale(a) <= trunc_scale(b),
{
    if a >= 0 {
        vstd::arithmetic::div_mod::lemma_div_is_ordered(a, b, SCALE as int);
    } else if b < 0 {
        vstd::arithmetic::div_mod::lemma_div_is_ordered(-b, -a, SCALE as int);
    } else {
        vstd::arithmetic::div_mod::lemma_div_pos_is_pos(-a, SCALE as int);
        vstd::arithmetic::div_mod::lemma_div_pos_is_pos(b, SCALE as int);
    }
}

/// Rounding up is monotone on nonnegative products.
pub proof fn lemma_ceil_monotone(p1: int, p2: int)
    requires
        0 <= p1 <= p2,
    ensures
        0 <= ceil_scale(p1) <= ceil_scale(p2),
{
    vstd::arithmetic::div_mod::lemma_div_is_ordered(
        p1 + (SCALE - 1),
        p2 + (SCALE - 1),
        SCALE as int,
    );
    vstd::arithmetic::div_mod::lemma_div_pos_is_pos(p1 + (SCALE - 1), SCALE as int);
}

/// The rounded-up quotient never under-reports: `ceil_scale(p) * SCALE >= p`.
pub proof fn lemma_ceil_sound(p: int)
    requires
        p >= 0,
    ensures
        ceil_scale(p) * (SCALE as int) >= p,
{
    vstd::arithmetic::div_mod::lemma_fundamental_div_mod(p + (SCALE - 1), SCALE as int);
    assert(ceil_scale(p) * (SCALE as int) >= p) by (nonlinear_arith)
        requires
            p + (SCALE - 1) == (SCALE as int) * ceil_scale(p) + (p + (SCALE - 1)) % (
            SCALE as int),
            0 <= (p + (SCALE - 1)) % (SCALE as int) < SCALE as int,
    ;
}

proof fn lemma_scaled_in_range(v: int)
    by (nonlinear_arith)
    requires
        -9_223_372_036 <= v <= 9_223_372_036,
    ensures
        fits_i64(v * (SCALE as int)),
{
}

proof fn lemma_scaled_out_of_range(v: int)
    by (nonlinear_arith)
    requires
        v > 9_223_372_036 || v < -9_223_372_036,
    ensures
        !fits_i64(v * (SCALE as int)),
{
}

} // verus!
