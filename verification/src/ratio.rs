//! Exact rational numbers.
//!
//! [`Rat`] is the executable representation: a signed numerator over a
//! positive denominator, both `i64`. Nothing here reduces fractions; every
//! operation states in its contract exactly which numerator and denominator
//! it produces, so equal values may have different representations.
//! Contracts compare values with the cross-multiplied predicates on the
//! ghost counterpart [`Qr`], whose fields are unbounded integers.

use vstd::prelude::*;

verus! {

/// An exact rational number: `num / den` with `den > 0`.
#[derive(Clone, Copy, Debug, PartialEq, Eq, Structural)]
pub struct Rat {
    pub num: i64,
    pub den: i64,
}

/// Ghost-level rational with unbounded fields, used in specifications.
pub struct Qr {
    pub n: int,
    pub d: int,
}

/// The ghost value of an executable rational.
pub open spec fn qr(r: Rat) -> Qr {
    Qr { n: r.num as int, d: r.den as int }
}

/// Well-formedness: the denominator is positive.
pub open spec fn rat_wf(r: Rat) -> bool {
    r.den > 0
}

/// Well-formedness of a ghost rational.
pub open spec fn q_wf(q: Qr) -> bool {
    q.d > 0
}

/// Value equality of two ghost rationals, by cross multiplication.
/// Sound as an equality only when both denominators are positive.
pub open spec fn q_eq(a: Qr, b: Qr) -> bool {
    a.n * b.d == b.n * a.d
}

/// `a <= b` on ghost rationals with positive denominators.
pub open spec fn q_le(a: Qr, b: Qr) -> bool {
    a.n * b.d <= b.n * a.d
}

/// `a < b` on ghost rationals with positive denominators.
pub open spec fn q_lt(a: Qr, b: Qr) -> bool {
    a.n * b.d < b.n * a.d
}

/// The ghost rational for an integer.
pub open spec fn q_int(n: int) -> Qr {
    Qr { n: n, d: 1 }
}

/// Product of two ghost rationals.
pub open spec fn q_mul(a: Qr, b: Qr) -> Qr {
    Qr { n: a.n * b.n, d: a.d * b.d }
}

/// Sum of two ghost rationals.
pub open spec fn q_add(a: Qr, b: Qr) -> Qr {
    Qr { n: a.n * b.d + b.n * a.d, d: a.d * b.d }
}

/// A product of values bounded in magnitude is bounded by the product of
/// the bounds.
pub proof fn lemma_mul_bound(a: int, b: int, aa: int, bb: int)
    by (nonlinear_arith)
    requires
        -aa <= a <= aa,
        -bb <= b <= bb,
        0 <= aa,
        0 <= bb,
    ensures
        -(aa * bb) <= a * b <= aa * bb,
{
}

/// The product of two positive integers is positive.
pub proof fn lemma_pos_mul(a: int, b: int)
    by (nonlinear_arith)
    requires
        a > 0,
        b > 0,
    ensures
        a * b > 0,
{
}

} // verus!
