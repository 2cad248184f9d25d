//! Signed fixed-point plane coordinates.
//!
//! A coordinate is a sign together with an unsigned magnitude counted in
//! units of `1 / SCALE`, so the mathematical value of `Fx { neg, mag }` is
//! `(if neg { -mag } else { mag }) / SCALE`. All contracts speak about the
//! scaled integer value, which makes every operation exact.

use vstd::arithmetic::div_mod::{lemma_div_is_ordered, lemma_div_of0, lemma_div_pos_is_pos};
use vstd::prelude::*;

verus! {

/// Number of fixed-point units per plane unit (2^24).
pub const SCALE: u64 = 16777216;

/// The signed value described by a sign flag and a magnitude.
pub open spec fn signed(neg: bool, mag: int) -> int {
    if neg {
        -mag
    } else {
        mag
    }
}

/// Absolute value of an integer.
pub open spec fn iabs(a: int) -> int {
    if a < 0 {
        -a
    } else {
        a
    }
}

/// Division truncated toward zero, the rounding used by every scaled
/// product and quotient in this crate. Spec-level `/` on `int` is
/// Euclidean, which agrees with truncation on non-negative numerators,
/// so the sign is split off first.
pub open spec fn tdiv(a: int, d: int) -> int {
    if (a < 0) != (d < 0) {
        -(iabs(a) / iabs(d))
    } else {
        iabs(a) / iabs(d)
    }
}

/// A fixed-point coordinate: `mag` units of `1 / SCALE`, negated when
/// `neg` is set. Canonical form stores zero as non-negative.
#[derive(Clone, Copy, Debug, PartialEq, Eq, Structural)]
pub struct Fx {
    pub neg: bool,
    pub mag: u64,
}

impl Fx {
    /// The exact integer value, in units of `1 / SCALE`.
    pub open spec fn value(self) -> int {
        signed(self.neg, self.mag as int)
    }

    /// Canonical representation: zero is never marked negative, so equal
    /// values have equal representations.
    pub open spec fn wf(self) -> bool {
        self.mag == 0 ==> !self.neg
    }

    /// Builds the canonical coordinate with the given sign and magnitude.
    pub fn new(neg: bool, mag: u64) -> (r: Fx)
        ensures
            r.wf(),
            r.value() == signed(neg, mag as int),
            r.mag == mag,
    {
        Fx { neg: neg && mag > 0, mag }
    }

    /// The coordinate of equal magnitude and opposite sign.
    pub fn negate(self) -> (r: Fx)
        requires
            self.wf(),
        ensures
            r.wf(),
            r.value() == -self.value(),
            r.mag == self.mag,
    {
        Fx::new(!self.neg, self.mag)
    }

    /// Exact sum of two coordinates.
    pub fn add(self, other: Fx) -> (r: Fx)
        requires
            self.wf(),
            other.wf(),
            self.mag + other.mag <= u64::MAX,
        ensures
            r.wf(),
            r.value() == self.value() + other.value(),
            r.mag <= self.mag + other.mag,
    {
        if self.neg == other.neg {
            Fx::new(self.neg, self.mag + other.mag)
        } else if self.mag >= other.mag {
            Fx::new(self.neg, self.mag - other.mag)
        } else {
            Fx::new(other.neg, other.mag - self.mag)
        }
    }

    /// Exact difference of two coordinates.
    pub fn sub(self, other: Fx) -> (r: Fx)
        requires
            self.wf(),
            other.wf(),
            self.mag + other.mag <= u64::MAX,
        ensures
            r.wf(),
            r.value() == self.value() - other.value(),
            r.mag <= self.mag + other.mag,
    {
        self.add(other.negate())
    }
}

/// A product of signed numbers is the signed product of the magnitudes,
/// negative exactly when the signs differ.
pub proof fn lemma_signed_mul(a_neg: bool, a_mag: int, b_neg: bool, b_mag: int)
    by (nonlinear_arith)
    requires
        a_mag >= 0,
        b_mag >= 0,
    ensures
        signed(a_neg, a_mag) * signed(b_neg, b_mag) == signed(a_neg != b_neg, a_mag * b_mag),
{
}

/// Truncated division of signed numbers works on the magnitudes and
/// combines the signs.
pub proof fn lemma_signed_tdiv(a_neg: bool, a_mag: int, d_neg: bool, d_mag: int)
    requires
        a_mag >= 0,
        d_mag > 0,
    ensures
        tdiv(signed(a_neg, a_mag), signed(d_neg, d_mag)) == signed(a_neg != d_neg, a_mag / d_mag),
{
    lemma_div_pos_is_pos(a_mag, d_mag);
    if a_mag == 0 {
        lemma_div_of0(d_mag);
    }
}

/// Truncated division by an exact divisor recovers the cofactor:
/// `(d * k) / d == k` for any non-zero `d`, whatever the signs.
pub proof fn lemma_tdiv_exact(k: int, d: int)
    requires
        d != 0,
    ensures
        tdiv(d * k, d) == k,
{
    let dn = d < 0;
    let kn = k < 0;
    lemma_signed_mul(dn, iabs(d), kn, iabs(k));
    assert(d == signed(dn, iabs(d)));
    assert(k == signed(kn, iabs(k)));
    lemma_signed_tdiv(dn != kn, iabs(d) * iabs(k), dn, iabs(d));
    assert(iabs(d) * iabs(k) / iabs(d) == iabs(k)) by {
        vstd::arithmetic::div_mod::lemma_div_multiples_vanish(iabs(k), iabs(d));
    }
}

/// Magnitude bound for a truncated quotient of signed numbers.
pub proof fn lemma_tdiv_bound(a: int, d: int, bound: int)
    requires
        d != 0,
        iabs(a) / iabs(d) <= bound,
    ensures
        iabs(tdiv(a, d)) <= bound,
{
    lemma_div_pos_is_pos(iabs(a), iabs(d));
}

/// A product of non-negative numbers is at most the larger square.
pub proof fn lemma_prod_le_square_max(a: int, b: int)
    by (nonlinear_arith)
    requires
        0 <= a,
        0 <= b,
    ensures
        a * b <= a * a || a * b <= b * b,
{
}

/// Division of a smaller non-negative numerator never yields more.
pub proof fn lemma_div_le(x: int, y: int, d: int)
    requires
        0 <= x <= y,
        0 < d,
    ensures
        x / d <= y / d,
{
    lemma_div_is_ordered(x, y, d);
}

} // verus!
