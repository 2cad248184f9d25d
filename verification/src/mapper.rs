//! Linear interpolation between a source and a target interval.
//!
//! `affine` carries a position inside `[floor_in, ceil_in]` to the
//! proportional position inside `[floor_out, ceil_out]`. Inputs outside the
//! source interval extrapolate linearly; only a zero-width source interval
//! is excluded, since it would divide by zero. The product is divided in
//! one fused step, so the endpoints map exactly.

use crate::fixed::{iabs, lemma_signed_mul, lemma_signed_tdiv, lemma_tdiv_exact, signed, tdiv, Fx};
use vstd::arithmetic::div_mod::lemma_div_of0;
use vstd::prelude::*;

verus! {

/// The exact value of the interpolation: the offset into the source
/// interval, rescaled by the ratio of the interval widths and shifted to
/// the target floor. The single truncated division is the only rounding.
pub open spec fn affine_spec(floor_in: int, val: int, ceil_in: int, floor_out: int, ceil_out: int) -> int {
    tdiv((val - floor_in) * (ceil_out - floor_out), ceil_in - floor_in) + floor_out
}

/// Maps `val` from the interval `[floor_in, ceil_in]` into the interval
/// `[floor_out, ceil_out]`, extrapolating outside it.
pub fn affine(floor_in: Fx, val: Fx, ceil_in: Fx, floor_out: Fx, ceil_out: Fx) -> (r: Fx)
    requires
        floor_in.wf(),
        val.wf(),
        ceil_in.wf(),
        floor_out.wf(),
        ceil_out.wf(),
        floor_in.value() != ceil_in.value(),
        val.mag + floor_in.mag <= u64::MAX,
        ceil_out.mag + floor_out.mag <= u64::MAX,
        ceil_in.mag + floor_in.mag <= u64::MAX,
        (val.mag + floor_in.mag) * (ceil_out.mag + floor_out.mag) <= u128::MAX,
        iabs((val.value() - floor_in.value()) * (ceil_out.value() - floor_out.value()))
            / iabs(ceil_in.value() - floor_in.value()) + floor_out.mag <= u64::MAX,
    ensures
        r.wf(),
        r.value() == affine_spec(
            floor_in.value(),
            val.value(),
            ceil_in.value(),
            floor_out.value(),
            ceil_out.value(),
        ),
        r.mag <= iabs((val.value() - floor_in.value()) * (ceil_out.value() - floor_out.value()))
            / iabs(ceil_in.value() - floor_in.value()) + floor_out.mag,
{
    let offset = val.sub(floor_in);
    let span_out = ceil_out.sub(floor_out);
    let span_in = ceil_in.sub(floor_in);
    proof {
        lemma_signed_mul(offset.neg, offset.mag as int, span_out.neg, span_out.mag as int);
        lemma_signed_tdiv(
            offset.neg != span_out.neg,
            offset.mag as int * span_out.mag as int,
            span_in.neg,
            span_in.mag as int,
        );
        assert(offset.mag * span_out.mag <= (val.mag + floor_in.mag) * (ceil_out.mag
            + floor_out.mag)) by {
            vstd::arithmetic::mul::lemma_mul_upper_bound(
                offset.mag as int,
                val.mag + floor_in.mag,
                span_out.mag as int,
                ceil_out.mag + floor_out.mag,
            );
        }
    }
    let num: u128 = (offset.mag as u128) * (span_out.mag as u128);
    let quot_mag: u128 = num / (span_in.mag as u128);
    let quot = Fx::new((offset.neg != span_out.neg) != span_in.neg, quot_mag as u64);
    quot.add(floor_out)
}

/// Boundary exactness of the affine map: the source floor lands exactly on
/// the target floor, and the source ceiling exactly on the target ceiling,
/// for every non-degenerate source interval.
pub proof fn lemma_affine_endpoints(floor_in: int, ceil_in: int, floor_out: int, ceil_out: int)
    requires
        floor_in != ceil_in,
    ensures
        affine_spec(floor_in, floor_in, ceil_in, floor_out, ceil_out) == floor_out,
        affine_spec(floor_in, ceil_in, ceil_in, floor_out, ceil_out) == ceil_out,
{
    let d = ceil_in - floor_in;
    assert(tdiv(0, d) == 0) by {
        lemma_div_of0(iabs(d));
    }
    lemma_tdiv_exact(ceil_out - floor_out, d);
    assert(d * (ceil_out - floor_out) == (ceil_in - floor_in) * (ceil_out - floor_out));
}

} // verus!
