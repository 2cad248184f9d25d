//! Bounded escape-time evaluation of the orbit `z(0) = 0`,
//! `z(n + 1) = z(n) * z(n) + c` over fixed-point complex points.
//!
//! A point escapes at index `i` when the squared magnitude of `z(i)`
//! exceeds 4, tested before the update at that step. The orbit itself is
//! defined as a spec function with exactly the rounding the executable
//! arithmetic performs, so the evaluator's result is pinned completely.

use crate::fixed::{
    lemma_div_le, lemma_prod_le_square_max, lemma_signed_mul, lemma_signed_tdiv, tdiv, Fx, SCALE,
};
use vstd::arithmetic::div_mod::lemma_div_of0;
use vstd::prelude::*;

verus! {

/// Largest coordinate magnitude a point handed to the evaluator may have
/// (2^62 fixed-point units): keeps every intermediate product inside
/// `u128` and every stored magnitude inside `u64`.
pub const COORD_LIMIT: u64 = 4611686018427387904;

/// Squared-magnitude escape threshold, `4.0` in fixed-point units
/// (`4 * SCALE`).
pub const ESCAPE_THRESHOLD: u64 = 67108864;

/// Largest magnitude an orbit coordinate can reach before the escape test
/// stops the iteration (`8 * SCALE + COORD_LIMIT`).
pub const ORBIT_MAG_LIMIT: u64 = 4611686018561605632;

/// A point of the complex plane in fixed-point coordinates.
#[derive(Clone, Copy, Debug, PartialEq, Eq, Structural)]
pub struct Complex {
    pub re: Fx,
    pub im: Fx,
}

impl Complex {
    /// Canonical coordinates within the evaluator's working range.
    pub open spec fn wf(self) -> bool {
        &&& self.re.wf()
        &&& self.im.wf()
        &&& self.re.mag <= COORD_LIMIT
        &&& self.im.mag <= COORD_LIMIT
    }
}

/// The orbit of 0 under `z * z + c` in fixed-point arithmetic: every
/// product is scaled back by `SCALE` with truncation toward zero.
pub open spec fn orbit(cre: int, cim: int, n: nat) -> (int, int)
    decreases n,
{
    if n == 0 {
        (0, 0)
    } else {
        let z = orbit(cre, cim, (n - 1) as nat);
        (
            tdiv(z.0 * z.0, SCALE as int) - tdiv(z.1 * z.1, SCALE as int) + cre,
            2 * tdiv(z.0 * z.1, SCALE as int) + cim,
        )
    }
}

/// Squared magnitude of the n-th orbit point, in fixed-point units.
pub open spec fn orbit_norm_sqr(cre: int, cim: int, n: nat) -> int {
    let z = orbit(cre, cim, n);
    tdiv(z.0 * z.0, SCALE as int) + tdiv(z.1 * z.1, SCALE as int)
}

/// Whether the orbit of `c` has left the disk of radius 2 at index `n`.
pub open spec fn escapes_at(cre: int, cim: int, n: nat) -> bool {
    orbit_norm_sqr(cre, cim, n) > ESCAPE_THRESHOLD as int
}

/// First index in `[i, limit)` at which the orbit escapes, if any.
pub open spec fn escape_from(cre: int, cim: int, i: nat, limit: nat) -> Option<nat>
    decreases limit - i,
{
    if i >= limit {
        None
    } else if escapes_at(cre, cim, i) {
        Some(i)
    } else {
        escape_from(cre, cim, i + 1, limit)
    }
}

/// First index in `[0, limit)` at which the orbit escapes, if any.
pub open spec fn escape_time(cre: int, cim: int, limit: nat) -> Option<nat> {
    escape_from(cre, cim, 0, limit)
}

/// Returns the first iteration index below `limit` at which the orbit of
/// `c` escapes, and `None` when it stays within the disk for all of them.
pub fn point_z_value(c: Complex, limit: usize) -> (r: Option<usize>)
    requires
        c.wf(),
    ensures
        match r {
            Some(i) => {
                &&& i < limit
                &&& escapes_at(c.re.value(), c.im.value(), i as nat)
                &&& (forall|j: nat| j < i ==> !escapes_at(c.re.value(), c.im.value(), j))
                &&& escape_time(c.re.value(), c.im.value(), limit as nat) == Some(i as nat)
            },
            None => {
                &&& (forall|j: nat| j < limit ==> !escapes_at(c.re.value(), c.im.value(), j))
                &&& escape_time(c.re.value(), c.im.value(), limit as nat) == None::<nat>
            },
        },
{
    let mut zre = Fx::new(false, 0);
    let mut zim = Fx::new(false, 0);
    let mut i: usize = 0;
    while i < limit
        invariant
            c.wf(),
            i <= limit,
            zre.wf(),
            zim.wf(),
            zre.mag <= ORBIT_MAG_LIMIT,
            zim.mag <= ORBIT_MAG_LIMIT,
            (zre.value(), zim.value()) == orbit(c.re.value(), c.im.value(), i as nat),
            forall|j: nat| j < i ==> !escapes_at(c.re.value(), c.im.value(), j),
            escape_from(c.re.value(), c.im.value(), 0, limit as nat) == escape_from(
                c.re.value(),
                c.im.value(),
                i as nat,
                limit as nat,
            ),
        decreases limit - i,
    {
        proof {
            assert((zre.mag as int) * (zre.mag as int)
                <= 0x40000000000000000000000000000000) by (nonlinear_arith)
                requires
                    zre.mag <= 4611686018561605632u64,
            ;
            assert((zim.mag as int) * (zim.mag as int)
                <= 0x40000000000000000000000000000000) by (nonlinear_arith)
                requires
                    zim.mag <= 4611686018561605632u64,
            ;
            vstd::arithmetic::div_mod::lemma_div_nonincreasing(
                (zre.mag as int) * (zre.mag as int),
                SCALE as int,
            );
            vstd::arithmetic::div_mod::lemma_div_nonincreasing(
                (zim.mag as int) * (zim.mag as int),
                SCALE as int,
            );
            lemma_signed_mul(zre.neg, zre.mag as int, zre.neg, zre.mag as int);
            lemma_signed_mul(zim.neg, zim.mag as int, zim.neg, zim.mag as int);
            lemma_signed_tdiv(false, (zre.mag as int) * (zre.mag as int), false, SCALE as int);
            lemma_signed_tdiv(false, (zim.mag as int) * (zim.mag as int), false, SCALE as int);
        }
        let n1: u128 = (zre.mag as u128) * (zre.mag as u128) / (SCALE as u128);
        let n2: u128 = (zim.mag as u128) * (zim.mag as u128) / (SCALE as u128);
        proof {
            assert(n1 as int == tdiv(zre.value() * zre.value(), SCALE as int));
            assert(n2 as int == tdiv(zim.value() * zim.value(), SCALE as int));
            assert(n1 + n2 == orbit_norm_sqr(c.re.value(), c.im.value(), i as nat));
        }
        if n1 + n2 > ESCAPE_THRESHOLD as u128 {
            proof {
                assert(escapes_at(c.re.value(), c.im.value(), i as nat));
            }
            return Some(i);
        }
        let t1: u64 = n1 as u64;
        let t2: u64 = n2 as u64;
        proof {
            lemma_prod_le_square_max(zre.mag as int, zim.mag as int);
            if (zre.mag as int) * (zim.mag as int) <= (zre.mag as int) * (zre.mag as int) {
                lemma_div_le(
                    (zre.mag as int) * (zim.mag as int),
                    (zre.mag as int) * (zre.mag as int),
                    SCALE as int,
                );
            } else {
                lemma_div_le(
                    (zre.mag as int) * (zim.mag as int),
                    (zim.mag as int) * (zim.mag as int),
                    SCALE as int,
                );
            }
            lemma_signed_mul(zre.neg, zre.mag as int, zim.neg, zim.mag as int);
            lemma_signed_tdiv(
                zre.neg != zim.neg,
                (zre.mag as int) * (zim.mag as int),
                false,
                SCALE as int,
            );
        }
        let p: u128 = (zre.mag as u128) * (zim.mag as u128) / (SCALE as u128);
        let t3: u64 = p as u64;
        let re_diff = if t1 >= t2 {
            Fx::new(false, t1 - t2)
        } else {
            Fx::new(true, t2 - t1)
        };
        let new_re = re_diff.add(c.re);
        let im_twice = Fx::new(zre.neg != zim.neg, 2 * t3);
        let new_im = im_twice.add(c.im);
        proof {
            assert(re_diff.value() == tdiv(zre.value() * zre.value(), SCALE as int) - tdiv(
                zim.value() * zim.value(),
                SCALE as int,
            ));
            assert(im_twice.value() == 2 * tdiv(zre.value() * zim.value(), SCALE as int));
            assert((new_re.value(), new_im.value()) == orbit(
                c.re.value(),
                c.im.value(),
                (i + 1) as nat,
            ));
            assert(!escapes_at(c.re.value(), c.im.value(), i as nat));
        }
        zre = new_re;
        zim = new_im;
        i = i + 1;
    }
    None
}

/// The orbit of the origin stays at the origin.
proof fn lemma_origin_orbit(n: nat)
    ensures
        orbit(0, 0, n) == (0int, 0int),
    decreases n,
{
    if n > 0 {
        lemma_origin_orbit((n - 1) as nat);
        lemma_div_of0(SCALE as int);
    }
}

/// An orbit that escapes at no index of `[i, limit)` yields no escape time.
proof fn lemma_no_escape_from(cre: int, cim: int, i: nat, limit: nat)
    requires
        forall|j: nat| i <= j < limit ==> !escapes_at(cre, cim, j),
    ensures
        escape_from(cre, cim, i, limit) == None::<nat>,
    decreases limit - i,
{
    if i < limit {
        lemma_no_escape_from(cre, cim, i + 1, limit);
    }
}

/// The origin belongs to the Mandelbrot set: its orbit never escapes,
/// whatever the iteration limit.
pub proof fn lemma_origin_never_escapes()
    ensures
        forall|n: nat| !escapes_at(0, 0, n),
        forall|limit: nat| escape_time(0, 0, limit) == None::<nat>,
{
    assert forall|n: nat| !escapes_at(0, 0, n) by {
        lemma_origin_orbit(n);
        lemma_div_of0(SCALE as int);
    }
    assert forall|limit: nat| escape_time(0, 0, limit) == None::<nat> by {
        lemma_no_escape_from(0, 0, 0, limit);
    }
}

/// A point whose own squared magnitude already exceeds the threshold
/// escapes exactly at index 1: index 0 tests `z(0) = 0`, which cannot
/// escape, and `z(1) = c`.
pub proof fn lemma_far_point_escapes(cre: int, cim: int)
    requires
        tdiv(cre * cre, SCALE as int) + tdiv(cim * cim, SCALE as int) > ESCAPE_THRESHOLD as int,
    ensures
        !escapes_at(cre, cim, 0),
        escapes_at(cre, cim, 1),
        forall|limit: nat| limit >= 2 ==> escape_time(cre, cim, limit) == Some(1nat),
{
    lemma_div_of0(SCALE as int);
    assert(orbit(cre, cim, 0) == (0int, 0int));
    assert(orbit(cre, cim, 1) == (cre, cim));
    assert forall|limit: nat| limit >= 2 implies escape_time(cre, cim, limit) == Some(1nat) by {
        assert(escape_from(cre, cim, 0, limit) == escape_from(cre, cim, 1, limit));
        assert(escape_from(cre, cim, 1, limit) == Some(1nat));
    }
}

} // verus!
