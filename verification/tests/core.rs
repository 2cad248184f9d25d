//! Exercises the fixed-point arithmetic, the coordinate mapper and the
//! escape evaluator on concrete values.

use mandelbrot::escape::{point_z_value, Complex};
use mandelbrot::fixed::{Fx, SCALE};
use mandelbrot::mapper::affine;

/// One plane unit in fixed-point units.
const S: u64 = SCALE;

fn fx(neg: bool, mag: u64) -> Fx {
    Fx::new(neg, mag)
}

fn cpx(re: Fx, im: Fx) -> Complex {
    Complex { re, im }
}

#[test]
fn fx_zero_is_canonical() {
    assert_eq!(fx(true, 0), fx(false, 0));
    assert!(!fx(true, 0).neg);
}

#[test]
fn fx_add_mixed_signs() {
    assert_eq!(fx(false, 5).add(fx(true, 8)), fx(true, 3));
    assert_eq!(fx(true, 5).add(fx(false, 8)), fx(false, 3));
    assert_eq!(fx(true, 5).add(fx(false, 5)), fx(false, 0));
    assert_eq!(fx(true, 5).add(fx(true, 7)), fx(true, 12));
}

#[test]
fn fx_sub_and_negate() {
    assert_eq!(fx(false, 3).sub(fx(false, 10)), fx(true, 7));
    assert_eq!(fx(false, 3).negate(), fx(true, 3));
    assert_eq!(fx(false, 0).negate(), fx(false, 0));
}

#[test]
fn affine_maps_floor_to_floor() {
    let r = affine(fx(false, 0), fx(false, 0), fx(false, 10 * S), fx(true, 2 * S), fx(false, S));
    assert_eq!(r, fx(true, 2 * S));
}

#[test]
fn affine_maps_ceil_to_ceil() {
    let r = affine(fx(false, 0), fx(false, 10 * S), fx(false, 10 * S), fx(true, 2 * S), fx(false, S));
    assert_eq!(r, fx(false, S));
}

#[test]
fn affine_endpoints_on_reversed_interval() {
    // A decreasing source interval still maps its endpoints exactly.
    let fi = fx(false, S);
    let ci = fx(true, S);
    assert_eq!(affine(fi, fi, ci, fx(false, 5 * S), fx(false, 7 * S)), fx(false, 5 * S));
    assert_eq!(affine(fi, ci, ci, fx(false, 5 * S), fx(false, 7 * S)), fx(false, 7 * S));
}

#[test]
fn affine_midpoint_is_exact() {
    // 5 in [0, 10] lands on 50 in [0, 100].
    let r = affine(fx(false, 0), fx(false, 5 * S), fx(false, 10 * S), fx(false, 0), fx(false, 100 * S));
    assert_eq!(r, fx(false, 50 * S));
}

#[test]
fn affine_truncates_toward_zero() {
    // 1 in [0, 3] mapped to [0, 1] is SCALE / 3, rounded toward zero.
    let r = affine(fx(false, 0), fx(false, S), fx(false, 3 * S), fx(false, 0), fx(false, S));
    assert_eq!(r, fx(false, S / 3));
}

#[test]
fn affine_extrapolates_outside_source() {
    // 20 lies outside [0, 10]; the map extends linearly to 20 in [0, 10].
    let r = affine(fx(false, 0), fx(false, 20 * S), fx(false, 10 * S), fx(false, 0), fx(false, 10 * S));
    assert_eq!(r, fx(false, 20 * S));
}

#[test]
fn origin_never_escapes() {
    let c = cpx(fx(false, 0), fx(false, 0));
    assert_eq!(point_z_value(c, 255), None);
    assert_eq!(point_z_value(c, 1), None);
}

#[test]
fn zero_limit_reports_no_escape() {
    let far = cpx(fx(false, 16 * S), fx(false, 0));
    assert_eq!(point_z_value(far, 0), None);
}

#[test]
fn far_points_escape_at_one() {
    // |c| > 2: the first tested point past z(0) = 0 is z(1) = c itself.
    assert_eq!(point_z_value(cpx(fx(false, 3 * S), fx(false, 0)), 255), Some(1));
    assert_eq!(point_z_value(cpx(fx(false, 0), fx(true, 3 * S)), 255), Some(1));
    assert_eq!(point_z_value(cpx(fx(false, 16 * S), fx(false, 0)), 255), Some(1));
}

#[test]
fn periodic_point_never_escapes() {
    // c = -1 + 0i cycles between -1 and 0.
    let c = cpx(fx(true, S), fx(false, 0));
    assert_eq!(point_z_value(c, 255), None);
}

#[test]
fn diverging_point_escapes_quickly() {
    // c = 1 + 1i: z(1) = 1 + 1i, z(2) = 1 + 3i, whose squared magnitude
    // is 10 > 4.
    let c = cpx(fx(false, S), fx(false, S));
    let r = point_z_value(c, 255);
    assert_eq!(r, Some(2));
    assert!(r.unwrap() <= 5);
}
