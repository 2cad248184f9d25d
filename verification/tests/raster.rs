//! Exercises the rasterizer end to end on small grids.

use mandelbrot::escape::Complex;
use mandelbrot::fixed::{Fx, SCALE};
use mandelbrot::render::render;

/// One plane unit in fixed-point units.
const S: u64 = SCALE;

fn fx(neg: bool, mag: u64) -> Fx {
    Fx::new(neg, mag)
}

fn cpx(re: Fx, im: Fx) -> Complex {
    Complex { re, im }
}

/// The usual view of the set: real axis from -2 to 1, imaginary axis
/// from 1.5 down to -1.5.
fn standard_window() -> (Complex, Complex) {
    let upper_left = cpx(fx(true, 2 * S), fx(false, 3 * S / 2));
    let lower_right = cpx(fx(false, S), fx(true, 3 * S / 2));
    (upper_left, lower_right)
}

#[test]
fn one_pixel_grid_takes_the_upper_left_derived_point() {
    // On a 1x1 grid the single pixel maps to (upper_left.im, upper_left.re).
    // With both zero the point is the origin, which never escapes: black.
    let ul = cpx(fx(false, 0), fx(false, 0));
    let lr = cpx(fx(false, S), fx(false, S));
    let mut pixels = vec![170u8; 1];
    render(&mut pixels, (1, 1), ul, lr);
    assert_eq!(pixels, vec![0u8]);
}

#[test]
fn one_pixel_grid_far_window_escapes_at_one() {
    // Upper-left corner coordinates of magnitude 8 give a point far
    // outside the set; it escapes at iteration 1, intensity 254.
    let ul = cpx(fx(false, 8 * S), fx(false, 8 * S));
    let lr = cpx(fx(false, 9 * S), fx(false, 9 * S));
    let mut pixels = vec![170u8; 1];
    render(&mut pixels, (1, 1), ul, lr);
    assert_eq!(pixels, vec![254u8]);
}

#[test]
fn rendering_twice_is_byte_identical() {
    let (ul, lr) = standard_window();
    let mut first = vec![0u8; 100];
    let mut second = vec![0u8; 100];
    render(&mut first, (10, 10), ul, lr);
    render(&mut second, (10, 10), ul, lr);
    assert_eq!(first, second);
}

#[test]
fn every_offset_is_overwritten() {
    // Two buffers with different sentinel prefills agree afterward, so no
    // slot kept its pre-render value by accident.
    let (ul, lr) = standard_window();
    let mut first = vec![0xAAu8; 48];
    let mut second = vec![0x55u8; 48];
    render(&mut first, (6, 8), ul, lr);
    render(&mut second, (6, 8), ul, lr);
    assert_eq!(first, second);
}

#[test]
fn hundred_square_scenario() {
    // Grid (100, 100) over the standard window. The pixel mapped nearest
    // the plane origin lies inside the set and is black; the pixel at
    // offset 0 maps to (1.5, -2), far outside, escaping at iteration 1.
    let (ul, lr) = standard_window();
    let mut pixels = vec![0u8; 100 * 100];
    render(&mut pixels, (100, 100), ul, lr);
    // Column 50 maps to real part 0; row 67 maps to imaginary part 0.01.
    assert_eq!(pixels[67 * 100 + 50], 0);
    assert_eq!(pixels[0], 254);
    assert_ne!(pixels[0], 0);
}

#[test]
fn asymmetric_grid_fills_whole_buffer() {
    let (ul, lr) = standard_window();
    let mut first = vec![1u8; 3 * 7];
    let mut second = vec![2u8; 3 * 7];
    render(&mut first, (3, 7), ul, lr);
    render(&mut second, (3, 7), ul, lr);
    assert_eq!(first, second);
    assert_eq!(first.len(), 21);
}
