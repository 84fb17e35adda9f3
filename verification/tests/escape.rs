//! Escape-time scenarios for the fixed affine mapping of the 2000 x 2000
//! grid into the viewing window, exercised against the framebuffer. The
//! evaluation itself uses `f64` complex arithmetic with the exact-magnitude
//! escape test against the 2.5 threshold.

use mandelbrot_ppm::framebuffer::{Framebuffer, BACKGROUND};
use num::Complex;

const WIDTH: usize = 2000;
const HEIGHT: usize = 2000;

fn sample_point(x: usize, y: usize) -> Complex<f64> {
    let fw = WIDTH as f64;
    let fh = HEIGHT as f64;
    let im = (y as f64 - fh / 2.0) / fh * 2.5;
    let re = (x as f64 - fw / 2.0) / fw * 2.5 - 0.5;
    Complex::new(re, im)
}

fn escape_time(c: Complex<f64>) -> Option<u8> {
    let mut z = c;
    for i in 0..255u8 {
        z = z * z + c;
        if z.norm() > 2.5 {
            return Some(i);
        }
    }
    None
}

#[test]
fn center_sample_never_escapes() {
    let c = sample_point(WIDTH / 2, HEIGHT / 2);
    assert_eq!(c.re, -0.5);
    assert_eq!(c.im, 0.0);
    let esc = escape_time(c);
    assert_eq!(esc, None);

    let mut fb = Framebuffer::new(WIDTH, HEIGHT);
    fb.clear_image();
    assert!(fb.record_escape(WIDTH / 2, HEIGHT / 2, esc).is_ok());
    assert_eq!(fb.read_pixel(WIDTH / 2, HEIGHT / 2), BACKGROUND);
}

#[test]
fn corner_sample_escapes_immediately() {
    let c = sample_point(0, 0);
    assert_eq!(c.re, -1.75);
    assert_eq!(c.im, -1.25);
    let esc = escape_time(c);
    let i = esc.expect("a point far outside the set must escape");
    assert!(i < 3, "expected an escape within the first few iterations");

    let mut fb = Framebuffer::new(WIDTH, HEIGHT);
    fb.clear_image();
    assert!(fb.record_escape(0, 0, esc).is_ok());
    assert_eq!(fb.read_pixel(0, 0), i);
}
