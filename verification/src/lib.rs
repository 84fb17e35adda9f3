//! A Mandelbrot-set renderer split into a verified core and a thin shell.
//!
//! The verified core is a bounds-checked grayscale framebuffer
//! ([`framebuffer`]) and a plain portable-pixel-map serializer ([`ppm`]).
//! The escape-time evaluation itself runs on `f64` complex arithmetic and
//! therefore lives outside the verified library; it reports each pixel's
//! escape iteration, which [`framebuffer::Framebuffer::record_escape`]
//! commits to the grid.

pub mod framebuffer;
pub mod ppm;
