use mandelbrot_ppm::framebuffer::{Framebuffer, PixelError, BACKGROUND};

#[test]
fn clear_fills_background() {
    let mut fb = Framebuffer::new(4, 3);
    assert_eq!(fb.pixel_count(), 0);
    fb.clear_image();
    assert_eq!(fb.pixel_count(), 12);
    for y in 0..3 {
        for x in 0..4 {
            assert_eq!(fb.read_pixel(x, y), BACKGROUND);
        }
    }
}

#[test]
fn write_then_read_same_coordinate() {
    let mut fb = Framebuffer::new(4, 3);
    fb.clear_image();
    assert!(fb.write_pixel(1, 2, 7).is_ok());
    assert_eq!(fb.read_pixel(1, 2), 7);
}

#[test]
fn disjoint_writes_do_not_interfere() {
    let mut fb = Framebuffer::new(4, 3);
    fb.clear_image();
    assert!(fb.write_pixel(0, 0, 1).is_ok());
    assert!(fb.write_pixel(3, 2, 9).is_ok());
    assert_eq!(fb.read_pixel(0, 0), 1);
    assert_eq!(fb.read_pixel(3, 2), 9);
    for y in 0..3 {
        for x in 0..4 {
            if (x, y) != (0, 0) && (x, y) != (3, 2) {
                assert_eq!(fb.read_pixel(x, y), BACKGROUND);
            }
        }
    }
}

#[test]
fn clear_twice_matches_single_clear() {
    let mut once = Framebuffer::new(4, 3);
    once.clear_image();

    let mut twice = Framebuffer::new(4, 3);
    twice.clear_image();
    assert!(twice.write_pixel(2, 1, 0).is_ok());
    assert!(twice.write_pixel(0, 2, 42).is_ok());
    twice.clear_image();

    assert_eq!(once.pixel_count(), twice.pixel_count());
    for y in 0..3 {
        for x in 0..4 {
            assert_eq!(once.read_pixel(x, y), twice.read_pixel(x, y));
            assert_eq!(twice.read_pixel(x, y), BACKGROUND);
        }
    }
}

#[test]
fn write_pixel_rejects_x_at_width() {
    let mut fb = Framebuffer::new(4, 3);
    fb.clear_image();
    assert_eq!(fb.write_pixel(4, 0, 7), Err(PixelError::OutOfRange));
    for y in 0..3 {
        for x in 0..4 {
            assert_eq!(fb.read_pixel(x, y), BACKGROUND);
        }
    }
}

#[test]
fn write_pixel_rejects_y_at_height() {
    let mut fb = Framebuffer::new(4, 3);
    fb.clear_image();
    assert_eq!(fb.write_pixel(0, 3, 7), Err(PixelError::OutOfRange));
    assert_eq!(fb.write_pixel(100, 100, 7), Err(PixelError::OutOfRange));
    for y in 0..3 {
        for x in 0..4 {
            assert_eq!(fb.read_pixel(x, y), BACKGROUND);
        }
    }
}

#[test]
fn record_escape_none_keeps_background() {
    let mut fb = Framebuffer::new(4, 3);
    fb.clear_image();
    assert!(fb.record_escape(2, 1, None).is_ok());
    assert_eq!(fb.read_pixel(2, 1), BACKGROUND);
}

#[test]
fn record_escape_some_writes_iteration() {
    let mut fb = Framebuffer::new(4, 3);
    fb.clear_image();
    assert!(fb.record_escape(2, 1, Some(13)).is_ok());
    assert_eq!(fb.read_pixel(2, 1), 13);
}

#[test]
fn record_escape_rejects_out_of_range() {
    let mut fb = Framebuffer::new(4, 3);
    fb.clear_image();
    assert_eq!(fb.record_escape(4, 1, Some(13)), Err(PixelError::OutOfRange));
    assert!(fb.record_escape(4, 1, None).is_ok());
}
