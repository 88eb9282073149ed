//! Whole-pipeline tests on the engine: construction, identity zoom,
//! zooming into an escaping region, and the frame a known view renders.

use mandelbrot::engine::Mandelbrot;
use mandelbrot::fx::SCALE;

#[test]
fn new_allocates_zeroed_full_frame_buffers() {
    let s = SCALE;
    let m = Mandelbrot::new(-2 * s, -(s + s / 2), s, s + s / 2, 4, 4, 50, 16, 255, 0, 0);
    let img = m.get_image();
    assert_eq!(img.len(), 4 * 4 * 4);
    assert!(img.iter().all(|&b| b == 0));
}

#[test]
fn identity_zoom_reproduces_frame() {
    let s = SCALE;
    let mut m = Mandelbrot::new(-2 * s, -(s + s / 2), s, s + s / 2, 4, 4, 50, 16, 255, 0, 0);
    m.update_image(0, 0, s, s);
    let first = m.get_image().clone();
    assert_eq!(first.len(), 4 * 4 * 4);
    m.update_image(0, 0, s, s);
    let second = m.get_image().clone();
    assert_eq!(first, second);
}

#[test]
fn zoom_into_escaping_region_uses_low_bins() {
    let s = SCALE;
    // The whole view lies far outside the radius-2 disk: every pixel escapes
    // at iteration 1, lands in bin 1 and gets the dimmest non-sentinel color.
    let mut m = Mandelbrot::new(4 * s, 4 * s, 6 * s, 6 * s, 4, 4, 50, 16, 255, 0, 0);
    m.update_image(0, 0, s, s);
    let img = m.get_image();
    assert_eq!(img.len(), 64);
    for pix in img.chunks(4) {
        assert_eq!(pix, &[15, 0, 0, 255]);
        // Distinct from the sentinel color, which is black.
        assert_ne!(pix, &[0, 0, 0, 255]);
    }
}

#[test]
fn interior_view_renders_sentinel_color() {
    let s = SCALE;
    // A 2x2 grid over (-2,-2)..(2,2) samples the four points (+-1, +-1),
    // none of which escapes within two iterations: the frame is all sentinel.
    let mut m = Mandelbrot::new(-2 * s, -2 * s, 2 * s, 2 * s, 2, 2, 2, 16, 255, 128, 64);
    m.update_image(0, 0, s, s);
    let img = m.get_image();
    assert_eq!(img.len(), 16);
    for pix in img.chunks(4) {
        assert_eq!(pix, &[0, 0, 0, 255]);
    }
}

#[test]
fn update_after_zoom_keeps_buffer_length() {
    let s = SCALE;
    let mut m = Mandelbrot::new(-2 * s, -(s + s / 2), s, s + s / 2, 8, 8, 30, 8, 0, 200, 50);
    m.update_image(0, 0, s, s);
    assert_eq!(m.get_image().len(), 4 * 8 * 8);
    // Zoom into the upper-left quarter and re-render: same resolution.
    m.update_image(0, 0, s / 2, s / 2);
    assert_eq!(m.get_image().len(), 4 * 8 * 8);
}
