//! Stage-level tests: fixed-point arithmetic, the viewport mapping, the
//! escape evaluator, the histogram passes and the colorizer, each on
//! concrete values.

use mandelbrot::color::iterations_to_color;
use mandelbrot::escape::escape_count;
use mandelbrot::fx::{fx_mul, SCALE};
use mandelbrot::histogram::{frequency_cumsum, iteration_binner, iteration_frequency};
use mandelbrot::viewport::Viewport;

#[test]
fn fx_mul_scales_products() {
    // 1.5 * 0.5 == 0.75 exactly in fixed point.
    assert_eq!(fx_mul(SCALE / 2, SCALE + SCALE / 2), SCALE / 2 + SCALE / 4);
    assert_eq!(fx_mul(SCALE, -SCALE), -SCALE);
    assert_eq!(fx_mul(0, 123456789), 0);
    // Rounding is toward minus infinity: -1/SCALE scaled down stays below zero.
    assert_eq!(fx_mul(1, -1), -1);
}

#[test]
fn viewport_new_computes_steps() {
    let s = SCALE;
    let v = Viewport::new(-2 * s, -(s + s / 2), s, s + s / 2, 4, 4);
    assert_eq!(v.z0x, -2 * s);
    assert_eq!(v.z0y, -(s + s / 2));
    assert_eq!(v.dx, 3 * s / 4);
    assert_eq!(v.dy, 3 * s / 4);
}

#[test]
fn viewport_samples_pixel_centers() {
    let s = SCALE;
    let v = Viewport::new(-2 * s, -(s + s / 2), s, s + s / 2, 4, 4);
    // dx == dy == 0.75; the first center sits half a step inside the corner.
    assert_eq!(v.coord_at(0), (-27262976, -18874368));
    // Pixel 5 is column 1, row 1: one whole step further on both axes.
    assert_eq!(v.coord_at(5), (-14680064, -6291456));
}

#[test]
fn viewport_distinct_indices_distinct_coords() {
    let s = SCALE;
    let v = Viewport::new(-2 * s, -(s + s / 2), s, s + s / 2, 4, 4);
    let a = v.coord_at(1);
    let b = v.coord_at(2);
    let c = v.coord_at(6);
    assert_ne!(a, b);
    assert_ne!(b, c);
    assert_ne!(a, c);
}

#[test]
fn rescale_identity_keeps_view() {
    let s = SCALE;
    let mut v = Viewport::new(0, 0, 4 * s, 4 * s, 4, 4);
    let before = v;
    v.rescale(0, 0, s, s);
    assert_eq!(v, before);
}

#[test]
fn rescale_normalizes_swapped_corners() {
    let s = SCALE;
    let mut a = Viewport::new(0, 0, 4 * s, 4 * s, 4, 4);
    let mut b = a;
    a.rescale(0, 0, s, s);
    b.rescale(s, s, 0, 0);
    assert_eq!(a, b);
}

#[test]
fn rescale_halves_step_on_half_box() {
    let s = SCALE;
    let mut v = Viewport::new(0, 0, 4 * s, 4 * s, 4, 4);
    assert_eq!(v.dx, s);
    v.rescale(0, 0, s / 2, s / 2);
    assert_eq!(v.dx, s / 2);
    assert_eq!(v.dy, s / 2);
    assert_eq!(v.z0x, 0);
    assert_eq!(v.z0y, 0);
}

#[test]
fn rescale_translates_origin_and_forces_square() {
    let s = SCALE;
    let mut v = Viewport::new(0, 0, 4 * s, 4 * s, 4, 4);
    // A tall half-width box: the larger side (full height) wins, so the step
    // stays and only the origin moves.
    v.rescale(s / 2, 0, s, s);
    assert_eq!(v.dx, s);
    assert_eq!(v.dy, s);
    assert_eq!(v.z0x, 2 * s);
    assert_eq!(v.z0y, 0);
}

#[test]
fn rescale_twice_matches_combined_scale_exactly_on_powers_of_two() {
    let s = SCALE;
    let mut va = Viewport::new(0, 0, 4 * s, 4 * s, 4, 4);
    va.rescale(0, 0, s / 2, s / 2);
    va.rescale(0, 0, s / 4, s / 4);
    let mut vb = Viewport::new(0, 0, 4 * s, 4 * s, 4, 4);
    let both = fx_mul(s / 2, s / 4);
    vb.rescale(0, 0, both, both);
    assert_eq!(va.dx, s / 8);
    assert_eq!(va.dx, vb.dx);
    assert_eq!(va.dy, vb.dy);
}

#[test]
fn rescale_twice_within_tolerance_of_combined_scale() {
    let s = SCALE;
    let s1: i64 = 5000000;
    let s2: i64 = 7000000;
    let mut va = Viewport::new(0, 0, 4 * s, 4 * s, 4, 4);
    let d = va.dx;
    va.rescale(0, 0, s1, s1);
    va.rescale(0, 0, s2, s2);
    let mut vb = Viewport::new(0, 0, 4 * s, 4 * s, 4, 4);
    let both = fx_mul(s1, s2);
    vb.rescale(0, 0, both, both);
    let diff = va.dx - vb.dx;
    assert!(-1 <= diff && diff <= d / s + 1);
}

#[test]
fn escape_origin_returns_sentinel() {
    assert_eq!(escape_count(0, 0, 50), 0);
    assert_eq!(escape_count(0, 0, 1), 0);
    assert_eq!(escape_count(0, 0, 1000), 0);
}

#[test]
fn escape_interior_cycle_returns_sentinel() {
    // c == -1 cycles between -1 and 0 and never escapes.
    assert_eq!(escape_count(-SCALE, 0, 50), 0);
}

#[test]
fn escape_outside_disk_returns_one() {
    assert_eq!(escape_count(3 * SCALE, 0, 50), 1);
    assert_eq!(escape_count(0, -3 * SCALE, 50), 1);
    // |c| == 2 exactly reaches the threshold.
    assert_eq!(escape_count(2 * SCALE, 0, 50), 1);
    assert_eq!(escape_count(-2 * SCALE, 0, 2), 1);
}

#[test]
fn escape_near_boundary_takes_two() {
    // c == 1.5: after one update z == 1.5, after two z == 3.75, which is the
    // first iterate past the radius-2 circle.
    assert_eq!(escape_count(SCALE + SCALE / 2, 0, 50), 2);
}

#[test]
fn frequency_counts_each_value() {
    let work: Vec<usize> = vec![1, 2, 1, 0];
    let h = iteration_frequency(&work, 4);
    assert_eq!(h, vec![1, 2, 1, 0]);
}

#[test]
fn cumsum_discards_sentinel_and_accumulates() {
    let freq: Vec<usize> = vec![5, 2, 3];
    let c = frequency_cumsum(&freq);
    assert_eq!(c, vec![0, 2, 5]);
}

#[test]
fn cumsum_is_nondecreasing() {
    let freq: Vec<usize> = vec![7, 0, 4, 0, 1];
    let c = frequency_cumsum(&freq);
    assert_eq!(c, vec![0, 0, 4, 4, 5]);
    for v in 1..c.len() {
        assert!(c[v - 1] <= c[v]);
    }
}

#[test]
fn binner_fills_palette_range_on_even_split() {
    // Total 6 splits evenly over 3 bucket boundaries: threshold 2.
    let cum: Vec<usize> = vec![0, 2, 4, 6];
    let p = iteration_binner(&cum, 4);
    assert_eq!(p, vec![0, 1, 2, 3]);
}

#[test]
fn binner_keeps_zero_threshold_degenerate_input() {
    let cum: Vec<usize> = vec![0, 0, 0, 0];
    let p = iteration_binner(&cum, 16);
    assert_eq!(p, vec![0, 0, 0, 0]);
}

#[test]
fn binner_ids_are_monotone() {
    let cum: Vec<usize> = vec![0, 16, 16, 16, 16];
    let p = iteration_binner(&cum, 16);
    assert_eq!(p, vec![0, 1, 2, 3, 4]);
    for v in 2..p.len() {
        assert!(p[v - 1] <= p[v]);
    }
}

#[test]
fn colorizer_scales_base_color() {
    let work: Vec<usize> = vec![0, 1];
    let palette: Vec<usize> = vec![0, 3];
    let img = iterations_to_color(&work, &palette, 4, 200, 100, 0);
    assert_eq!(img, vec![0, 0, 0, 255, 150, 75, 0, 255]);
}

#[test]
fn colorizer_keeps_low_bits_of_wide_products() {
    // 255 * 20 / 4 == 1275, whose low byte is 251; 100 * 20 / 4 == 500 -> 244.
    let work: Vec<usize> = vec![0];
    let palette: Vec<usize> = vec![20];
    let img = iterations_to_color(&work, &palette, 4, 255, 100, 0);
    assert_eq!(img, vec![251, 244, 0, 255]);
}
