//! The viewport: the mapping from pixel indices to plane coordinates.
//!
//! A viewport holds the plane coordinate of the first pixel (`z0x`, `z0y`),
//! the fixed-point step between adjacent pixel centers (`dx`, `dy`) and the
//! grid size (`nx`, `ny`).  Zooming narrows the view to a sub-rectangle given
//! in relative unit-square coordinates; the larger relative side is taken as
//! the single scale factor, which keeps pixels square.

use vstd::prelude::*;
use vstd::arithmetic::div_mod::{
    lemma_div_is_ordered, lemma_div_multiples_vanish, lemma_div_nonincreasing,
    lemma_div_pos_is_pos, lemma_fundamental_div_mod, lemma_multiply_divide_lt,
};
use crate::fx::{fx_floor_div, fx_mul, fx_mul_spec, lemma_scale_compose, SCALE};

verus! {

/// Largest magnitude accepted for a corner coordinate at construction.
pub const CORNER_LIM: i64 = 549755813888;

/// Largest magnitude the view origin can reach; zooming saturates here.
pub const Z0_LIM: i64 = 1099511627776;

/// Largest step size a well-formed viewport can carry.
pub const D_LIM: i64 = 1099511627776;

/// Largest magnitude a pixel-center coordinate can reach.
pub const COORD_LIM: i64 = 9007199254740992;

/// Largest grid side length.
pub const N_LIM: usize = 4096;

/// The mapping from pixel indices to plane coordinates.
#[derive(Clone, Copy, PartialEq, Eq, Structural, Debug)]
pub struct Viewport {
    /// Plane x-coordinate of the grid origin.
    pub z0x: i64,
    /// Plane y-coordinate of the grid origin.
    pub z0y: i64,
    /// Plane distance between horizontally adjacent pixel centers.
    pub dx: i64,
    /// Plane distance between vertically adjacent pixel centers.
    pub dy: i64,
    /// Number of pixels per row.
    pub nx: usize,
    /// Number of rows.
    pub ny: usize,
}

/// Saturate a translated origin coordinate into the representable window.
pub open spec fn clamp_z0_spec(x: int) -> int {
    if x > Z0_LIM as int {
        Z0_LIM as int
    } else if x < -(Z0_LIM as int) {
        -(Z0_LIM as int)
    } else {
        x
    }
}

/// The view produced by zooming `v` to the relative rectangle with corners
/// `(rx0, ry0)` and `(rx1, ry1)` (fixed-point fractions of the current view):
/// corners are normalized, the larger relative side becomes the single scale
/// factor, the origin moves to the rectangle's top-left corner, and both
/// steps take the scaled horizontal step.
pub open spec fn rescale_spec(v: Viewport, rx0: int, ry0: int, rx1: int, ry1: int) -> Viewport {
    let ax0 = if rx1 > rx0 { rx0 } else { rx1 };
    let ax1 = if rx1 > rx0 { rx1 } else { rx0 };
    let ay0 = if ry1 > ry0 { ry0 } else { ry1 };
    let ay1 = if ry1 > ry0 { ry1 } else { ry0 };
    let dxy = if ax1 - ax0 > ay1 - ay0 { ax1 - ax0 } else { ay1 - ay0 };
    let ndx = fx_mul_spec(dxy, v.dx as int);
    Viewport {
        z0x: clamp_z0_spec(v.z0x + fx_mul_spec(ax0, (v.nx as int) * (v.dx as int))) as i64,
        z0y: clamp_z0_spec(v.z0y + fx_mul_spec(ay0, (v.ny as int) * (v.dy as int))) as i64,
        dx: ndx as i64,
        dy: ndx as i64,
        nx: v.nx,
        ny: v.ny,
    }
}

impl Viewport {
    /// Bounds under which every coordinate computation stays in range.
    pub open spec fn wf(self) -> bool {
        &&& 1 <= self.nx <= N_LIM
        &&& 1 <= self.ny <= N_LIM
        &&& -Z0_LIM <= self.z0x <= Z0_LIM
        &&& -Z0_LIM <= self.z0y <= Z0_LIM
        &&& 0 <= self.dx <= D_LIM
        &&& 0 <= self.dy <= D_LIM
    }

    /// Number of pixels of the grid.
    pub open spec fn npix(self) -> int {
        (self.nx as int) * (self.ny as int)
    }

    /// Plane x-coordinate of the center of pixel `i`: the origin plus the
    /// pixel's column times the step, plus half a step.
    pub open spec fn coord_x_spec(self, i: int) -> int {
        self.z0x + (i % (self.nx as int)) * self.dx + self.dx / 2
    }

    /// Plane y-coordinate of the center of pixel `i`.
    pub open spec fn coord_y_spec(self, i: int) -> int {
        self.z0y + (i / (self.nx as int)) * self.dy + self.dy / 2
    }

    /// Establish the initial view: the origin is the top-left corner and the
    /// step is the span divided by the pixel count, per axis.
    pub fn new(x0: i64, y0: i64, x1: i64, y1: i64, nx: usize, ny: usize) -> (v: Viewport)
        requires
            1 <= nx <= N_LIM,
            1 <= ny <= N_LIM,
            -CORNER_LIM <= x0 <= CORNER_LIM,
            -CORNER_LIM <= x1 <= CORNER_LIM,
            -CORNER_LIM <= y0 <= CORNER_LIM,
            -CORNER_LIM <= y1 <= CORNER_LIM,
            x0 < x1,
            y0 < y1,
        ensures
            v.wf(),
            v.z0x == x0,
            v.z0y == y0,
            v.nx == nx,
            v.ny == ny,
            v.dx as int == (x1 - x0) / (nx as int),
            v.dy as int == (y1 - y0) / (ny as int),
    {
        let spanx: i64 = x1 - x0;
        let spany: i64 = y1 - y0;
        proof {
            assert(4611686018427387904 * (nx as int) >= 4611686018427387904) by (nonlinear_arith)
                requires 1 <= nx;
            assert(4611686018427387904 * (ny as int) >= 4611686018427387904) by (nonlinear_arith)
                requires 1 <= ny;
            lemma_div_pos_is_pos(spanx as int, nx as int);
            lemma_div_pos_is_pos(spany as int, ny as int);
            lemma_div_nonincreasing(spanx as int, nx as int);
            lemma_div_nonincreasing(spany as int, ny as int);
        }
        let dx = fx_floor_div(spanx as i128, nx as i64);
        let dy = fx_floor_div(spany as i128, ny as i64);
        Viewport { z0x: x0, z0y: y0, dx, dy, nx, ny }
    }

    /// Zoom to the given relative rectangle, as [`rescale_spec`] states.
    pub fn rescale(&mut self, rx0: i64, ry0: i64, rx1: i64, ry1: i64)
        requires
            old(self).wf(),
            0 <= rx0 <= SCALE,
            0 <= ry0 <= SCALE,
            0 <= rx1 <= SCALE,
            0 <= ry1 <= SCALE,
        ensures
            final(self).wf(),
            *final(self) == rescale_spec(*old(self), rx0 as int, ry0 as int, rx1 as int, ry1 as int),
    {
        let (ax0, ax1) = if rx1 > rx0 { (rx0, rx1) } else { (rx1, rx0) };
        let (ay0, ay1) = if ry1 > ry0 { (ry0, ry1) } else { (ry1, ry0) };
        let dxy = if ax1 - ax0 > ay1 - ay0 { ax1 - ax0 } else { ay1 - ay0 };
        proof {
            assert(0 <= (self.nx as int) * (self.dx as int) <= 4503599627370496) by (nonlinear_arith)
                requires 1 <= self.nx <= N_LIM, 0 <= self.dx <= D_LIM;
            assert(0 <= (self.ny as int) * (self.dy as int) <= 4503599627370496) by (nonlinear_arith)
                requires 1 <= self.ny <= N_LIM, 0 <= self.dy <= D_LIM;
        }
        let spanx: i64 = (self.nx as i64) * self.dx;
        let spany: i64 = (self.ny as i64) * self.dy;
        let tx = fx_mul(ax0, spanx);
        let ty = fx_mul(ay0, spany);
        let ndx = fx_mul(dxy, self.dx);
        proof {
            assert(0 <= (dxy as int) * (self.dx as int) <= (SCALE as int) * (self.dx as int))
                by (nonlinear_arith)
                requires 0 <= dxy <= SCALE, 0 <= self.dx;
            lemma_div_pos_is_pos((dxy as int) * (self.dx as int), SCALE as int);
            lemma_div_is_ordered(
                (dxy as int) * (self.dx as int),
                (SCALE as int) * (self.dx as int),
                SCALE as int,
            );
            lemma_div_multiples_vanish(self.dx as int, SCALE as int);
        }
        self.z0x = clamp_z0(self.z0x + tx);
        self.z0y = clamp_z0(self.z0y + ty);
        self.dx = ndx;
        self.dy = ndx;
    }

    /// Plane coordinate of the center of pixel `i`, row-major.
    pub fn coord_at(&self, i: usize) -> (c: (i64, i64))
        requires
            self.wf(),
            i < self.nx * self.ny,
        ensures
            c.0 as int == self.coord_x_spec(i as int),
            c.1 as int == self.coord_y_spec(i as int),
            -COORD_LIM <= c.0 <= COORD_LIM,
            -COORD_LIM <= c.1 <= COORD_LIM,
    {
        let col = i % self.nx;
        let row = i / self.nx;
        proof {
            lemma_multiply_divide_lt(i as int, self.nx as int, self.ny as int);
            assert(0 <= (col as int) * (self.dx as int) <= 4503599627370496) by (nonlinear_arith)
                requires 0 <= col < 4096, 0 <= self.dx <= D_LIM;
            assert(0 <= (row as int) * (self.dy as int) <= 4503599627370496) by (nonlinear_arith)
                requires 0 <= row < 4096, 0 <= self.dy <= D_LIM;
            lemma_div_pos_is_pos(self.dx as int, 2);
            lemma_div_pos_is_pos(self.dy as int, 2);
            lemma_div_nonincreasing(self.dx as int, 2);
            lemma_div_nonincreasing(self.dy as int, 2);
        }
        let hx = fx_floor_div(self.dx as i128, 2);
        let hy = fx_floor_div(self.dy as i128, 2);
        let cx = self.z0x + (col as i64) * self.dx + hx;
        let cy = self.z0y + (row as i64) * self.dy + hy;
        (cx, cy)
    }
}

/// Saturating executable counterpart of [`clamp_z0_spec`].
fn clamp_z0(x: i64) -> (r: i64)
    ensures
        r as int == clamp_z0_spec(x as int),
        -Z0_LIM <= r <= Z0_LIM,
{
    if x > Z0_LIM {
        Z0_LIM
    } else if x < -Z0_LIM {
        -Z0_LIM
    } else {
        x
    }
}

/// Distinct pixel indices of the grid sample distinct plane points whenever
/// both steps are nonzero: the coordinate map is injective.
pub proof fn lemma_coord_injective(v: Viewport, i: int, j: int)
    requires
        v.wf(),
        1 <= v.dx,
        1 <= v.dy,
        0 <= i < v.npix(),
        0 <= j < v.npix(),
        i != j,
    ensures
        v.coord_x_spec(i) != v.coord_x_spec(j) || v.coord_y_spec(i) != v.coord_y_spec(j),
{
    let nx = v.nx as int;
    let ci = i % nx;
    let cj = j % nx;
    let ri = i / nx;
    let rj = j / nx;
    lemma_fundamental_div_mod(i, nx);
    lemma_fundamental_div_mod(j, nx);
    if ci == cj && ri == rj {
        assert(i == nx * ri + ci);
        assert(j == nx * rj + cj);
        assert(false);
    }
    if ci != cj {
        assert(ci * v.dx != cj * v.dx) by (nonlinear_arith)
            requires ci != cj, 1 <= v.dx;
    } else {
        assert(ri * v.dy != rj * v.dy) by (nonlinear_arith)
            requires ri != rj, 1 <= v.dy;
    }
}

/// Zooming to the whole current view (the relative rectangle from `(0, 0)`
/// to `(1, 1)`) changes nothing: the scale factor is exactly one and the
/// origin translation is exactly zero.
pub proof fn lemma_identity_rescale(v: Viewport)
    requires
        v.wf(),
        v.dx == v.dy,
    ensures
        rescale_spec(v, 0, 0, SCALE as int, SCALE as int) == v,
{
    lemma_div_multiples_vanish(v.dx as int, SCALE as int);
    assert((SCALE as int) * (v.dx as int) == (v.dx as int) * (SCALE as int));
    assert(fx_mul_spec(SCALE as int, v.dx as int) == v.dx as int);
    assert(0 * ((v.nx as int) * (v.dx as int)) == 0) by (nonlinear_arith);
    assert(0 * ((v.ny as int) * (v.dy as int)) == 0) by (nonlinear_arith);
    lemma_div_multiples_vanish(0, SCALE as int);
    assert((SCALE as int) * 0 == 0) by (nonlinear_arith);
    assert(fx_mul_spec(0, (v.nx as int) * (v.dx as int)) == 0);
    assert(fx_mul_spec(0, (v.ny as int) * (v.dy as int)) == 0);
}

/// Zooming twice with square boxes of relative sides `s1` and then `s2`
/// agrees with one zoom by their fixed-point product: the two step sizes
/// differ only by the rounding the products discard, never by more than one
/// whole unit's worth of the original step (and never the other way by more
/// than one).
pub proof fn lemma_rescale_compose_d(v: Viewport, s1: int, s2: int)
    requires
        v.wf(),
        0 <= s1 <= SCALE,
        0 <= s2 <= SCALE,
    ensures
        ({
            let va = rescale_spec(rescale_spec(v, 0, 0, s1, s1), 0, 0, s2, s2);
            let vb = rescale_spec(v, 0, 0, fx_mul_spec(s1, s2), fx_mul_spec(s1, s2));
            &&& -1 <= va.dx - vb.dx <= (v.dx as int) / (SCALE as int) + 1
            &&& va.dy == va.dx
            &&& vb.dy == vb.dx
        }),
{
    let s = SCALE as int;
    let d = v.dx as int;
    let a = fx_mul_spec(s1, d);
    let b = fx_mul_spec(s1, s2);
    assert(0 <= s1 * d <= s * d) by (nonlinear_arith)
        requires 0 <= s1 <= s, 0 <= d;
    lemma_div_pos_is_pos(s1 * d, s);
    lemma_div_is_ordered(s1 * d, s * d, s);
    lemma_div_multiples_vanish(d, s);
    assert(0 <= a <= d);
    assert(0 <= s1 * s2 <= s * s) by (nonlinear_arith)
        requires 0 <= s1 <= s, 0 <= s2 <= s;
    lemma_div_pos_is_pos(s1 * s2, s);
    lemma_div_is_ordered(s1 * s2, s * s, s);
    lemma_div_multiples_vanish(s, s);
    assert(0 <= b <= s);
    assert(0 <= s2 * a <= s * a) by (nonlinear_arith)
        requires 0 <= s2 <= s, 0 <= a;
    lemma_div_pos_is_pos(s2 * a, s);
    lemma_div_is_ordered(s2 * a, s * a, s);
    lemma_div_multiples_vanish(a, s);
    assert(0 <= fx_mul_spec(s2, a) <= a);
    assert(0 <= b * d <= s * d) by (nonlinear_arith)
        requires 0 <= b <= s, 0 <= d;
    lemma_div_pos_is_pos(b * d, s);
    lemma_div_is_ordered(b * d, s * d, s);
    assert(0 <= fx_mul_spec(b, d) <= d);
    lemma_scale_compose(s1, s2, d);
}

} // verus!
