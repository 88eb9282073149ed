//! The escape evaluator: for one plane point `c`, how many iterations of
//! `z <- z*z + c` run before the squared modulus of `z` reaches `4.0`.
//!
//! The result is the 0-based index of the first iteration whose entry check
//! fires, so a genuinely escaping point always yields at least `1`; the value
//! `0` is the sentinel for "did not escape within the iteration budget" and
//! marks points assumed to belong to the set.

use vstd::prelude::*;
use vstd::arithmetic::div_mod::{
    lemma_div_is_ordered, lemma_div_multiples_vanish, lemma_div_pos_is_pos,
};
use crate::fx::{fx_mul, fx_mul_spec, SCALE};
use crate::viewport::{Viewport, COORD_LIM};

verus! {

/// The divergence threshold `4.0` in squared fixed-point units
/// (`4 * SCALE * SCALE`): `|z|` has reached `2` when `norm_sq` reaches this.
pub const ESCAPE_THRESHOLD: i128 = 1125899906842624;

/// Largest magnitude an iterate component can reach before the next check.
pub const Z_LIM: i64 = 18014398509481984;

/// Exact squared modulus of the iterate, in doubled-scale units.
pub open spec fn norm_sq(zx: int, zy: int) -> int {
    zx * zx + zy * zy
}

/// Real part of `z*z + c` in fixed point, using the original `zx`.
pub open spec fn step_x(zx: int, zy: int, cx: int) -> int {
    fx_mul_spec(zx, zx) - fx_mul_spec(zy, zy) + cx
}

/// Imaginary part of `z*z + c` in fixed point, using the original `zx`.
pub open spec fn step_y(zx: int, zy: int, cy: int) -> int {
    fx_mul_spec(2 * zx, zy) + cy
}

/// Escape value reached when iteration continues from iterate `(zx, zy)` at
/// iteration `iter`: the first index at which the entry check fires, or the
/// sentinel `0` once the budget is exhausted.
pub open spec fn esc_from(zx: int, zy: int, cx: int, cy: int, iter: nat, max_iter: nat) -> nat
    decreases max_iter - iter,
{
    if iter >= max_iter {
        0
    } else if norm_sq(zx, zy) >= ESCAPE_THRESHOLD as int {
        iter
    } else {
        esc_from(step_x(zx, zy, cx), step_y(zx, zy, cy), cx, cy, iter + 1, max_iter)
    }
}

/// Escape value of the point `c`, starting the iteration from `z == 0`.
pub open spec fn escape_spec(cx: int, cy: int, max_iter: nat) -> nat {
    esc_from(0, 0, cx, cy, 0, max_iter)
}

/// The squared fixed-point product of a small iterate component with itself
/// is nonnegative and bounded by one unit times the threshold.
proof fn lemma_fx_sq_bound(z: int)
    requires
        -33554432 <= z <= 33554432,
    ensures
        0 <= fx_mul_spec(z, z) <= 67108864,
{
    assert(0 <= z * z <= 1125899906842624) by (nonlinear_arith)
        requires -33554432 <= z <= 33554432;
    lemma_div_pos_is_pos(z * z, SCALE as int);
    lemma_div_is_ordered(z * z, 1125899906842624, SCALE as int);
    assert(1125899906842624 == (SCALE as int) * 67108864);
    lemma_div_multiples_vanish(67108864, SCALE as int);
}

/// Bound on the fixed-point cross term `2*zx*zy` of the update.
proof fn lemma_fx_cross_bound(zx: int, zy: int)
    requires
        -33554432 <= zx <= 33554432,
        -33554432 <= zy <= 33554432,
    ensures
        -134217728 <= fx_mul_spec(2 * zx, zy) <= 134217728,
{
    assert(-2251799813685248 <= (2 * zx) * zy <= 2251799813685248) by (nonlinear_arith)
        requires -33554432 <= zx <= 33554432, -33554432 <= zy <= 33554432;
    lemma_div_is_ordered((2 * zx) * zy, 2251799813685248, SCALE as int);
    lemma_div_is_ordered(-2251799813685248, (2 * zx) * zy, SCALE as int);
    assert(2251799813685248 == (SCALE as int) * 134217728);
    lemma_div_multiples_vanish(134217728, SCALE as int);
    lemma_div_multiples_vanish(-134217728, SCALE as int);
    assert(-2251799813685248 == (SCALE as int) * -134217728);
}

/// Escape value of the point `c`: iterate `z <- z*z + c` from zero, checking
/// divergence before each update, up to `max_iter` iterations.
pub fn escape_count(cx: i64, cy: i64, max_iter: usize) -> (r: usize)
    requires
        1 <= max_iter,
        -COORD_LIM <= cx <= COORD_LIM,
        -COORD_LIM <= cy <= COORD_LIM,
    ensures
        r as nat == escape_spec(cx as int, cy as int, max_iter as nat),
        r < max_iter,
{
    let mut zx: i64 = 0;
    let mut zy: i64 = 0;
    let mut iter: usize = 0;
    while iter < max_iter
        invariant
            iter <= max_iter,
            1 <= max_iter,
            -COORD_LIM <= cx <= COORD_LIM,
            -COORD_LIM <= cy <= COORD_LIM,
            -Z_LIM <= zx <= Z_LIM,
            -Z_LIM <= zy <= Z_LIM,
            escape_spec(cx as int, cy as int, max_iter as nat) == esc_from(
                zx as int, zy as int, cx as int, cy as int, iter as nat, max_iter as nat),
        decreases max_iter - iter,
    {
        proof {
            assert(0 <= (zx as int) * (zx as int) <= 324518553658426726783156020576256
                && 0 <= (zy as int) * (zy as int) <= 324518553658426726783156020576256)
                by (nonlinear_arith)
                requires -Z_LIM <= zx <= Z_LIM, -Z_LIM <= zy <= Z_LIM;
        }
        let nx2: i128 = (zx as i128) * (zx as i128);
        let ny2: i128 = (zy as i128) * (zy as i128);
        if nx2 + ny2 >= ESCAPE_THRESHOLD {
            return iter;
        }
        proof {
            assert(-33554432 <= zx as int <= 33554432 && -33554432 <= zy as int <= 33554432)
                by (nonlinear_arith)
                requires (zx as int) * (zx as int) + (zy as int) * (zy as int)
                    < 1125899906842624;
            lemma_fx_sq_bound(zx as int);
            lemma_fx_sq_bound(zy as int);
            lemma_fx_cross_bound(zx as int, zy as int);
        }
        let sx = fx_mul(zx, zx);
        let sy = fx_mul(zy, zy);
        let txy = fx_mul(2 * zx, zy);
        let nzx = sx - sy + cx;
        let nzy = txy + cy;
        zx = nzx;
        zy = nzy;
        iter = iter + 1;
    }
    0
}

/// The point `c == 0` lies in the set's interior: the iterate stays at zero,
/// so evaluation returns the sentinel for every iteration budget.
pub proof fn lemma_origin_never_escapes(max_iter: nat)
    ensures
        escape_spec(0, 0, max_iter) == 0,
{
    lemma_esc_from_origin(0, max_iter);
}

/// Helper for [`lemma_origin_never_escapes`]: from a zero iterate with zero
/// `c`, iteration never escapes, from any starting index.
proof fn lemma_esc_from_origin(iter: nat, max_iter: nat)
    ensures
        esc_from(0, 0, 0, 0, iter, max_iter) == 0,
    decreases max_iter - iter,
{
    if iter < max_iter {
        assert((SCALE as int) * 0 == 0) by (nonlinear_arith);
        lemma_div_multiples_vanish(0, SCALE as int);
        assert(fx_mul_spec(0, 0) == 0);
        assert(step_x(0, 0, 0) == 0);
        assert(step_y(0, 0, 0) == 0);
        lemma_esc_from_origin(iter + 1, max_iter);
    }
}

/// A point on or outside the circle of radius `2` escapes at the very first
/// check after the initial update: the escape value is exactly `1` (so it is
/// at least `1` and at most `1`) whenever at least two iterations may run.
pub proof fn lemma_exterior_escapes_at_one(cx: int, cy: int, max_iter: nat)
    requires
        max_iter >= 2,
        norm_sq(cx, cy) >= ESCAPE_THRESHOLD as int,
    ensures
        escape_spec(cx, cy, max_iter) == 1,
{
    assert((SCALE as int) * 0 == 0) by (nonlinear_arith);
    lemma_div_multiples_vanish(0, SCALE as int);
    assert(fx_mul_spec(0, 0) == 0);
    assert(step_x(0, 0, cx) == cx);
    assert(step_y(0, 0, cy) == cy);
    assert(norm_sq(0, 0) == 0);
    assert(esc_from(cx, cy, cx, cy, 1, max_iter) == 1);
}

/// The per-pixel escape values of a whole frame: pixel `i` carries the
/// escape value of its center coordinate.
pub open spec fn work_spec(v: Viewport, max_iter: nat) -> Seq<usize> {
    Seq::new(v.npix() as nat, |i: int| escape_spec(
        v.coord_x_spec(i), v.coord_y_spec(i), max_iter) as usize)
}

/// Evaluate every pixel of the grid, row-major: the frame's work buffer.
pub fn compute_escapes(v: &Viewport, max_iter: usize) -> (w: Vec<usize>)
    requires
        v.wf(),
        1 <= max_iter,
    ensures
        w@ == work_spec(*v, max_iter as nat),
        w@.len() == v.npix(),
        forall|k: int| 0 <= k < w@.len() ==> w@[k] < max_iter,
{
    proof {
        assert((v.nx as int) * (v.ny as int) <= 16777216) by (nonlinear_arith)
            requires 1 <= v.nx <= 4096, 1 <= v.ny <= 4096;
    }
    let n = v.nx * v.ny;
    let mut w: Vec<usize> = Vec::new();
    let mut i: usize = 0;
    while i < n
        invariant
            i <= n,
            n == v.npix(),
            v.wf(),
            1 <= max_iter,
            w@.len() == i,
            forall|k: int| 0 <= k < i ==> w@[k] == work_spec(*v, max_iter as nat)[k],
            forall|k: int| 0 <= k < i ==> w@[k] < max_iter,
        decreases n - i,
    {
        let c = v.coord_at(i);
        let e = escape_count(c.0, c.1, max_iter);
        w.push(e);
        i += 1;
    }
    proof {
        assert(w@ =~= work_spec(*v, max_iter as nat));
    }
    w
}

} // verus!
