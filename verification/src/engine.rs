//! The engine: one instance owns the viewport, the per-frame work buffers
//! and the output pixel buffer, and runs the whole pipeline per frame.
//!
//! A frame is a pure function of the viewport and the configuration:
//! [`frame_spec`] states it, and [`Mandelbrot::update_image`] is proved to
//! produce exactly that buffer after applying the requested zoom.

use vstd::prelude::*;
use crate::color::{image_spec, iterations_to_color};
use crate::escape::{compute_escapes, work_spec};
use crate::fx::SCALE;
use crate::histogram::{
    bins_spec, cum_spec, freq_spec, frequency_cumsum, iteration_binner, iteration_frequency,
};
use crate::viewport::{lemma_identity_rescale, rescale_spec, Viewport, CORNER_LIM, N_LIM};

verus! {

/// Largest accepted iteration budget.
pub const ITER_LIM: usize = 1048576;

/// The palette a work buffer induces: frequencies, then their cumulative
/// sum with the sentinel discarded, then equal-population bin ids.
pub open spec fn palette_spec(w: Seq<usize>, max_iter: nat, n_colors: int) -> Seq<usize> {
    bins_spec(cum_spec(freq_spec(w, max_iter)), n_colors)
}

/// The frame a viewport renders to under the given configuration: every
/// pixel's escape value, pushed through its palette weight into a color.
pub open spec fn frame_spec(
    v: Viewport,
    max_iter: nat,
    n_colors: int,
    red: u8,
    green: u8,
    blue: u8,
) -> Seq<u8> {
    let w = work_spec(v, max_iter);
    image_spec(w, palette_spec(w, max_iter, n_colors), n_colors, red, green, blue)
}

/// Zooming to the whole current view leaves the rendered frame unchanged:
/// the identity zoom box reproduces the previous frame exactly.
pub proof fn lemma_identity_zoom_same_frame(
    v: Viewport,
    max_iter: nat,
    n_colors: int,
    red: u8,
    green: u8,
    blue: u8,
)
    requires
        v.wf(),
        v.dx == v.dy,
    ensures
        frame_spec(
            rescale_spec(v, 0, 0, SCALE as int, SCALE as int),
            max_iter, n_colors, red, green, blue,
        ) == frame_spec(v, max_iter, n_colors, red, green, blue),
{
    lemma_identity_rescale(v);
}

/// All the state of one Mandelbrot image generator.
pub struct Mandelbrot {
    /// The current view of the plane.
    pub view: Viewport,
    /// Iteration budget of the escape evaluator.
    pub max_iter: usize,
    /// Number of colors of the rendered image.
    pub n_colors: usize,
    /// Red channel of the base color.
    pub red: u8,
    /// Green channel of the base color.
    pub green: u8,
    /// Blue channel of the base color.
    pub blue: u8,
    /// Work buffer: the escape value of every pixel of the current frame.
    pub work: Vec<usize>,
    /// The RGBA pixel buffer of the current frame.
    pub img: Vec<u8>,
    /// Mapping from escape value to palette weight for the current frame.
    pub iterations: Vec<usize>,
}

impl Mandelbrot {
    /// Shape invariant: the viewport is well formed, the configuration is in
    /// range, and every buffer has its fixed full-frame length.
    pub open spec fn wf(self) -> bool {
        &&& self.view.wf()
        &&& 1 <= self.max_iter <= ITER_LIM
        &&& 2 <= self.n_colors
        &&& self.work@.len() == self.view.npix()
        &&& self.img@.len() == 4 * self.view.npix()
        &&& self.iterations@.len() == self.max_iter
    }

    /// Build a generator at the most zoomed-out position: the view spans the
    /// corner rectangle, and all per-frame buffers are allocated zeroed at
    /// their fixed full-frame size.
    pub fn new(
        x0: i64, y0: i64, x1: i64, y1: i64,
        nx: usize, ny: usize, max_iter: usize, n_colors: usize,
        red: u8, green: u8, blue: u8,
    ) -> (m: Mandelbrot)
        requires
            1 <= nx <= N_LIM,
            1 <= ny <= N_LIM,
            -CORNER_LIM <= x0 <= CORNER_LIM,
            -CORNER_LIM <= x1 <= CORNER_LIM,
            -CORNER_LIM <= y0 <= CORNER_LIM,
            -CORNER_LIM <= y1 <= CORNER_LIM,
            x0 < x1,
            y0 < y1,
            1 <= max_iter <= ITER_LIM,
            2 <= n_colors,
        ensures
            m.wf(),
            m.view.z0x == x0,
            m.view.z0y == y0,
            m.view.nx == nx,
            m.view.ny == ny,
            m.view.dx as int == (x1 - x0) / (nx as int),
            m.view.dy as int == (y1 - y0) / (ny as int),
            m.max_iter == max_iter,
            m.n_colors == n_colors,
            m.red == red,
            m.green == green,
            m.blue == blue,
            forall|k: int| 0 <= k < m.work@.len() ==> m.work@[k] == 0usize,
            forall|k: int| 0 <= k < m.img@.len() ==> m.img@[k] == 0u8,
            forall|k: int| 0 <= k < m.iterations@.len() ==> m.iterations@[k] == 0usize,
    {
        let view = Viewport::new(x0, y0, x1, y1, nx, ny);
        proof {
            assert(0 <= (nx as int) * (ny as int) <= 16777216) by (nonlinear_arith)
                requires 1 <= nx <= N_LIM, 1 <= ny <= N_LIM;
        }
        let npix = nx * ny;
        let work = zeros_usize(npix);
        let img = zeros_u8(4 * npix);
        let iterations = zeros_usize(max_iter);
        Mandelbrot { view, max_iter, n_colors, red, green, blue, work, img, iterations }
    }

    /// Borrow the current frame's pixel data read-only; the borrow is valid
    /// until the next call to [`Mandelbrot::update_image`].
    pub fn get_image(&self) -> (img: &Vec<u8>)
        ensures
            img@ == self.img@,
    {
        &self.img
    }

    /// Run one full frame: narrow the view to the requested relative zoom
    /// box, evaluate every pixel's escape value, rebuild the histogram
    /// palette, and rewrite the whole pixel buffer.
    pub fn update_image(&mut self, rx0: i64, ry0: i64, rx1: i64, ry1: i64)
        requires
            old(self).wf(),
            0 <= rx0 <= SCALE,
            0 <= ry0 <= SCALE,
            0 <= rx1 <= SCALE,
            0 <= ry1 <= SCALE,
        ensures
            final(self).wf(),
            final(self).view == rescale_spec(
                old(self).view, rx0 as int, ry0 as int, rx1 as int, ry1 as int),
            final(self).max_iter == old(self).max_iter,
            final(self).n_colors == old(self).n_colors,
            final(self).red == old(self).red,
            final(self).green == old(self).green,
            final(self).blue == old(self).blue,
            final(self).work@ == work_spec(final(self).view, old(self).max_iter as nat),
            final(self).iterations@ == palette_spec(
                final(self).work@, old(self).max_iter as nat, old(self).n_colors as int),
            final(self).img@ == frame_spec(
                final(self).view, old(self).max_iter as nat, old(self).n_colors as int,
                old(self).red, old(self).green, old(self).blue),
    {
        self.view.rescale(rx0, ry0, rx1, ry1);
        proof {
            assert(0 <= (self.view.nx as int) * (self.view.ny as int) <= 16777216)
                by (nonlinear_arith)
                requires 1 <= self.view.nx <= N_LIM, 1 <= self.view.ny <= N_LIM;
        }
        let w = compute_escapes(&self.view, self.max_iter);
        let h = iteration_frequency(&w, self.max_iter);
        let c = frequency_cumsum(&h);
        let p = iteration_binner(&c, self.n_colors);
        let img = iterations_to_color(&w, &p, self.n_colors, self.red, self.green, self.blue);
        self.work = w;
        self.iterations = p;
        self.img = img;
    }
}

/// A zero-filled `usize` buffer of length `n`.
fn zeros_usize(n: usize) -> (v: Vec<usize>)
    ensures
        v@.len() == n,
        forall|k: int| 0 <= k < n ==> v@[k] == 0usize,
{
    let mut v: Vec<usize> = Vec::new();
    let mut i: usize = 0;
    while i < n
        invariant
            i <= n,
            v@.len() == i,
            forall|k: int| 0 <= k < i ==> v@[k] == 0usize,
        decreases n - i,
    {
        v.push(0);
        i += 1;
    }
    v
}

/// A zero-filled byte buffer of length `n`.
fn zeros_u8(n: usize) -> (v: Vec<u8>)
    ensures
        v@.len() == n,
        forall|k: int| 0 <= k < n ==> v@[k] == 0u8,
{
    let mut v: Vec<u8> = Vec::new();
    let mut i: usize = 0;
    while i < n
        invariant
            i <= n,
            v@.len() == i,
            forall|k: int| 0 <= k < i ==> v@[k] == 0u8,
        decreases n - i,
    {
        v.push(0);
        i += 1;
    }
    v
}

} // verus!
