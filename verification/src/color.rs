//! The colorizer: writes the output pixel buffer.
//!
//! Each pixel's escape value selects a palette weight; every color channel
//! of the configured base color is scaled by that weight's fraction of the
//! color count, and the fourth channel is fixed fully opaque.  The buffer is
//! rewritten densely, four channels per pixel in row-major pixel order.

use vstd::prelude::*;
use vstd::arithmetic::div_mod::{
    lemma_fundamental_div_mod_converse_div, lemma_fundamental_div_mod_converse_mod,
};

verus! {

/// One output channel: the base channel scaled by `weight / n_colors`, kept
/// to the low eight bits as the narrowing store does.
pub open spec fn channel_spec(base: u8, weight: int, n_colors: int) -> u8 {
    ((((base as int) * weight) / n_colors) % 256) as u8
}

/// The full frame buffer: four channels per pixel, the first three scaled
/// from the base color through the pixel's palette weight, the fourth opaque.
pub open spec fn image_spec(
    w: Seq<usize>,
    palette: Seq<usize>,
    n_colors: int,
    red: u8,
    green: u8,
    blue: u8,
) -> Seq<u8> {
    Seq::new(
        4 * w.len(),
        |k: int| {
            let i = k / 4;
            let ch = k % 4;
            if ch == 0 {
                channel_spec(red, palette[w[i] as int] as int, n_colors)
            } else if ch == 1 {
                channel_spec(green, palette[w[i] as int] as int, n_colors)
            } else if ch == 2 {
                channel_spec(blue, palette[w[i] as int] as int, n_colors)
            } else {
                255u8
            }
        },
    )
}

/// Scale one base channel by `weight / n_colors`.
fn color_channel(base: u8, weight: usize, n_colors: usize) -> (ch: u8)
    requires
        1 <= n_colors,
        weight <= 1048576,
    ensures
        ch == channel_spec(base, weight as int, n_colors as int),
{
    proof {
        assert(0 <= (base as int) * (weight as int) <= 267386880) by (nonlinear_arith)
            requires base <= 255, 0 <= weight <= 1048576;
    }
    let q = ((base as usize) * weight) / n_colors;
    (q % 256) as u8
}

/// Render the work buffer into a fresh RGBA frame buffer.
pub fn iterations_to_color(
    work: &Vec<usize>,
    palette: &Vec<usize>,
    n_colors: usize,
    red: u8,
    green: u8,
    blue: u8,
) -> (img: Vec<u8>)
    requires
        1 <= n_colors,
        work@.len() <= 16777216,
        forall|k: int| 0 <= k < work@.len() ==> (work@[k] as int) < palette@.len(),
        forall|v: int| 0 <= v < palette@.len() ==> palette@[v] <= 1048576,
    ensures
        img@ == image_spec(work@, palette@, n_colors as int, red, green, blue),
        img@.len() == 4 * work@.len(),
{
    let ghost goal = image_spec(work@, palette@, n_colors as int, red, green, blue);
    let n = work.len();
    let mut img: Vec<u8> = Vec::new();
    let mut i: usize = 0;
    while i < n
        invariant
            i <= n,
            n == work@.len() <= 16777216,
            1 <= n_colors,
            forall|k: int| 0 <= k < work@.len() ==> (work@[k] as int) < palette@.len(),
            forall|v: int| 0 <= v < palette@.len() ==> palette@[v] <= 1048576,
            goal == image_spec(work@, palette@, n_colors as int, red, green, blue),
            img@.len() == 4 * i,
            forall|k: int| 0 <= k < 4 * i ==> img@[k] == goal[k],
        decreases n - i,
    {
        let wgt = palette[work[i]];
        let r = color_channel(red, wgt, n_colors);
        let g = color_channel(green, wgt, n_colors);
        let b = color_channel(blue, wgt, n_colors);
        img.push(r);
        img.push(g);
        img.push(b);
        img.push(255);
        proof {
            let base = 4 * (i as int);
            assert forall|ch: int| 0 <= ch < 4 implies #[trigger] ((base + ch) / 4) == i as int
                && (base + ch) % 4 == ch by {
                lemma_fundamental_div_mod_converse_div(base + ch, 4, i as int, ch);
                lemma_fundamental_div_mod_converse_mod(base + ch, 4, i as int, ch);
            }
        }
        i += 1;
    }
    proof {
        assert(img@ =~= goal);
    }
    img
}

} // verus!
