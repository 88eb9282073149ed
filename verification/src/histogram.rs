//! The histogram binner: turns raw per-pixel escape values into palette
//! weights with roughly equal pixel population per color bucket.
//!
//! Three passes, run in order each frame: count how often each escape value
//! occurs, replace the counts by their cumulative sum (forcing the sentinel's
//! count to zero first so non-escaping pixels cannot warp the gradient), and
//! walk the cumulative sum with a running bin counter that advances whenever
//! the sum crosses the next multiple of the population threshold.

use vstd::prelude::*;
use vstd::arithmetic::div_mod::{lemma_div_pos_is_pos, lemma_fundamental_div_mod};

verus! {

/// How many entries of `s` equal `v`.
pub open spec fn count_val(s: Seq<usize>, v: int) -> int
    decreases s.len(),
{
    if s.len() == 0 {
        0
    } else {
        count_val(s.drop_last(), v) + if s.last() as int == v {
            1int
        } else {
            0int
        }
    }
}

/// Sum of all entries of `s`.
pub open spec fn seq_sum(s: Seq<usize>) -> int
    decreases s.len(),
{
    if s.len() == 0 {
        0
    } else {
        seq_sum(s.drop_last()) + s.last()
    }
}

/// The frequency table of `w`: entry `v` counts the pixels whose escape
/// value is exactly `v`.
pub open spec fn freq_spec(w: Seq<usize>, max_iter: nat) -> Seq<usize> {
    Seq::new(max_iter, |v: int| count_val(w, v) as usize)
}

/// Cumulative sum of `f` that skips entry `0`: the sentinel's frequency is
/// discarded, and entry `v` holds the sum of `f[1] ..= f[v]`.
pub open spec fn cum_at(f: Seq<usize>, v: int) -> int
    decreases v,
{
    if v <= 0 {
        0
    } else {
        cum_at(f, v - 1) + f[v]
    }
}

/// The whole cumulative-sum table of `f`.
pub open spec fn cum_spec(f: Seq<usize>) -> Seq<usize> {
    Seq::new(f.len(), |v: int| cum_at(f, v) as usize)
}

/// The population threshold of one color bucket: the total escaping
/// population divided by the number of bucket boundaries.
pub open spec fn bin_threshold(c: Seq<usize>, n_colors: int) -> int {
    (c[c.len() - 1] as int) / (n_colors - 1)
}

/// Bin id assigned to iteration value `v`: a running counter that advances
/// whenever the cumulative population at `v` exceeds `thr` times the counter.
pub open spec fn bin_at(c: Seq<usize>, thr: int, v: int) -> int
    decreases v,
{
    if v <= 0 {
        0
    } else {
        let b = bin_at(c, thr, v - 1);
        if c[v] > thr * b {
            b + 1
        } else {
            b
        }
    }
}

/// The whole palette table over the cumulative sums `c`: entry `0` is kept,
/// every later entry is its bin id.
pub open spec fn bins_spec(c: Seq<usize>, n_colors: int) -> Seq<usize> {
    Seq::new(
        c.len(),
        |v: int| if v == 0 {
            c[0]
        } else {
            bin_at(c, bin_threshold(c, n_colors), v) as usize
        },
    )
}

/// Appending an entry raises exactly that value's count by one.
proof fn lemma_count_push(s: Seq<usize>, x: usize, v: int)
    ensures
        count_val(s.push(x), v) == count_val(s, v) + if x as int == v {
            1int
        } else {
            0int
        },
{
    assert(s.push(x).drop_last() =~= s);
}

/// A count never exceeds the sequence length.
proof fn lemma_count_bound(s: Seq<usize>, v: int)
    ensures
        0 <= count_val(s, v) <= s.len(),
    decreases s.len(),
{
    if s.len() > 0 {
        lemma_count_bound(s.drop_last(), v);
    }
}

/// Replacing one entry shifts the sum by the difference of the entries.
proof fn lemma_sum_update(s: Seq<usize>, i: int, x: usize)
    requires
        0 <= i < s.len(),
    ensures
        seq_sum(s.update(i, x)) == seq_sum(s) - s[i] + x,
    decreases s.len(),
{
    if i == s.len() - 1 {
        assert(s.update(i, x).drop_last() =~= s.drop_last());
    } else {
        assert(s.update(i, x).drop_last() =~= s.drop_last().update(i, x));
        lemma_sum_update(s.drop_last(), i, x);
    }
}

/// A sum of unsigned entries is nonnegative.
proof fn lemma_sum_nonneg(s: Seq<usize>)
    ensures
        0 <= seq_sum(s),
    decreases s.len(),
{
    if s.len() > 0 {
        lemma_sum_nonneg(s.drop_last());
    }
}

/// A prefix sum never exceeds the whole sum.
proof fn lemma_sum_take_le(s: Seq<usize>, k: int)
    requires
        0 <= k <= s.len(),
    ensures
        seq_sum(s.take(k)) <= seq_sum(s),
    decreases s.len() - k,
{
    if k == s.len() {
        assert(s.take(k) =~= s);
    } else {
        assert(s.take(k + 1).drop_last() =~= s.take(k));
        lemma_sum_take_le(s, k + 1);
    }
}

/// The skipping cumulative sum is trapped between zero and the whole sum.
proof fn lemma_cum_bounds(f: Seq<usize>, v: int)
    requires
        0 <= v < f.len(),
    ensures
        0 <= cum_at(f, v) <= seq_sum(f),
    decreases v,
{
    if v == 0 {
        lemma_sum_nonneg(f);
    } else {
        lemma_cum_le_take(f, v);
        lemma_sum_take_le(f, v + 1);
        lemma_cum_nonneg(f, v);
    }
}

/// The skipping cumulative sum is nonnegative.
proof fn lemma_cum_nonneg(f: Seq<usize>, v: int)
    ensures
        0 <= cum_at(f, v),
    decreases v,
{
    if v > 0 {
        lemma_cum_nonneg(f, v - 1);
    }
}

/// The skipping cumulative sum at `v` is at most the plain sum of the first
/// `v + 1` entries.
proof fn lemma_cum_le_take(f: Seq<usize>, v: int)
    requires
        0 <= v < f.len(),
    ensures
        cum_at(f, v) <= seq_sum(f.take(v + 1)),
    decreases v,
{
    if v == 0 {
        assert(f.take(1).drop_last() =~= f.take(0));
        lemma_sum_nonneg(f.take(1));
    } else {
        lemma_cum_le_take(f, v - 1);
        assert(f.take(v + 1).drop_last() =~= f.take(v));
    }
}

/// A bin id never exceeds its iteration value, and never decreases.
proof fn lemma_bin_at_range(c: Seq<usize>, thr: int, v: int)
    requires
        0 <= v,
    ensures
        0 <= bin_at(c, thr, v) <= v,
        v >= 1 ==> bin_at(c, thr, v - 1) <= bin_at(c, thr, v),
    decreases v,
{
    if v >= 1 {
        lemma_bin_at_range(c, thr, v - 1);
    }
}

/// Count the frequency of each escape value over the work buffer.
pub fn iteration_frequency(work: &Vec<usize>, max_iter: usize) -> (h: Vec<usize>)
    requires
        1 <= max_iter,
        work@.len() <= 16777216,
        forall|k: int| 0 <= k < work@.len() ==> work@[k] < max_iter,
    ensures
        h@ == freq_spec(work@, max_iter as nat),
        h@.len() == max_iter,
        seq_sum(h@) == work@.len(),
        forall|v: int| 0 <= v < max_iter ==> h@[v] as int == count_val(work@, v),
{
    let mut h: Vec<usize> = Vec::new();
    let mut z: usize = 0;
    while z < max_iter
        invariant
            z <= max_iter,
            h@.len() == z,
            seq_sum(h@) == 0,
            forall|u: int| 0 <= u < z ==> h@[u] == 0usize,
        decreases max_iter - z,
    {
        proof {
            assert(h@.push(0usize).drop_last() =~= h@);
        }
        h.push(0);
        z += 1;
    }
    let n = work.len();
    let mut i: usize = 0;
    while i < n
        invariant
            i <= n,
            n == work@.len() <= 16777216,
            1 <= max_iter,
            h@.len() == max_iter,
            forall|k: int| 0 <= k < n ==> work@[k] < max_iter,
            seq_sum(h@) == i,
            forall|u: int| 0 <= u < max_iter ==> h@[u] as int == count_val(work@.take(i as int), u),
        decreases n - i,
    {
        let idx = work[i];
        let cur = h[idx];
        proof {
            lemma_count_bound(work@.take(i as int), idx as int);
            lemma_sum_update(h@, idx as int, (cur + 1) as usize);
            assert(work@.take(i as int).push(work@[i as int]) =~= work@.take(i as int + 1));
            assert forall|u: int| 0 <= u < max_iter implies count_val(work@.take(i as int + 1), u)
                == count_val(work@.take(i as int), u) + if idx as int == u { 1int } else { 0int } by {
                lemma_count_push(work@.take(i as int), work@[i as int], u);
            }
        }
        h[idx] = cur + 1;
        i += 1;
    }
    proof {
        assert(work@.take(n as int) =~= work@);
        assert(h@ =~= freq_spec(work@, max_iter as nat));
    }
    h
}

/// Build the cumulative-sum table of the frequencies, discarding the
/// sentinel's count: entry `0` becomes `0` and each later entry adds its
/// frequency to the previous total, which therefore never decreases.
pub fn frequency_cumsum(freq: &Vec<usize>) -> (c: Vec<usize>)
    requires
        1 <= freq@.len(),
        seq_sum(freq@) <= 4294967295,
    ensures
        c@ == cum_spec(freq@),
        c@.len() == freq@.len(),
        c@[0] == 0usize,
        forall|v: int| 1 <= v < c@.len() ==> c@[v] as int == c@[v - 1] as int + freq@[v] as int,
        forall|v: int| 1 <= v < c@.len() ==> c@[v - 1] <= #[trigger] c@[v],
        forall|v: int| 0 <= v < c@.len() ==> c@[v] as int <= seq_sum(freq@),
{
    let mut c: Vec<usize> = Vec::new();
    c.push(0);
    let n = freq.len();
    let mut v: usize = 1;
    while v < n
        invariant
            1 <= v <= n,
            n == freq@.len(),
            seq_sum(freq@) <= 4294967295,
            c@.len() == v,
            forall|u: int| 0 <= u < v ==> c@[u] as int == cum_at(freq@, u),
        decreases n - v,
    {
        proof {
            lemma_cum_bounds(freq@, v as int);
            lemma_cum_nonneg(freq@, v as int - 1);
        }
        let prev = c[v - 1];
        let x = prev + freq[v];
        c.push(x);
        v += 1;
    }
    proof {
        assert(c@ =~= cum_spec(freq@));
        assert forall|u: int| 0 <= u < c@.len() implies c@[u] as int <= seq_sum(freq@) by {
            lemma_cum_bounds(freq@, u);
        }
        assert forall|u: int| 0 <= u < c@.len() implies 0 <= cum_at(freq@, u) by {
            lemma_cum_nonneg(freq@, u);
        }
    }
    c
}

/// Bin the cumulative sums into palette weights: walk the table with a
/// running bin counter that advances whenever the population exceeds the
/// next multiple of the threshold.  Bin ids never decrease as the iteration
/// value increases, and never exceed the iteration value itself.
pub fn iteration_binner(cum: &Vec<usize>, n_colors: usize) -> (p: Vec<usize>)
    requires
        1 <= cum@.len() <= 1048576,
        2 <= n_colors,
        forall|v: int| 0 <= v < cum@.len() ==> cum@[v] <= 4294967295,
    ensures
        p@ == bins_spec(cum@, n_colors as int),
        p@.len() == cum@.len(),
        p@[0] == cum@[0],
        forall|v: int| 1 <= v < p@.len() ==> p@[v] as int == bin_at(
            cum@, bin_threshold(cum@, n_colors as int), v),
        forall|v: int| 1 <= v < p@.len() ==> p@[v] <= v,
        forall|v: int| 2 <= v < p@.len() ==> p@[v - 1] <= #[trigger] p@[v],
{
    let n = cum.len();
    let thr = cum[n - 1] / (n_colors - 1);
    let mut p: Vec<usize> = Vec::new();
    p.push(cum[0]);
    let mut bin: usize = 0;
    let mut v: usize = 1;
    while v < n
        invariant
            1 <= v <= n,
            n == cum@.len() <= 1048576,
            forall|u: int| 0 <= u < n ==> cum@[u] <= 4294967295,
            thr as int == bin_threshold(cum@, n_colors as int),
            thr <= 4294967295,
            p@.len() == v,
            bin as int == bin_at(cum@, thr as int, v as int - 1),
            bin as int <= v as int - 1,
            p@[0] == cum@[0],
            forall|u: int| 1 <= u < v ==> p@[u] as int == bin_at(cum@, thr as int, u),
        decreases n - v,
    {
        proof {
            assert((thr as int) * (bin as int) <= 4503599627370496) by (nonlinear_arith)
                requires thr <= 4294967295, 0 <= bin <= 1048575;
            lemma_bin_at_range(cum@, thr as int, v as int);
        }
        if (cum[v] as u64) > (thr as u64) * (bin as u64) {
            bin = bin + 1;
        }
        p.push(bin);
        v += 1;
    }
    proof {
        assert(p@ =~= bins_spec(cum@, n_colors as int));
        assert forall|u: int| 1 <= u < p@.len() implies p@[u] <= u by {
            lemma_bin_at_range(cum@, thr as int, u);
        }
        assert forall|u: int| 2 <= u < p@.len() implies p@[u - 1] <= #[trigger] p@[u] by {
            lemma_bin_at_range(cum@, thr as int, u);
        }
    }
    p
}

/// Every entry of a non-decreasing table is at most its last entry.
proof fn lemma_le_last(c: Seq<usize>, v: int)
    requires
        1 <= c.len(),
        0 <= v < c.len(),
        forall|u: int| 1 <= u < c.len() ==> c[u - 1] <= #[trigger] c[u],
    ensures
        c[v] <= c[c.len() - 1],
    decreases c.len() - v,
{
    if v < c.len() - 1 {
        lemma_le_last(c, v + 1);
    }
}

/// Wherever a bin id is positive, the threshold times the previous bin id
/// lies strictly below the cumulative population at that entry.
proof fn lemma_bin_window(c: Seq<usize>, thr: int, v: int)
    requires
        0 <= thr,
        0 <= v < c.len(),
        forall|u: int| 1 <= u < c.len() ==> c[u - 1] <= #[trigger] c[u],
    ensures
        bin_at(c, thr, v) >= 1 ==> thr * (bin_at(c, thr, v) - 1) < c[v],
    decreases v,
{
    if v >= 1 {
        lemma_bin_window(c, thr, v - 1);
    }
}

/// When the total escaping population is an exact multiple of
/// `n_colors - 1`, every bin id lies in `[0, n_colors - 1]`: the palette
/// never steps outside its configured color range.
pub proof fn lemma_bins_within_palette(c: Seq<usize>, n_colors: int)
    requires
        1 <= c.len(),
        2 <= n_colors,
        forall|u: int| 1 <= u < c.len() ==> c[u - 1] <= #[trigger] c[u],
        (c[c.len() - 1] as int) % (n_colors - 1) == 0,
    ensures
        forall|v: int| 0 <= v < c.len() ==> 0 <= #[trigger] bin_at(
            c, bin_threshold(c, n_colors), v) <= n_colors - 1,
{
    let thr = bin_threshold(c, n_colors);
    lemma_div_pos_is_pos(c[c.len() - 1] as int, n_colors - 1);
    lemma_fundamental_div_mod(c[c.len() - 1] as int, n_colors - 1);
    assert(c[c.len() - 1] as int == (n_colors - 1) * thr);
    assert forall|v: int| 0 <= v < c.len() implies 0 <= #[trigger] bin_at(c, thr, v)
        <= n_colors - 1 by {
        lemma_bin_at_range(c, thr, v);
        if bin_at(c, thr, v) > n_colors - 1 {
            lemma_bin_window(c, thr, v);
            lemma_le_last(c, v);
            assert(thr * (n_colors - 1) <= thr * (bin_at(c, thr, v) - 1)) by (nonlinear_arith)
                requires 0 <= thr, n_colors - 1 <= bin_at(c, thr, v) - 1;
            assert((n_colors - 1) * thr == thr * (n_colors - 1)) by (nonlinear_arith);
        }
    }
}

} // verus!
