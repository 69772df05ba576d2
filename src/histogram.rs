use vstd::arithmetic::div_mod::{lemma_div_by_multiple, lemma_div_is_ordered, lemma_div_pos_is_pos};
use vstd::arithmetic::mul::lemma_mul_inequality;
use vstd::prelude::*;

use crate::errors::{InputError, ProcessError};
use crate::image::{Color, Plane, Point};

verus! {

/// Number of intensity bins of an 8-bit plane.
pub const BINS: usize = 256;

/// Width of the histogram plot in pixels.
pub const PLOT_WIDTH: usize = 512;

/// Height of the histogram plot in pixels; bin values are scaled into `[0, PLOT_HEIGHT]`.
pub const PLOT_HEIGHT: usize = 400;

/// How many of the first `n` samples of `s` equal `v`.
pub open spec fn count_upto(s: Seq<u8>, n: int, v: int) -> nat
    decreases n,
{
    if n <= 0 {
        0
    } else {
        count_upto(s, n - 1, v) + if s[n - 1] as int == v {
            1nat
        } else {
            0nat
        }
    }
}

/// The sum of the first `n` entries of `h`.
pub open spec fn sum_upto(h: Seq<usize>, n: int) -> int
    decreases n,
{
    if n <= 0 {
        0
    } else {
        sum_upto(h, n - 1) + h[n - 1]
    }
}

proof fn lemma_sum_bump(h: Seq<usize>, k: int, n: int)
    requires
        0 <= k < h.len(),
        0 <= n <= h.len(),
        h[k] < usize::MAX,
    ensures
        sum_upto(h.update(k, (h[k] + 1) as usize), n) == sum_upto(h, n) + if k < n {
            1int
        } else {
            0int
        },
    decreases n,
{
    if n > 0 {
        lemma_sum_bump(h, k, n - 1);
    }
}

/// Counts the samples of an 8-bit plane into `BINS` bins, one per intensity.
pub fn calculate_histogram(plane: &Plane) -> (hist: Vec<usize>)
    ensures
        hist@.len() == BINS,
        forall|v: int| 0 <= v < BINS ==> #[trigger] hist@[v] == count_upto(plane.data@, plane.data@.len() as int, v),
        sum_upto(hist@, BINS as int) == plane.data@.len(),
{
    let mut hist: Vec<usize> = Vec::new();
    let mut v: usize = 0;
    while v < BINS
        invariant
            v <= BINS,
            hist@.len() == v,
            forall|u: int| 0 <= u < v ==> #[trigger] hist@[u] == 0,
        decreases BINS - v,
    {
        hist.push(0);
        v = v + 1;
    }
    proof {
        assert forall|n: int| 0 <= n <= BINS implies sum_upto(hist@, n) == 0 by {
            lemma_sum_zero(hist@, n);
        }
    }
    let n = plane.data.len();
    let mut i: usize = 0;
    while i < n
        invariant
            n == plane.data@.len(),
            i <= n,
            hist@.len() == BINS,
            forall|u: int| 0 <= u < BINS ==> #[trigger] hist@[u] == count_upto(plane.data@, i as int, u),
            forall|u: int| 0 <= u < BINS ==> #[trigger] hist@[u] <= i,
            sum_upto(hist@, BINS as int) == i,
        decreases n - i,
    {
        let s = plane.data[i] as usize;
        let c = hist[s];
        proof {
            lemma_sum_bump(hist@, s as int, BINS as int);
        }
        hist.set(s, c + 1);
        i = i + 1;
    }
    hist
}

proof fn lemma_sum_zero(h: Seq<usize>, n: int)
    requires
        0 <= n <= h.len(),
        forall|u: int| 0 <= u < h.len() ==> #[trigger] h[u] == 0,
    ensures
        sum_upto(h, n) == 0,
    decreases n,
{
    if n > 0 {
        lemma_sum_zero(h, n - 1);
    }
}

/// The smallest entry of `s` (0 when `s` is empty).
pub open spec fn seq_min(s: Seq<usize>) -> int
    decreases s.len(),
{
    if s.len() == 0 {
        0
    } else if s.len() == 1 {
        s[0] as int
    } else {
        let m = seq_min(s.drop_last());
        if (s.last() as int) < m {
            s.last() as int
        } else {
            m
        }
    }
}

/// The largest entry of `s` (0 when `s` is empty).
pub open spec fn seq_max(s: Seq<usize>) -> int
    decreases s.len(),
{
    if s.len() == 0 {
        0
    } else if s.len() == 1 {
        s[0] as int
    } else {
        let m = seq_max(s.drop_last());
        if (s.last() as int) > m {
            s.last() as int
        } else {
            m
        }
    }
}

/// `v` moved from the range `[lo, hi]` onto `[0, top]`, rounded down; every
/// value maps to 0 when the range is a single point.
pub open spec fn scaled(v: int, lo: int, hi: int, top: int) -> int {
    if hi <= lo {
        0
    } else {
        (v - lo) * top / (hi - lo)
    }
}

/// Min-max normalization of `h` into `[0, top]`.
pub open spec fn normalized(h: Seq<usize>, top: usize) -> Seq<usize> {
    Seq::new(h.len(), |i: int| scaled(h[i] as int, seq_min(h), seq_max(h), top as int) as usize)
}

proof fn lemma_min_max(s: Seq<usize>)
    requires
        s.len() > 0,
    ensures
        forall|i: int| 0 <= i < s.len() ==> seq_min(s) <= #[trigger] s[i] <= seq_max(s),
        exists|i: int| 0 <= i < s.len() && #[trigger] s[i] == seq_min(s),
        exists|i: int| 0 <= i < s.len() && #[trigger] s[i] == seq_max(s),
    decreases s.len(),
{
    if s.len() == 1 {
        assert(s[0] == seq_min(s));
        assert(s[0] == seq_max(s));
    } else {
        let t = s.drop_last();
        lemma_min_max(t);
        assert forall|i: int| 0 <= i < s.len() implies seq_min(s) <= #[trigger] s[i] <= seq_max(s) by {
            if i < t.len() {
                assert(s[i] == t[i]);
            }
        }
        let a = choose|i: int| 0 <= i < t.len() && #[trigger] t[i] == seq_min(t);
        let b = choose|i: int| 0 <= i < t.len() && #[trigger] t[i] == seq_max(t);
        assert(s[a] == t[a]);
        assert(s[b] == t[b]);
        if (s.last() as int) < seq_min(t) {
            assert(s[s.len() - 1] == seq_min(s));
        } else {
            assert(s[a] == seq_min(s));
        }
        if (s.last() as int) > seq_max(t) {
            assert(s[s.len() - 1] == seq_max(s));
        } else {
            assert(s[b] == seq_max(s));
        }
    }
}

proof fn lemma_scaled_range(v: int, lo: int, hi: int, top: int)
    requires
        lo <= v <= hi,
        0 <= top,
    ensures
        0 <= scaled(v, lo, hi, top) <= top,
        hi > lo ==> scaled(lo, lo, hi, top) == 0,
        hi > lo ==> scaled(hi, lo, hi, top) == top,
{
    if hi > lo {
        lemma_mul_inequality(v - lo, hi - lo, top);
        lemma_mul_inequality(0, v - lo, top);
        lemma_div_pos_is_pos((v - lo) * top, hi - lo);
        lemma_div_is_ordered((v - lo) * top, (hi - lo) * top, hi - lo);
        assert((hi - lo) * top == top * (hi - lo)) by (nonlinear_arith);
        lemma_div_by_multiple(top, hi - lo);
        assert(0 * top == 0);
        assert((hi - lo) * top / (hi - lo) == top);
    }
}

/// Normalizing a histogram that was already normalized into `[0, top]`, with
/// the same `top`, gives back the same values.
pub proof fn lemma_normalize_idempotent(h: Seq<usize>, top: usize)
    ensures
        normalized(normalized(h, top), top) == normalized(h, top),
{
    let n1 = normalized(h, top);
    if h.len() == 0 {
        assert(normalized(n1, top) =~= n1);
        return;
    }
    lemma_min_max(h);
    let lo = seq_min(h);
    let hi = seq_max(h);
    assert forall|i: int| 0 <= i < h.len() implies 0 <= #[trigger] scaled(h[i] as int, lo, hi, top as int) <= top by {
        lemma_scaled_range(h[i] as int, lo, hi, top as int);
    }
    lemma_min_max(n1);
    let a = choose|i: int| 0 <= i < h.len() && #[trigger] h[i] == lo;
    let b = choose|i: int| 0 <= i < h.len() && #[trigger] h[i] == hi;
    let m1 = choose|i: int| 0 <= i < n1.len() && #[trigger] n1[i] == seq_min(n1);
    let m2 = choose|i: int| 0 <= i < n1.len() && #[trigger] n1[i] == seq_max(n1);
    assert(0 <= n1[m1] <= top);
    assert(0 <= n1[m2] <= top);
    if hi > lo {
        lemma_scaled_range(lo, lo, hi, top as int);
        lemma_scaled_range(hi, lo, hi, top as int);
        assert(n1[a] == 0);
        assert(n1[b] == top);
        assert(seq_min(n1) == 0);
        assert(seq_max(n1) == top);
        if top > 0 {
            assert forall|i: int| 0 <= i < n1.len() implies #[trigger] scaled(n1[i] as int, 0, top as int, top as int) == n1[i] by {
                assert((n1[i] - 0) * top == n1[i] * top);
                lemma_div_by_multiple(n1[i] as int, top as int);
            }
        }
    } else {
        assert(n1[m1] == 0);
        assert(n1[m2] == 0);
    }
    assert(normalized(n1, top) =~= n1);
}

/// Min-max normalizes the bin values of `hist` into `[0, rows]`, rounding down.
pub fn normalize_histogram(hist: &Vec<usize>, rows: usize) -> (r: Vec<usize>)
    ensures
        r@ == normalized(hist@, rows),
{
    let n = hist.len();
    if n == 0 {
        let r: Vec<usize> = Vec::new();
        assert(r@ =~= normalized(hist@, rows));
        return r;
    }
    let mut lo: usize = hist[0];
    let mut hi: usize = hist[0];
    let mut i: usize = 1;
    assert(hist@.take(1) =~= seq![hist@[0]]);
    while i < n
        invariant
            n == hist@.len(),
            1 <= i <= n,
            lo == seq_min(hist@.take(i as int)),
            hi == seq_max(hist@.take(i as int)),
        decreases n - i,
    {
        assert(hist@.take(i + 1).drop_last() =~= hist@.take(i as int));
        let v = hist[i];
        if v < lo {
            lo = v;
        }
        if v > hi {
            hi = v;
        }
        i = i + 1;
    }
    assert(hist@.take(n as int) =~= hist@);
    proof {
        lemma_min_max(hist@);
    }
    let mut r: Vec<usize> = Vec::new();
    let mut j: usize = 0;
    while j < n
        invariant
            n == hist@.len(),
            j <= n,
            lo == seq_min(hist@),
            hi == seq_max(hist@),
            forall|k: int| 0 <= k < n ==> lo <= #[trigger] hist@[k] <= hi,
            r@ =~= normalized(hist@, rows).take(j as int),
        decreases n - j,
    {
        let v = hist[j];
        let x: usize = if hi == lo {
            0
        } else {
            proof {
                lemma_scaled_range(v as int, lo as int, hi as int, rows as int);
                lemma_mul_inequality(0, (v - lo) as int, rows as int);
                lemma_mul_inequality((v - lo) as int, usize::MAX as int, rows as int);
                lemma_mul_inequality(rows as int, usize::MAX as int, usize::MAX as int);
                assert(usize::MAX * usize::MAX <= u128::MAX) by (nonlinear_arith);
            }
            ((v - lo) as u128 * rows as u128 / (hi - lo) as u128) as usize
        };
        r.push(x);
        j = j + 1;
    }
    r
}

/// Every normalized value lies in `[0, top]`.
pub proof fn lemma_normalized_bounded(h: Seq<usize>, top: usize)
    ensures
        forall|k: int| 0 <= k < h.len() ==> #[trigger] normalized(h, top)[k] <= top,
{
    if h.len() > 0 {
        lemma_min_max(h);
        assert forall|k: int| 0 <= k < h.len() implies #[trigger] normalized(h, top)[k] <= top by {
            lemma_scaled_range(h[k] as int, seq_min(h), seq_max(h), top as int);
        }
    }
}

/// A straight line to be drawn from `from` to `to` in `color`.
#[derive(Clone, Copy, Debug, PartialEq, Eq, Structural)]
pub struct Segment {
    pub from: Point,
    pub to: Point,
    pub color: Color,
}

/// The color of channel `c` of a blue, green, red image.
pub open spec fn channel_color(c: int) -> Color {
    if c == 0 {
        Color { b: 255, g: 0, r: 0 }
    } else if c == 1 {
        Color { b: 0, g: 255, r: 0 }
    } else {
        Color { b: 0, g: 0, r: 255 }
    }
}

/// The segment joining bins `i - 1` and `i` of the normalized histogram
/// `norm`, with bins `bin_w` pixels apart and values measured up from the
/// bottom of the plot.
pub open spec fn plot_segment(norm: Seq<usize>, i: int, bin_w: int, color: Color) -> Segment {
    Segment {
        from: Point { x: (bin_w * (i - 1)) as i64, y: (PLOT_HEIGHT - norm[i - 1]) as i64 },
        to: Point { x: (bin_w * i) as i64, y: (PLOT_HEIGHT - norm[i]) as i64 },
        color,
    }
}

/// The segment joining bins `i - 1` and `i` in the plot of the first
/// `hist_size` bins of three histograms, channel `c` taken from `b`, `g`, `r`
/// for `c` = 0, 1, 2. Each histogram is normalized over all its bins.
pub open spec fn plot_entry(
    b: Seq<usize>,
    g: Seq<usize>,
    r: Seq<usize>,
    hist_size: int,
    i: int,
    c: int,
) -> Segment {
    let h = if c == 0 {
        b
    } else if c == 1 {
        g
    } else {
        r
    };
    plot_segment(normalized(h, PLOT_HEIGHT), i, PLOT_WIDTH as int / hist_size, channel_color(c))
}

fn segment(norm: &Vec<usize>, size: usize, i: usize, bin_w: usize, color: Color) -> (s: Segment)
    requires
        1 <= i < size <= norm@.len(),
        bin_w * size <= PLOT_WIDTH,
        forall|k: int| 0 <= k < norm@.len() ==> #[trigger] norm@[k] <= PLOT_HEIGHT,
    ensures
        s == plot_segment(norm@, i as int, bin_w as int, color),
{
    assert(bin_w * i <= bin_w * size) by (nonlinear_arith)
        requires
            i < size,
    ;
    assert(bin_w * (i - 1) <= bin_w * i) by (nonlinear_arith)
        requires
            1 <= i,
    ;
    let x0 = (bin_w * (i - 1)) as i64;
    let x1 = (bin_w * i) as i64;
    let y0 = (PLOT_HEIGHT - norm[i - 1]) as i64;
    let y1 = (PLOT_HEIGHT - norm[i]) as i64;
    Segment { from: Point { x: x0, y: y0 }, to: Point { x: x1, y: y1 }, color }
}

/// The line segments that plot the first `hist_size` bins of three
/// histograms on a `PLOT_WIDTH` x `PLOT_HEIGHT` canvas: each histogram is
/// normalized over all its bins into `[0, PLOT_HEIGHT]` and adjacent bins are
/// joined, blue, green and red in turn for each bin pair. Fails with
/// `HistogramShape` when `hist_size` is zero or a histogram has fewer bins.
pub fn histogram_segments(
    b_hist: &Vec<usize>,
    g_hist: &Vec<usize>,
    r_hist: &Vec<usize>,
    hist_size: usize,
) -> (res: Result<Vec<Segment>, ProcessError>)
    ensures
        (hist_size == 0 || b_hist@.len() < hist_size || g_hist@.len() < hist_size
            || r_hist@.len() < hist_size) <==> res == Err::<Vec<Segment>, ProcessError>(
            ProcessError::Input(InputError::HistogramShape),
        ),
        (hist_size > 0 && b_hist@.len() >= hist_size && g_hist@.len() >= hist_size
            && r_hist@.len() >= hist_size) ==> res is Ok,
        res matches Ok(segs) ==> {
            &&& segs@.len() == 3 * (hist_size - 1)
            &&& forall|i: int, c: int|
                1 <= i < hist_size && 0 <= c < 3 ==> #[trigger] segs@[3 * (i - 1) + c]
                    == plot_entry(b_hist@, g_hist@, r_hist@, hist_size as int, i, c)
        },
{
    if hist_size == 0 || b_hist.len() < hist_size || g_hist.len() < hist_size || r_hist.len()
        < hist_size {
        return Err(ProcessError::Input(InputError::HistogramShape));
    }
    let bin_w = PLOT_WIDTH / hist_size;
    assert(bin_w * hist_size <= PLOT_WIDTH) by (nonlinear_arith)
        requires
            bin_w == PLOT_WIDTH / hist_size,
            hist_size > 0,
    ;
    let b_norm = normalize_histogram(b_hist, PLOT_HEIGHT);
    let g_norm = normalize_histogram(g_hist, PLOT_HEIGHT);
    let r_norm = normalize_histogram(r_hist, PLOT_HEIGHT);
    proof {
        lemma_normalized_bounded(b_hist@, PLOT_HEIGHT);
        lemma_normalized_bounded(g_hist@, PLOT_HEIGHT);
        lemma_normalized_bounded(r_hist@, PLOT_HEIGHT);
    }
    let blue = Color { b: 255, g: 0, r: 0 };
    let green = Color { b: 0, g: 255, r: 0 };
    let red = Color { b: 0, g: 0, r: 255 };
    let mut segs: Vec<Segment> = Vec::new();
    let mut i: usize = 1;
    while i < hist_size
        invariant
            1 <= i <= hist_size,
            b_hist@.len() >= hist_size,
            g_hist@.len() >= hist_size,
            r_hist@.len() >= hist_size,
            b_norm@ == normalized(b_hist@, PLOT_HEIGHT),
            g_norm@ == normalized(g_hist@, PLOT_HEIGHT),
            r_norm@ == normalized(r_hist@, PLOT_HEIGHT),
            b_norm@.len() == b_hist@.len(),
            g_norm@.len() == g_hist@.len(),
            r_norm@.len() == r_hist@.len(),
            bin_w == PLOT_WIDTH / hist_size,
            bin_w * hist_size <= PLOT_WIDTH,
            forall|k: int| 0 <= k < b_norm@.len() ==> #[trigger] b_norm@[k] <= PLOT_HEIGHT,
            forall|k: int| 0 <= k < g_norm@.len() ==> #[trigger] g_norm@[k] <= PLOT_HEIGHT,
            forall|k: int| 0 <= k < r_norm@.len() ==> #[trigger] r_norm@[k] <= PLOT_HEIGHT,
            blue == channel_color(0),
            green == channel_color(1),
            red == channel_color(2),
            segs@.len() == 3 * (i - 1),
            forall|j: int, c: int|
                1 <= j < i && 0 <= c < 3 ==> #[trigger] segs@[3 * (j - 1) + c] == plot_entry(
                    b_hist@,
                    g_hist@,
                    r_hist@,
                    hist_size as int,
                    j,
                    c,
                ),
        decreases hist_size - i,
    {
        segs.push(segment(&b_norm, hist_size, i, bin_w, blue));
        segs.push(segment(&g_norm, hist_size, i, bin_w, green));
        segs.push(segment(&r_norm, hist_size, i, bin_w, red));
        proof {
            assert forall|j: int, c: int|
                1 <= j < i + 1 && 0 <= c < 3 implies #[trigger] segs@[3 * (j - 1) + c] == plot_entry(
                b_hist@,
                g_hist@,
                r_hist@,
                hist_size as int,
                j,
                c,
            ) by {
                if j == i {
                    assert(c == 0 || c == 1 || c == 2);
                }
            }
        }
        i = i + 1;
    }
    Ok(segs)
}

} // verus!
