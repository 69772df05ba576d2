use vstd::prelude::*;

use crate::errors::{InputError, ProcessError};
use crate::image::Plane;

verus! {

/// Sum of the red-green opponent `r - g` over the first `n` pixels.
pub open spec fn rg_sum(b: Seq<u8>, g: Seq<u8>, r: Seq<u8>, n: int) -> int
    decreases n,
{
    if n <= 0 {
        0
    } else {
        rg_sum(b, g, r, n - 1) + (r[n - 1] - g[n - 1])
    }
}

/// Sum of the squared red-green opponent over the first `n` pixels.
pub open spec fn rg_sq_sum(b: Seq<u8>, g: Seq<u8>, r: Seq<u8>, n: int) -> int
    decreases n,
{
    if n <= 0 {
        0
    } else {
        rg_sq_sum(b, g, r, n - 1) + (r[n - 1] - g[n - 1]) * (r[n - 1] - g[n - 1])
    }
}

/// Sum of twice the yellow-blue opponent, `r + g - 2b`, over the first `n` pixels.
/// (The opponent itself is `0.5 r + 0.5 g - b`; doubling keeps it integral.)
pub open spec fn yb_sum(b: Seq<u8>, g: Seq<u8>, r: Seq<u8>, n: int) -> int
    decreases n,
{
    if n <= 0 {
        0
    } else {
        yb_sum(b, g, r, n - 1) + (r[n - 1] + g[n - 1] - 2 * b[n - 1])
    }
}

/// Sum of the squared doubled yellow-blue opponent over the first `n` pixels.
pub open spec fn yb_sq_sum(b: Seq<u8>, g: Seq<u8>, r: Seq<u8>, n: int) -> int
    decreases n,
{
    if n <= 0 {
        0
    } else {
        yb_sq_sum(b, g, r, n - 1) + (r[n - 1] + g[n - 1] - 2 * b[n - 1]) * (r[n - 1] + g[n
            - 1] - 2 * b[n - 1])
    }
}

/// `4 n^2 (sigma_rg^2 + sigma_yb^2)` for planes of `n` pixels.
pub open spec fn spread_num(b: Seq<u8>, g: Seq<u8>, r: Seq<u8>) -> int {
    let n = b.len() as int;
    let s1 = rg_sum(b, g, r, n);
    let s2 = rg_sq_sum(b, g, r, n);
    let t1 = yb_sum(b, g, r, n);
    let t2 = yb_sq_sum(b, g, r, n);
    4 * (n * s2 - s1 * s1) + (n * t2 - t1 * t1)
}

/// `4 n^2 (mu_rg^2 + mu_yb^2)` for planes of `n` pixels.
pub open spec fn center_num(b: Seq<u8>, g: Seq<u8>, r: Seq<u8>) -> int {
    let n = b.len() as int;
    let s1 = rg_sum(b, g, r, n);
    let t1 = yb_sum(b, g, r, n);
    4 * (s1 * s1) + t1 * t1
}

/// Exact pixel sums from which the colorfulness of three planes follows.
#[derive(Clone, Copy, Debug, PartialEq, Eq, Structural)]
pub struct ColorMoments {
    /// Number of pixels in each plane.
    pub pixels: usize,
    /// Sum of `r - g`.
    pub rg: i128,
    /// Sum of `(r - g)^2`.
    pub rg_sq: i128,
    /// Sum of `r + g - 2b`.
    pub yb: i128,
    /// Sum of `(r + g - 2b)^2`.
    pub yb_sq: i128,
}

/// The largest pixel count for which the colorfulness terms are computed.
pub const MAX_TERM_PIXELS: u64 = 1099511627776;

/// The scaled quantities from which the colorfulness score is read:
/// `colorfulness = (sqrt(spread) + 0.3 * sqrt(center)) / scale`.
#[derive(Clone, Copy, Debug, PartialEq, Eq, Structural)]
pub struct ColorfulnessTerms {
    /// `scale^2 * (sigma_rg^2 + sigma_yb^2)`.
    pub spread: i128,
    /// `scale^2 * (mu_rg^2 + mu_yb^2)`.
    pub center: i128,
    /// Twice the pixel count.
    pub scale: i128,
}

impl ColorMoments {
    /// The sums lie within what `pixels` samples of 8 bits can produce; in
    /// particular neither opponent has a negative variance.
    pub open spec fn bounded(&self) -> bool {
        &&& -255 * self.pixels <= self.rg <= 255 * self.pixels
        &&& 0 <= self.rg_sq <= 65025 * self.pixels
        &&& -510 * self.pixels <= self.yb <= 510 * self.pixels
        &&& 0 <= self.yb_sq <= 260100 * self.pixels
        &&& self.rg * self.rg <= self.pixels * self.rg_sq
        &&& self.yb * self.yb <= self.pixels * self.yb_sq
    }

    /// `scale^2 * (sigma_rg^2 + sigma_yb^2)` over these sums.
    pub open spec fn spread_of(&self) -> int {
        let n = self.pixels as int;
        4 * (n * self.rg_sq - self.rg * self.rg) + (n * self.yb_sq - self.yb * self.yb)
    }

    /// `scale^2 * (mu_rg^2 + mu_yb^2)` over these sums.
    pub open spec fn center_of(&self) -> int {
        4 * (self.rg * self.rg) + self.yb * self.yb
    }

    /// The colorfulness terms, or `None` for an empty image, for more than
    /// `MAX_TERM_PIXELS` pixels, or for sums that no image can produce.
    pub fn terms(&self) -> (r: Option<ColorfulnessTerms>)
        ensures
            r is Some <==> (self.bounded() && 0 < self.pixels <= MAX_TERM_PIXELS),
            r matches Some(t) ==> {
                &&& t.spread == self.spread_of()
                &&& t.spread >= 0
                &&& t.center == self.center_of()
                &&& t.scale == 2 * self.pixels
            },
    {
        let p = self.pixels;
        if p == 0 || p as u64 > MAX_TERM_PIXELS {
            return None;
        }
        let n = p as i128;
        if !(-255 * n <= self.rg && self.rg <= 255 * n && 0 <= self.rg_sq && self.rg_sq <= 65025
            * n && -510 * n <= self.yb && self.yb <= 510 * n && 0 <= self.yb_sq && self.yb_sq
            <= 260100 * n) {
            return None;
        }
        let (s1, s2, t1, t2) = (self.rg, self.rg_sq, self.yb, self.yb_sq);
        assert(0 <= n * s2 <= 65025 * 1099511627776 * 1099511627776) by (nonlinear_arith)
            requires
                0 < n <= 1099511627776,
                0 <= s2 <= 65025 * n,
        ;
        assert(0 <= s1 * s1 <= 65025 * 1099511627776 * 1099511627776) by (nonlinear_arith)
            requires
                0 < n <= 1099511627776,
                -255 * n <= s1 <= 255 * n,
        ;
        assert(0 <= n * t2 <= 260100 * 1099511627776 * 1099511627776) by (nonlinear_arith)
            requires
                0 < n <= 1099511627776,
                0 <= t2 <= 260100 * n,
        ;
        assert(0 <= t1 * t1 <= 260100 * 1099511627776 * 1099511627776) by (nonlinear_arith)
            requires
                0 < n <= 1099511627776,
                -510 * n <= t1 <= 510 * n,
        ;
        if !(s1 * s1 <= n * s2 && t1 * t1 <= n * t2) {
            return None;
        }
        let spread = 4 * (n * s2 - s1 * s1) + (n * t2 - t1 * t1);
        let center = 4 * (s1 * s1) + t1 * t1;
        Some(ColorfulnessTerms { spread, center, scale: 2 * n })
    }
}

/// The squared deviations of the red-green opponent from `x` add up to a
/// non-negative amount.
proof fn lemma_rg_deviation(b: Seq<u8>, g: Seq<u8>, r: Seq<u8>, n: int, x: int)
    requires
        0 <= n <= b.len(),
        b.len() == g.len() && g.len() == r.len(),
    ensures
        rg_sq_sum(b, g, r, n) - 2 * x * rg_sum(b, g, r, n) + n * x * x >= 0,
    decreases n,
{
    if n > 0 {
        lemma_rg_deviation(b, g, r, n - 1, x);
        let d = r[n - 1] - g[n - 1];
        let (s1, s2) = (rg_sum(b, g, r, n - 1), rg_sq_sum(b, g, r, n - 1));
        assert(rg_sq_sum(b, g, r, n) - 2 * x * rg_sum(b, g, r, n) + n * x * x == (s2 - 2 * x * s1
            + (n - 1) * x * x) + (d - x) * (d - x)) by (nonlinear_arith)
            requires
                rg_sum(b, g, r, n) == s1 + d,
                rg_sq_sum(b, g, r, n) == s2 + d * d,
        ;
        assert((d - x) * (d - x) >= 0) by (nonlinear_arith);
    } else {
        assert(n * x * x == 0) by (nonlinear_arith)
            requires
                n == 0,
        ;
    }
}

/// The red-green opponent has a non-negative variance: `S1^2 <= n * S2`.
proof fn lemma_rg_variance(b: Seq<u8>, g: Seq<u8>, r: Seq<u8>, n: int)
    requires
        0 <= n <= b.len(),
        b.len() == g.len() && g.len() == r.len(),
    ensures
        rg_sum(b, g, r, n) * rg_sum(b, g, r, n) <= n * rg_sq_sum(b, g, r, n),
    decreases n,
{
    if n > 0 {
        lemma_rg_variance(b, g, r, n - 1);
        let d = r[n - 1] - g[n - 1];
        lemma_rg_deviation(b, g, r, n - 1, d);
        let (s1, s2) = (rg_sum(b, g, r, n - 1), rg_sq_sum(b, g, r, n - 1));
        assert(n * rg_sq_sum(b, g, r, n) - rg_sum(b, g, r, n) * rg_sum(b, g, r, n) == ((n - 1) * s2
            - s1 * s1) + (s2 - 2 * d * s1 + (n - 1) * d * d)) by (nonlinear_arith)
            requires
                rg_sum(b, g, r, n) == s1 + d,
                rg_sq_sum(b, g, r, n) == s2 + d * d,
        ;
    }
}

/// The squared deviations of the doubled yellow-blue opponent from `x` add
/// up to a non-negative amount.
proof fn lemma_yb_deviation(b: Seq<u8>, g: Seq<u8>, r: Seq<u8>, n: int, x: int)
    requires
        0 <= n <= b.len(),
        b.len() == g.len() && g.len() == r.len(),
    ensures
        yb_sq_sum(b, g, r, n) - 2 * x * yb_sum(b, g, r, n) + n * x * x >= 0,
    decreases n,
{
    if n > 0 {
        lemma_yb_deviation(b, g, r, n - 1, x);
        let d = r[n - 1] + g[n - 1] - 2 * b[n - 1];
        let (s1, s2) = (yb_sum(b, g, r, n - 1), yb_sq_sum(b, g, r, n - 1));
        assert(yb_sq_sum(b, g, r, n) - 2 * x * yb_sum(b, g, r, n) + n * x * x == (s2 - 2 * x * s1
            + (n - 1) * x * x) + (d - x) * (d - x)) by (nonlinear_arith)
            requires
                yb_sum(b, g, r, n) == s1 + d,
                yb_sq_sum(b, g, r, n) == s2 + d * d,
        ;
        assert((d - x) * (d - x) >= 0) by (nonlinear_arith);
    } else {
        assert(n * x * x == 0) by (nonlinear_arith)
            requires
                n == 0,
        ;
    }
}

/// The doubled yellow-blue opponent has a non-negative variance.
proof fn lemma_yb_variance(b: Seq<u8>, g: Seq<u8>, r: Seq<u8>, n: int)
    requires
        0 <= n <= b.len(),
        b.len() == g.len() && g.len() == r.len(),
    ensures
        yb_sum(b, g, r, n) * yb_sum(b, g, r, n) <= n * yb_sq_sum(b, g, r, n),
    decreases n,
{
    if n > 0 {
        lemma_yb_variance(b, g, r, n - 1);
        let d = r[n - 1] + g[n - 1] - 2 * b[n - 1];
        lemma_yb_deviation(b, g, r, n - 1, d);
        let (s1, s2) = (yb_sum(b, g, r, n - 1), yb_sq_sum(b, g, r, n - 1));
        assert(n * yb_sq_sum(b, g, r, n) - yb_sum(b, g, r, n) * yb_sum(b, g, r, n) == ((n - 1) * s2
            - s1 * s1) + (s2 - 2 * d * s1 + (n - 1) * d * d)) by (nonlinear_arith)
            requires
                yb_sum(b, g, r, n) == s1 + d,
                yb_sq_sum(b, g, r, n) == s2 + d * d,
        ;
    }
}

/// Every prefix sum of a gray image (equal components at each pixel) is zero.
proof fn lemma_gray_sums_zero(b: Seq<u8>, g: Seq<u8>, r: Seq<u8>, n: int)
    requires
        0 <= n <= b.len(),
        b.len() == g.len() && g.len() == r.len(),
        forall|i: int| 0 <= i < b.len() ==> b[i] == g[i] && g[i] == r[i],
    ensures
        rg_sum(b, g, r, n) == 0,
        rg_sq_sum(b, g, r, n) == 0,
        yb_sum(b, g, r, n) == 0,
        yb_sq_sum(b, g, r, n) == 0,
    decreases n,
{
    if n > 0 {
        lemma_gray_sums_zero(b, g, r, n - 1);
        assert(b[n - 1] == g[n - 1] && g[n - 1] == r[n - 1]);
    }
}

/// An image whose blue, green and red components are equal at every pixel
/// (in particular a uniform gray image) has zero opponent means and
/// deviations, so its colorfulness is zero.
pub proof fn lemma_gray_image_is_colorless(b: Seq<u8>, g: Seq<u8>, r: Seq<u8>)
    requires
        b.len() == g.len() && g.len() == r.len(),
        forall|i: int| 0 <= i < b.len() ==> b[i] == g[i] && g[i] == r[i],
    ensures
        spread_num(b, g, r) == 0,
        center_num(b, g, r) == 0,
{
    lemma_gray_sums_zero(b, g, r, b.len() as int);
}

/// The three planes agree in size and each holds one sample per pixel.
pub open spec fn planes_agree(p: Seq<Plane>) -> bool {
    &&& p[0].wf()
    &&& p[1].wf()
    &&& p[2].wf()
    &&& p[0].width == p[1].width && p[1].width == p[2].width
    &&& p[0].height == p[1].height && p[1].height == p[2].height
}

/// Computes the opponent-color sums of the planes ordered blue, green, red.
/// Planes after the third are ignored.
pub fn colorfulness_moments(channels: &Vec<Plane>) -> (res: Result<ColorMoments, ProcessError>)
    ensures
        channels@.len() < 3 <==> res == Err::<ColorMoments, ProcessError>(
            ProcessError::Input(InputError::MissingPlanes),
        ),
        (channels@.len() >= 3 && !planes_agree(channels@)) <==> res == Err::<
            ColorMoments,
            ProcessError,
        >(ProcessError::Input(InputError::SizeMismatch)),
        (channels@.len() >= 3 && planes_agree(channels@)) ==> res is Ok,
        res matches Ok(m) ==> {
            let (b, g, r) = (channels@[0].data@, channels@[1].data@, channels@[2].data@);
            &&& m.bounded()
            &&& m.pixels == b.len()
            &&& m.rg == rg_sum(b, g, r, b.len() as int)
            &&& m.rg_sq == rg_sq_sum(b, g, r, b.len() as int)
            &&& m.yb == yb_sum(b, g, r, b.len() as int)
            &&& m.yb_sq == yb_sq_sum(b, g, r, b.len() as int)
        },
{
    if channels.len() < 3 {
        return Err(ProcessError::Input(InputError::MissingPlanes));
    }
    let pb = &channels[0];
    let pg = &channels[1];
    let pr = &channels[2];
    if !(pb.width == pg.width && pg.width == pr.width && pb.height == pg.height && pg.height
        == pr.height) {
        return Err(ProcessError::Input(InputError::SizeMismatch));
    }
    let len_b = pb.data.len();
    let n = match pb.width.checked_mul(pb.height) {
        Some(n) => n,
        None => {
            return Err(ProcessError::Input(InputError::SizeMismatch));
        },
    };
    if len_b != n || pg.data.len() != n || pr.data.len() != n {
        return Err(ProcessError::Input(InputError::SizeMismatch));
    }
    let ghost bs = pb.data@;
    let ghost gs = pg.data@;
    let ghost rs = pr.data@;
    let mut rg: i128 = 0;
    let mut rg_sq: i128 = 0;
    let mut yb: i128 = 0;
    let mut yb_sq: i128 = 0;
    let mut i: usize = 0;
    while i < n
        invariant
            bs == pb.data@,
            gs == pg.data@,
            rs == pr.data@,
            bs.len() == n,
            gs.len() == n,
            rs.len() == n,
            i <= n,
            rg == rg_sum(bs, gs, rs, i as int),
            rg_sq == rg_sq_sum(bs, gs, rs, i as int),
            yb == yb_sum(bs, gs, rs, i as int),
            yb_sq == yb_sq_sum(bs, gs, rs, i as int),
            -255 * i <= rg <= 255 * i,
            0 <= rg_sq <= 65025 * i,
            -510 * i <= yb <= 510 * i,
            0 <= yb_sq <= 260100 * i,
        decreases n - i,
    {
        let bv = pb.data[i] as i128;
        let gv = pg.data[i] as i128;
        let rv = pr.data[i] as i128;
        let d: i128 = rv - gv;
        let e: i128 = rv + gv - 2 * bv;
        assert(0 <= d * d <= 65025) by (nonlinear_arith)
            requires
                -255 <= d <= 255,
        ;
        assert(0 <= e * e <= 260100) by (nonlinear_arith)
            requires
                -510 <= e <= 510,
        ;
        rg = rg + d;
        rg_sq = rg_sq + d * d;
        yb = yb + e;
        yb_sq = yb_sq + e * e;
        i = i + 1;
    }
    proof {
        lemma_rg_variance(bs, gs, rs, n as int);
        lemma_yb_variance(bs, gs, rs, n as int);
    }
    Ok(ColorMoments { pixels: n, rg, rg_sq, yb, yb_sq })
}

} // verus!
