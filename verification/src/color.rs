use vstd::prelude::*;

verus! {

/// Largest number of samples the engine accepts; keeps all exact
/// fixed-point distance arithmetic within 128 bits.
pub const MAX_SAMPLES: u64 = 134217728;

/// Denominator of the convergence threshold: two centroid channels are
/// close when they differ by less than 1/CLOSE_DENOM.
pub const CLOSE_DENOM: u64 = 100000;

/// One input sample: an 8-bit RGB color, one per pixel.
#[derive(Clone, Copy, PartialEq, Eq, Structural, Debug)]
pub struct Pixel {
    pub r: u8,
    pub g: u8,
    pub b: u8,
}

/// The running representative of one cluster: the exact mean color of the
/// samples it was built from, held as per-channel sums over a common count.
/// Channel `r` denotes the rational value `sum_r / count`, and likewise for
/// `g` and `b`; the count is always at least one, so every centroid denotes
/// a well-defined color with channels in [0, 255].
#[derive(Clone, Copy, PartialEq, Eq, Structural, Debug)]
pub struct Centroid {
    pub sum_r: u64,
    pub sum_g: u64,
    pub sum_b: u64,
    pub count: u64,
}

impl Pixel {
    pub fn new(r: u8, g: u8, b: u8) -> (p: Pixel)
        ensures
            p == (Pixel { r, g, b }),
    {
        Pixel { r, g, b }
    }
}

impl Centroid {
    /// A centroid denotes a color only when its denominator is positive and
    /// each channel mean stays within the 8-bit sample range.
    pub open spec fn wf(self) -> bool {
        &&& 1 <= self.count <= MAX_SAMPLES
        &&& self.sum_r <= 255 * self.count
        &&& self.sum_g <= 255 * self.count
        &&& self.sum_b <= 255 * self.count
    }

    /// The centroid whose channels all equal the sample's channels exactly.
    pub open spec fn of_pixel(p: Pixel) -> Centroid {
        Centroid { sum_r: p.r as u64, sum_g: p.g as u64, sum_b: p.b as u64, count: 1 }
    }

    /// The degenerate centroid adopted by a cluster that received no samples.
    pub open spec fn zero_spec() -> Centroid {
        Centroid { sum_r: 0, sum_g: 0, sum_b: 0, count: 1 }
    }

    pub fn from_pixel(p: &Pixel) -> (c: Centroid)
        ensures
            c == Centroid::of_pixel(*p),
            c.wf(),
    {
        Centroid { sum_r: p.r as u64, sum_g: p.g as u64, sum_b: p.b as u64, count: 1 }
    }

    pub fn zero() -> (c: Centroid)
        ensures
            c == Centroid::zero_spec(),
            c.wf(),
    {
        Centroid { sum_r: 0, sum_g: 0, sum_b: 0, count: 1 }
    }

    /// True when every channel of the two centroids differs by strictly less
    /// than 1/CLOSE_DENOM; the convergence criterion between one iteration's
    /// centroid and its successor.
    pub fn is_close(&self, other: &Centroid) -> (r: bool)
        requires
            self.wf(),
            other.wf(),
        ensures
            r == close(*self, *other),
    {
        let cr = chan_close_exec(self.sum_r, self.count, other.sum_r, other.count);
        let cg = chan_close_exec(self.sum_g, self.count, other.sum_g, other.count);
        let cb = chan_close_exec(self.sum_b, self.count, other.sum_b, other.count);
        cr && cg && cb
    }

    /// Each channel of the denoted color, truncated to an 8-bit integer.
    pub open spec fn quantized(self) -> Pixel {
        Pixel {
            r: (self.sum_r as int / self.count as int) as u8,
            g: (self.sum_g as int / self.count as int) as u8,
            b: (self.sum_b as int / self.count as int) as u8,
        }
    }

    /// Truncates each channel mean to an 8-bit integer.
    pub fn quantize(&self) -> (p: Pixel)
        requires
            self.wf(),
        ensures
            p == self.quantized(),
    {
        let r8: u64 = self.sum_r / self.count;
        let g8: u64 = self.sum_g / self.count;
        let b8: u64 = self.sum_b / self.count;
        proof {
            lemma_mean_le_255(self.sum_r as int, self.count as int);
            lemma_mean_le_255(self.sum_g as int, self.count as int);
            lemma_mean_le_255(self.sum_b as int, self.count as int);
        }
        Pixel { r: r8 as u8, g: g8 as u8, b: b8 as u8 }
    }
}

/// A channel sum bounded by 255 times the count has a mean of at most 255.
proof fn lemma_mean_le_255(s: int, n: int) by (nonlinear_arith)
    requires
        n >= 1,
        0 <= s <= 255 * n,
    ensures
        0 <= s / n <= 255,
{
}

/// The absolute difference of two integers.
pub open spec fn abs_diff(x: int, y: int) -> int {
    if x >= y {
        x - y
    } else {
        y - x
    }
}

/// Two channel means `sa/na` and `sb/nb` lie strictly within 1/CLOSE_DENOM
/// of each other; stated over the cross-multiplied integers.
pub open spec fn chan_close(sa: int, na: int, sb: int, nb: int) -> bool {
    CLOSE_DENOM * abs_diff(sa * nb, sb * na) < na * nb
}

/// Every channel pair of the two centroids is within the convergence
/// threshold.
pub open spec fn close(a: Centroid, b: Centroid) -> bool {
    &&& chan_close(a.sum_r as int, a.count as int, b.sum_r as int, b.count as int)
    &&& chan_close(a.sum_g as int, a.count as int, b.sum_g as int, b.count as int)
    &&& chan_close(a.sum_b as int, a.count as int, b.sum_b as int, b.count as int)
}

fn chan_close_exec(sa: u64, na: u64, sb: u64, nb: u64) -> (r: bool)
    requires
        1 <= na <= MAX_SAMPLES,
        1 <= nb <= MAX_SAMPLES,
        sa <= 255 * na,
        sb <= 255 * nb,
    ensures
        r == chan_close(sa as int, na as int, sb as int, nb as int),
{
    proof {
        lemma_mul_le(sa as int, 255 * MAX_SAMPLES as int, nb as int, MAX_SAMPLES as int);
        lemma_mul_le(sb as int, 255 * MAX_SAMPLES as int, na as int, MAX_SAMPLES as int);
        lemma_mul_le(na as int, MAX_SAMPLES as int, nb as int, MAX_SAMPLES as int);
    }
    let x: u128 = (sa as u128) * (nb as u128);
    let y: u128 = (sb as u128) * (na as u128);
    let d: u128 = if x >= y { x - y } else { y - x };
    proof {
        assert(d as int <= 255 * (MAX_SAMPLES as int) * (MAX_SAMPLES as int));
        assert((CLOSE_DENOM as int) * (d as int) <= 100000 * 255 * (MAX_SAMPLES as int) * (
        MAX_SAMPLES as int)) by (nonlinear_arith)
            requires
                0 <= d as int <= 255 * (MAX_SAMPLES as int) * (MAX_SAMPLES as int),
                CLOSE_DENOM == 100000,
        ;
    }
    let lhs: u128 = (CLOSE_DENOM as u128) * d;
    let rhs: u128 = (na as u128) * (nb as u128);
    lhs < rhs
}

/// The squared Euclidean distance between a sample and a centroid, scaled by
/// the square of the centroid's denominator: with c denoting the color
/// (sum_r/count, sum_g/count, sum_b/count), the true squared distance is
/// `sq_dist_num(p, c) / (count * count)`.
pub open spec fn sq_dist_num(p: Pixel, c: Centroid) -> int {
    let dr = (p.r as int) * (c.count as int) - (c.sum_r as int);
    let dg = (p.g as int) * (c.count as int) - (c.sum_g as int);
    let db = (p.b as int) * (c.count as int) - (c.sum_b as int);
    dr * dr + dg * dg + db * db
}

/// The sample `p` is strictly closer to centroid `a` than to centroid `b`
/// in Euclidean distance; stated by cross-multiplying the scaled squared
/// distances with the two denominators.
pub open spec fn strictly_closer(p: Pixel, a: Centroid, b: Centroid) -> bool {
    sq_dist_num(p, a) * ((b.count as int) * (b.count as int))
        < sq_dist_num(p, b) * ((a.count as int) * (a.count as int))
}

impl Pixel {
    /// The scaled squared distance from this sample to the centroid.
    pub fn sq_dist_scaled(&self, c: &Centroid) -> (r: u128)
        requires
            c.wf(),
        ensures
            r as int == sq_dist_num(*self, *c),
            r as int <= 195075 * ((c.count as int) * (c.count as int)),
    {
        proof {
            lemma_mul_le(c.count as int, MAX_SAMPLES as int, c.count as int, MAX_SAMPLES as int);
        }
        let dr2: u128 = chan_sq_diff(self.r, c.sum_r, c.count);
        let dg2: u128 = chan_sq_diff(self.g, c.sum_g, c.count);
        let db2: u128 = chan_sq_diff(self.b, c.sum_b, c.count);
        dr2 + dg2 + db2
    }

    /// True when this sample is strictly closer to `a` than to `b`.
    pub fn closer(&self, a: &Centroid, b: &Centroid) -> (r: bool)
        requires
            a.wf(),
            b.wf(),
        ensures
            r == strictly_closer(*self, *a, *b),
    {
        let da: u128 = self.sq_dist_scaled(a);
        let db: u128 = self.sq_dist_scaled(b);
        proof {
            lemma_mul_le(a.count as int, MAX_SAMPLES as int, a.count as int, MAX_SAMPLES as int);
            lemma_mul_le(b.count as int, MAX_SAMPLES as int, b.count as int, MAX_SAMPLES as int);
        }
        let na2: u128 = (a.count as u128) * (a.count as u128);
        let nb2: u128 = (b.count as u128) * (b.count as u128);
        proof {
            lemma_mul_le(
                da as int,
                195075 * (MAX_SAMPLES as int) * (MAX_SAMPLES as int),
                nb2 as int,
                (MAX_SAMPLES as int) * (MAX_SAMPLES as int),
            );
            lemma_mul_le(
                db as int,
                195075 * (MAX_SAMPLES as int) * (MAX_SAMPLES as int),
                na2 as int,
                (MAX_SAMPLES as int) * (MAX_SAMPLES as int),
            );
        }
        let lhs: u128 = da * nb2;
        let rhs: u128 = db * na2;
        lhs < rhs
    }
}

/// The squared difference between one sample channel scaled by the
/// centroid's count and the matching centroid channel sum.
fn chan_sq_diff(p: u8, s: u64, n: u64) -> (r: u128)
    requires
        1 <= n <= MAX_SAMPLES,
        s <= 255 * n,
    ensures
        r as int == ((p as int) * (n as int) - (s as int)) * ((p as int) * (n as int) - (s as int)),
        r as int <= 65025 * ((n as int) * (n as int)),
{
    proof {
        lemma_mul_le(p as int, 255, n as int, n as int);
    }
    let pn: u64 = (p as u64) * n;
    let d: u64 = if pn >= s { pn - s } else { s - pn };
    proof {
        lemma_mul_le(d as int, 255 * (n as int), d as int, 255 * (n as int));
        lemma_sq_scale(n as int);
        lemma_mul_le(n as int, MAX_SAMPLES as int, n as int, MAX_SAMPLES as int);
        assert(((pn as int) - (s as int)) * ((pn as int) - (s as int))
            == ((s as int) - (pn as int)) * ((s as int) - (pn as int))) by (nonlinear_arith);
    }
    (d as u128) * (d as u128)
}

/// Multiplying componentwise-bounded non-negative integers bounds the
/// product.
pub proof fn lemma_mul_le(a: int, b: int, x: int, y: int) by (nonlinear_arith)
    requires
        0 <= a <= b,
        0 <= x <= y,
    ensures
        a * x <= b * y,
{
}

proof fn lemma_sq_scale(n: int) by (nonlinear_arith)
    ensures
        (255 * n) * (255 * n) == 65025 * (n * n),
{
}

/// Comparing rationals by cross-multiplication: if `xa/ya` is strictly below
/// `xb/yb` and `xb/yb` is at most `xc/yc`, then `xa/ya` is strictly below
/// `xc/yc`.
proof fn lemma_frac_lt_le_trans(xa: int, ya: int, xb: int, yb: int, xc: int, yc: int)
    requires
        ya > 0,
        yb > 0,
        yc > 0,
        xa * yb < xb * ya,
        xb * yc <= xc * yb,
    ensures
        xa * yc < xc * ya,
{
    assert(xa * yb * yc < xb * ya * yc) by (nonlinear_arith)
        requires
            xa * yb < xb * ya,
            yc > 0,
    ;
    assert(xb * yc * ya <= xc * yb * ya) by (nonlinear_arith)
        requires
            xb * yc <= xc * yb,
            ya > 0,
    ;
    assert(xa * yb * yc == xa * yc * yb && xb * ya * yc == xb * yc * ya && xc * yb * ya == xc * ya
        * yb) by (nonlinear_arith);
    assert(xa * yc < xc * ya) by (nonlinear_arith)
        requires
            xa * yc * yb < xc * ya * yb,
            yb > 0,
    ;
}

proof fn lemma_count_sq_pos(n: int) by (nonlinear_arith)
    requires
        n >= 1,
    ensures
        n * n > 0,
{
}

/// Closeness is reflexive: every centroid with a positive denominator is
/// within the convergence threshold of itself.
pub proof fn lemma_close_refl(c: Centroid)
    requires
        c.count >= 1,
    ensures
        close(c, c),
{
    lemma_count_sq_pos(c.count as int);
    assert(abs_diff((c.sum_r as int) * (c.count as int), (c.sum_r as int) * (c.count as int))
        == 0);
}

/// Strict closeness chains with non-strict closeness: if `p` is strictly
/// closer to `a` than to `b`, and `c` is no closer than `b`, then `p` is
/// strictly closer to `a` than to `c`.
pub proof fn lemma_closer_trans(p: Pixel, a: Centroid, b: Centroid, c: Centroid)
    requires
        a.count >= 1,
        b.count >= 1,
        c.count >= 1,
        strictly_closer(p, a, b),
        !strictly_closer(p, c, b),
    ensures
        strictly_closer(p, a, c),
{
    lemma_count_sq_pos(a.count as int);
    lemma_count_sq_pos(b.count as int);
    lemma_count_sq_pos(c.count as int);
    lemma_frac_lt_le_trans(
        sq_dist_num(p, a),
        (a.count as int) * (a.count as int),
        sq_dist_num(p, b),
        (b.count as int) * (b.count as int),
        sq_dist_num(p, c),
        (c.count as int) * (c.count as int),
    );
}

} // verus!
