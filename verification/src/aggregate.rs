use vstd::prelude::*;

use crate::color::{Centroid, MAX_SAMPLES, Pixel};
use vstd::pervasive::VecAdditionalExecFns;

verus! {

/// Channel selector: 0 is red, 1 is green, anything else is blue.
pub open spec fn channel(p: Pixel, c: int) -> int {
    if c == 0 {
        p.r as int
    } else if c == 1 {
        p.g as int
    } else {
        p.b as int
    }
}

/// How many of the first `n` assignments point at cluster `j`.
pub open spec fn gcount(a: Seq<usize>, j: int, n: int) -> int
    decreases n,
{
    if n <= 0 {
        0
    } else {
        gcount(a, j, n - 1) + (if a[n - 1] as int == j {
            1int
        } else {
            0int
        })
    }
}

/// The sum of channel `c` over those of the first `n` samples that are
/// assigned to cluster `j`.
pub open spec fn gsum(a: Seq<usize>, ps: Seq<Pixel>, j: int, c: int, n: int) -> int
    decreases n,
{
    if n <= 0 {
        0
    } else {
        gsum(a, ps, j, c, n - 1) + (if a[n - 1] as int == j {
            channel(ps[n - 1], c)
        } else {
            0int
        })
    }
}

/// The centroid the aggregation step produces for cluster `j`: the exact
/// per-channel mean of the samples assigned to `j`, or the zero centroid
/// when the cluster received no samples.
pub open spec fn agg_centroid(a: Seq<usize>, ps: Seq<Pixel>, j: int) -> Centroid {
    let n = a.len() as int;
    if gcount(a, j, n) == 0 {
        Centroid::zero_spec()
    } else {
        Centroid {
            sum_r: gsum(a, ps, j, 0, n) as u64,
            sum_g: gsum(a, ps, j, 1, n) as u64,
            sum_b: gsum(a, ps, j, 2, n) as u64,
            count: gcount(a, j, n) as u64,
        }
    }
}

proof fn lemma_gcount_bounds(a: Seq<usize>, j: int, n: int)
    requires
        0 <= n,
    ensures
        0 <= gcount(a, j, n) <= n,
    decreases n,
{
    if n > 0 {
        lemma_gcount_bounds(a, j, n - 1);
    }
}

proof fn lemma_gsum_bounds(a: Seq<usize>, ps: Seq<Pixel>, j: int, c: int, n: int)
    requires
        0 <= n,
    ensures
        0 <= gsum(a, ps, j, c, n) <= 255 * gcount(a, j, n),
    decreases n,
{
    if n > 0 {
        lemma_gsum_bounds(a, ps, j, c, n - 1);
    }
}

/// The sum of the sizes of the first `k` cluster groups, counted over the
/// first `n` assignments.
pub open spec fn group_size_total(a: Seq<usize>, k: int, n: int) -> int
    decreases k,
{
    if k <= 0 {
        0
    } else {
        group_size_total(a, k - 1, n) + gcount(a, k - 1, n)
    }
}

proof fn lemma_total_unchanged(a: Seq<usize>, k: int, n: int)
    requires
        1 <= n <= a.len(),
        a[n - 1] as int >= k,
    ensures
        group_size_total(a, k, n) == group_size_total(a, k, n - 1),
    decreases k,
{
    if k > 0 {
        lemma_total_unchanged(a, k - 1, n);
    }
}

proof fn lemma_total_step(a: Seq<usize>, k: int, n: int)
    requires
        1 <= n <= a.len(),
        (a[n - 1] as int) < k,
    ensures
        group_size_total(a, k, n) == group_size_total(a, k, n - 1) + 1,
    decreases k,
{
    if a[n - 1] as int == k - 1 {
        lemma_total_unchanged(a, k - 1, n);
    } else {
        lemma_total_step(a, k - 1, n);
    }
}

proof fn lemma_total_zero(a: Seq<usize>, k: int)
    ensures
        group_size_total(a, k, 0) == 0,
    decreases k,
{
    if k > 0 {
        lemma_total_zero(a, k - 1);
    }
}

proof fn lemma_groups_cover_upto(a: Seq<usize>, k: int, n: int)
    requires
        0 <= n <= a.len(),
        forall|i: int| 0 <= i < a.len() ==> (a[i] as int) < k,
    ensures
        group_size_total(a, k, n) == n,
    decreases n,
{
    if n > 0 {
        lemma_groups_cover_upto(a, k, n - 1);
        lemma_total_step(a, k, n);
    } else {
        lemma_total_zero(a, k);
    }
}

/// Coverage: every sample is assigned to exactly one cluster, so over any
/// assignment vector whose entries all lie below `k`, the sizes of the `k`
/// cluster groups total the number of samples exactly.
pub proof fn lemma_groups_cover(a: Seq<usize>, k: int)
    requires
        forall|i: int| 0 <= i < a.len() ==> (a[i] as int) < k,
    ensures
        group_size_total(a, k, a.len() as int) == a.len(),
{
    lemma_groups_cover_upto(a, k, a.len() as int);
}

/// The aggregation step: partitions the samples by assigned cluster and
/// produces one new centroid per cluster, the exact per-channel mean of the
/// cluster's samples; a cluster with no samples yields the zero centroid.
pub fn aggregate_step(assignments: &Vec<usize>, pixels: &Vec<Pixel>, k: usize) -> (r: Vec<
    Centroid,
>)
    requires
        assignments@.len() == pixels@.len(),
        pixels@.len() <= MAX_SAMPLES,
        k >= 1,
        forall|i: int| 0 <= i < assignments@.len() ==> (assignments@[i] as int) < k as int,
    ensures
        r@.len() == k as int,
        forall|j: int| 0 <= j < k as int ==> r@[j] == agg_centroid(assignments@, pixels@, j),
        forall|j: int| 0 <= j < k as int ==> r@[j].wf(),
{
    let n = pixels.len();
    let mut acc: Vec<Centroid> = Vec::new();
    let mut j: usize = 0;
    while j < k
        invariant
            acc@.len() == j as int,
            j <= k,
            forall|t: int|
                0 <= t < j as int ==> acc@[t] == (Centroid {
                    sum_r: 0u64,
                    sum_g: 0u64,
                    sum_b: 0u64,
                    count: 0u64,
                }),
        decreases k - j,
    {
        acc.push(Centroid { sum_r: 0, sum_g: 0, sum_b: 0, count: 0 });
        j = j + 1;
    }
    let mut i: usize = 0;
    while i < n
        invariant
            acc@.len() == k as int,
            k >= 1,
            n == pixels@.len(),
            assignments@.len() == n as int,
            n <= MAX_SAMPLES,
            i <= n,
            forall|i2: int| 0 <= i2 < n as int ==> (assignments@[i2] as int) < k as int,
            forall|t: int|
                0 <= t < k as int ==> (#[trigger] acc@[t]).count as int == gcount(
                    assignments@,
                    t,
                    i as int,
                ) && acc@[t].sum_r as int == gsum(assignments@, pixels@, t, 0, i as int)
                    && acc@[t].sum_g as int == gsum(assignments@, pixels@, t, 1, i as int)
                    && acc@[t].sum_b as int == gsum(assignments@, pixels@, t, 2, i as int),
        decreases n - i,
    {
        let idx = assignments[i];
        let p = pixels[i];
        let cur = acc[idx];
        proof {
            lemma_gcount_bounds(assignments@, idx as int, i as int);
            lemma_gsum_bounds(assignments@, pixels@, idx as int, 0, i as int);
            lemma_gsum_bounds(assignments@, pixels@, idx as int, 1, i as int);
            lemma_gsum_bounds(assignments@, pixels@, idx as int, 2, i as int);
        }
        acc.set(
            idx,
            Centroid {
                sum_r: cur.sum_r + (p.r as u64),
                sum_g: cur.sum_g + (p.g as u64),
                sum_b: cur.sum_b + (p.b as u64),
                count: cur.count + 1,
            },
        );
        proof {
            assert forall|t: int|
                0 <= t < k as int implies (#[trigger] acc@[t]).count as int == gcount(
                assignments@,
                t,
                i + 1,
            ) && acc@[t].sum_r as int == gsum(assignments@, pixels@, t, 0, i + 1)
                && acc@[t].sum_g as int == gsum(assignments@, pixels@, t, 1, i + 1)
                && acc@[t].sum_b as int == gsum(assignments@, pixels@, t, 2, i + 1) by {
                assert(gcount(assignments@, t, i + 1) == gcount(assignments@, t, i as int) + (
                if assignments@[i as int] as int == t {
                    1int
                } else {
                    0int
                }));
                assert(gsum(assignments@, pixels@, t, 0, i + 1) == gsum(
                    assignments@,
                    pixels@,
                    t,
                    0,
                    i as int,
                ) + (if assignments@[i as int] as int == t {
                    channel(pixels@[i as int], 0)
                } else {
                    0int
                }));
                assert(gsum(assignments@, pixels@, t, 1, i + 1) == gsum(
                    assignments@,
                    pixels@,
                    t,
                    1,
                    i as int,
                ) + (if assignments@[i as int] as int == t {
                    channel(pixels@[i as int], 1)
                } else {
                    0int
                }));
                assert(gsum(assignments@, pixels@, t, 2, i + 1) == gsum(
                    assignments@,
                    pixels@,
                    t,
                    2,
                    i as int,
                ) + (if assignments@[i as int] as int == t {
                    channel(pixels@[i as int], 2)
                } else {
                    0int
                }));
            }
        }
        i = i + 1;
    }
    let mut out: Vec<Centroid> = Vec::new();
    let mut j2: usize = 0;
    while j2 < k
        invariant
            acc@.len() == k as int,
            n == pixels@.len(),
            assignments@.len() == n as int,
            n <= MAX_SAMPLES,
            out@.len() == j2 as int,
            j2 <= k,
            forall|t: int|
                0 <= t < k as int ==> (#[trigger] acc@[t]).count as int == gcount(
                    assignments@,
                    t,
                    n as int,
                ) && acc@[t].sum_r as int == gsum(assignments@, pixels@, t, 0, n as int)
                    && acc@[t].sum_g as int == gsum(assignments@, pixels@, t, 1, n as int)
                    && acc@[t].sum_b as int == gsum(assignments@, pixels@, t, 2, n as int),
            forall|t: int|
                0 <= t < j2 as int ==> (#[trigger] out@[t]) == agg_centroid(
                    assignments@,
                    pixels@,
                    t,
                ) && out@[t].wf(),
        decreases k - j2,
    {
        let cc = acc[j2];
        proof {
            lemma_gcount_bounds(assignments@, j2 as int, n as int);
            lemma_gsum_bounds(assignments@, pixels@, j2 as int, 0, n as int);
            lemma_gsum_bounds(assignments@, pixels@, j2 as int, 1, n as int);
            lemma_gsum_bounds(assignments@, pixels@, j2 as int, 2, n as int);
        }
        if cc.count == 0 {
            out.push(Centroid::zero());
        } else {
            out.push(cc);
        }
        j2 = j2 + 1;
    }
    out
}

} // verus!
