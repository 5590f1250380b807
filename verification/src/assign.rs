use vstd::prelude::*;

use crate::color::{lemma_closer_trans, strictly_closer, Centroid, Pixel};
use rayon::iter::IntoParallelRefIterator;
use rayon::iter::ParallelIterator;

verus! {

/// Every centroid in the sequence denotes a valid color.
pub open spec fn all_wf(cs: Seq<Centroid>) -> bool {
    forall|j: int| 0 <= j < cs.len() ==> cs[j].wf()
}

/// The index of the centroid nearest to `p` among the first `n` centroids,
/// scanning upward and keeping the earlier index on an exact tie.
pub open spec fn best_upto(cs: Seq<Centroid>, p: Pixel, n: int) -> int
    decreases n,
{
    if n <= 1 {
        0
    } else {
        let b = best_upto(cs, p, n - 1);
        if strictly_closer(p, cs[n - 1], cs[b]) {
            n - 1
        } else {
            b
        }
    }
}

/// The index of the centroid nearest to `p`, with the lowest index winning
/// an exact tie.
pub open spec fn closest_spec(cs: Seq<Centroid>, p: Pixel) -> int {
    best_upto(cs, p, cs.len() as int)
}

proof fn lemma_best_upto_props(cs: Seq<Centroid>, p: Pixel, n: int)
    requires
        1 <= n <= cs.len(),
        all_wf(cs),
    ensures
        0 <= best_upto(cs, p, n) < n,
        forall|i: int| 0 <= i < n ==> !strictly_closer(p, cs[i], cs[best_upto(cs, p, n)]),
        forall|i: int|
            0 <= i < best_upto(cs, p, n) ==> strictly_closer(p, cs[best_upto(cs, p, n)], cs[i]),
    decreases n,
{
    if n > 1 {
        lemma_best_upto_props(cs, p, n - 1);
        let b = best_upto(cs, p, n - 1);
        if strictly_closer(p, cs[n - 1], cs[b]) {
            assert forall|i: int| 0 <= i < n - 1 implies strictly_closer(
                p,
                cs[n - 1],
                #[trigger] cs[i],
            ) by {
                lemma_closer_trans(p, cs[n - 1], cs[b], cs[i]);
            }
        } else {
            assert forall|i: int|
                0 <= i < n implies !strictly_closer(p, cs[i], cs[best_upto(cs, p, n)]) by {
                if i < n - 1 {
                } else {
                    assert(!strictly_closer(p, cs[n - 1], cs[b]));
                }
            }
        }
    }
}

/// The nearest centroid index is in range, no centroid is strictly closer
/// to the sample than the chosen one, and every centroid at a lower index
/// is strictly farther, so the lowest index wins an exact tie.
pub proof fn lemma_closest_minimizes(cs: Seq<Centroid>, p: Pixel)
    requires
        cs.len() >= 1,
        all_wf(cs),
    ensures
        0 <= closest_spec(cs, p) < cs.len(),
        forall|i: int| 0 <= i < cs.len() ==> !strictly_closer(p, cs[i], cs[closest_spec(cs, p)]),
        forall|i: int|
            0 <= i < closest_spec(cs, p) ==> strictly_closer(p, cs[closest_spec(cs, p)], cs[i]),
{
    lemma_best_upto_props(cs, p, cs.len() as int);
}

/// The index of the centroid nearest to the sample in Euclidean distance,
/// with ties broken in favor of the lowest index.
pub fn closest_centroid_index(pixel: &Pixel, centroids: &Vec<Centroid>) -> (r: usize)
    requires
        centroids@.len() >= 1,
        all_wf(centroids@),
    ensures
        r < centroids@.len(),
        r as int == closest_spec(centroids@, *pixel),
{
    let mut best: usize = 0;
    let mut j: usize = 1;
    while j < centroids.len()
        invariant
            1 <= j <= centroids@.len(),
            (best as int) < j as int,
            best as int == best_upto(centroids@, *pixel, j as int),
            all_wf(centroids@),
        decreases centroids@.len() - j as int,
    {
        if pixel.closer(&centroids[j], &centroids[best]) {
            best = j;
        }
        j = j + 1;
    }
    best
}

/// Relies on rayon: `par_iter().map(..).collect()` into a `Vec` applies the
/// closure to every element and collects one result per element in input
/// order; the closure only calls the verified `closest_centroid_index`,
/// whose contract gives each entry below.
#[verifier::external_body]
fn par_closest(centroids: &Vec<Centroid>, pixels: &Vec<Pixel>) -> (r: Vec<usize>)
    requires
        centroids@.len() >= 1,
        all_wf(centroids@),
    ensures
        r@.len() == pixels@.len(),
        forall|i: int|
            0 <= i < pixels@.len() ==> r@[i] < centroids@.len() && r@[i] as int == closest_spec(
                centroids@,
                pixels@[i],
            ),
{
    pixels.par_iter().map(|p| closest_centroid_index(p, centroids)).collect()
}

/// The assignment step: entry `i` of the result is the index of the
/// centroid nearest to sample `i` under the frozen centroid snapshot, with
/// the lowest index winning exact ties. Each sample's assignment depends
/// only on that sample and the snapshot, so the samples are scanned in
/// parallel.
pub fn assign_step(centroids: &Vec<Centroid>, pixels: &Vec<Pixel>) -> (r: Vec<usize>)
    requires
        centroids@.len() >= 1,
        all_wf(centroids@),
    ensures
        r@.len() == pixels@.len(),
        forall|i: int|
            0 <= i < pixels@.len() ==> r@[i] < centroids@.len() && r@[i] as int == closest_spec(
                centroids@,
                pixels@[i],
            ),
{
    par_closest(centroids, pixels)
}

/// Determinism of the assignment step: the assignment vector is a function
/// of the centroid snapshot and the samples alone, so any two vectors that
/// satisfy the step's contract on the same inputs are equal.
pub proof fn lemma_assignment_deterministic(
    cs: Seq<Centroid>,
    ps: Seq<Pixel>,
    a1: Seq<usize>,
    a2: Seq<usize>,
)
    requires
        a1.len() == ps.len(),
        a2.len() == ps.len(),
        forall|i: int| 0 <= i < ps.len() ==> a1[i] as int == closest_spec(cs, ps[i]),
        forall|i: int| 0 <= i < ps.len() ==> a2[i] as int == closest_spec(cs, ps[i]),
    ensures
        a1 == a2,
{
    assert(a1 =~= a2);
}

} // verus!
