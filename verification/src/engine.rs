use vstd::prelude::*;

use crate::aggregate::{agg_centroid, aggregate_step, channel, gcount, gsum};
use crate::assign::{all_wf, assign_step, closest_spec};
use crate::color::{close, lemma_close_refl, Centroid, MAX_SAMPLES, Pixel};

verus! {

/// Why a clustering run cannot be configured.
#[derive(Clone, Copy, PartialEq, Eq, Structural, Debug)]
pub enum KMeansError {
    /// The sample collection is empty; clustering is undefined with no data.
    EmptyInput,
    /// The requested cluster count is zero.
    ZeroClusters,
    /// The requested cluster count exceeds the number of samples.
    TooManyClusters,
}

/// How a clustering run ended. Both outcomes are accepted terminal states:
/// exhausting the cap is not an error, merely observable.
#[derive(Clone, Copy, PartialEq, Eq, Structural, Debug)]
pub enum RunOutcome {
    /// Every centroid moved less than the convergence threshold in the last
    /// iteration; the field is the number of completed iterations.
    Converged(usize),
    /// The iteration cap was exhausted without convergence.
    IterationCapReached,
}

/// The centroid takes its value from one of the samples.
pub open spec fn drawn_from(c: Centroid, ps: Seq<Pixel>) -> bool {
    exists|i: int| 0 <= i < ps.len() && c == Centroid::of_pixel(ps[i])
}

/// The assignment vector that the assignment step computes against the
/// frozen centroid snapshot `cs`.
pub open spec fn assign_seq(cs: Seq<Centroid>, ps: Seq<Pixel>) -> Seq<usize> {
    Seq::new(ps.len(), |i: int| closest_spec(cs, ps[i]) as usize)
}

/// One full iteration: assign every sample to its nearest centroid, then
/// replace every centroid by its cluster's exact mean.
pub open spec fn step_spec(cs: Seq<Centroid>, ps: Seq<Pixel>) -> Seq<Centroid> {
    Seq::new(cs.len(), |j: int| agg_centroid(assign_seq(cs, ps), ps, j))
}

/// The centroid set after `t` iterations starting from the set `cs`.
#[verifier::opaque]
pub open spec fn iterate_spec(cs: Seq<Centroid>, ps: Seq<Pixel>, t: int) -> Seq<Centroid>
    decreases t,
{
    if t <= 0 {
        cs
    } else {
        step_spec(iterate_spec(cs, ps, t - 1), ps)
    }
}

/// Corresponding centroids of the two sets are all within the convergence
/// threshold.
pub open spec fn all_close(xs: Seq<Centroid>, ys: Seq<Centroid>) -> bool {
    xs.len() == ys.len() && forall|j: int| 0 <= j < xs.len() ==> close(xs[j], ys[j])
}

/// Relies on rand: `Rng::gen_range(0..n)` on `thread_rng` returns a
/// uniformly distributed integer in `[0, n)` and panics only on an empty
/// range, which the precondition rules out. Nothing is assumed of the
/// result beyond its bound.
#[verifier::external_body]
fn random_index(n: usize) -> (r: usize)
    requires
        n >= 1,
    ensures
        r < n,
{
    rand::Rng::gen_range(&mut rand::thread_rng(), 0..n)
}

fn all_close_exec(xs: &Vec<Centroid>, ys: &Vec<Centroid>) -> (r: bool)
    requires
        xs@.len() == ys@.len(),
        all_wf(xs@),
        all_wf(ys@),
    ensures
        r == all_close(xs@, ys@),
{
    let mut j: usize = 0;
    while j < xs.len()
        invariant
            j <= xs@.len(),
            xs@.len() == ys@.len(),
            all_wf(xs@),
            all_wf(ys@),
            forall|t: int| 0 <= t < j as int ==> close(xs@[t], ys@[t]),
        decreases xs@.len() - j as int,
    {
        if !xs[j].is_close(&ys[j]) {
            return false;
        }
        j = j + 1;
    }
    true
}

/// The clustering engine: the current centroid set. Indices are stable for
/// the whole run, so centroid identity across iterations is positional.
#[derive(Debug)]
pub struct KMeans {
    pub centroids: Vec<Centroid>,
}

impl KMeans {
    /// At least one centroid, every one denoting a valid color.
    pub open spec fn wf(self) -> bool {
        self.centroids@.len() >= 1 && all_wf(self.centroids@)
    }

    /// Builds one initial centroid per given index, each taking its value
    /// from the sample at that index.
    pub fn from_indices(pixels: &Vec<Pixel>, indices: &Vec<usize>) -> (km: KMeans)
        requires
            indices@.len() >= 1,
            forall|j: int| 0 <= j < indices@.len() ==> (indices@[j] as int) < pixels@.len(),
        ensures
            km.centroids@.len() == indices@.len(),
            forall|j: int|
                0 <= j < indices@.len() ==> km.centroids@[j] == Centroid::of_pixel(
                    pixels@[indices@[j] as int],
                ),
            km.wf(),
    {
        let mut cs: Vec<Centroid> = Vec::new();
        let mut j: usize = 0;
        while j < indices.len()
            invariant
                j <= indices@.len(),
                cs@.len() == j as int,
                forall|t: int| 0 <= t < indices@.len() ==> (indices@[t] as int) < pixels@.len(),
                forall|t: int|
                    0 <= t < j as int ==> cs@[t] == Centroid::of_pixel(pixels@[indices@[t] as int])
                        && (#[trigger] cs@[t]).wf(),
            decreases indices@.len() - j as int,
        {
            cs.push(Centroid::from_pixel(&pixels[indices[j]]));
            j = j + 1;
        }
        KMeans { centroids: cs }
    }

    /// Validates the configuration, then selects `k` initial centroids, each
    /// the color of a sample drawn uniformly at random, with replacement,
    /// from the input; duplicates are accepted as drawn.
    pub fn new(k: usize, pixels: &Vec<Pixel>) -> (r: Result<KMeans, KMeansError>)
        requires
            pixels@.len() <= MAX_SAMPLES,
        ensures
            r is Ok <==> (pixels@.len() >= 1 && 1 <= k as int <= pixels@.len()),
            match r {
                Result::Ok(km) => {
                    &&& km.centroids@.len() == k as int
                    &&& km.wf()
                    &&& forall|j: int|
                        0 <= j < k as int ==> drawn_from(#[trigger] km.centroids@[j], pixels@)
                },
                Result::Err(e) => {
                    &&& (e == KMeansError::EmptyInput <==> pixels@.len() == 0)
                    &&& (e == KMeansError::ZeroClusters <==> pixels@.len() > 0 && k == 0)
                    &&& (e == KMeansError::TooManyClusters <==> pixels@.len() > 0 && k as int
                        > pixels@.len())
                },
            },
    {
        if pixels.len() == 0 {
            return Result::Err(KMeansError::EmptyInput);
        }
        if k == 0 {
            return Result::Err(KMeansError::ZeroClusters);
        }
        if k > pixels.len() {
            return Result::Err(KMeansError::TooManyClusters);
        }
        let mut indices: Vec<usize> = Vec::new();
        let mut j: usize = 0;
        while j < k
            invariant
                j <= k,
                indices@.len() == j as int,
                pixels@.len() >= 1,
                forall|t: int| 0 <= t < j as int ==> (indices@[t] as int) < pixels@.len(),
            decreases k - j as int,
        {
            indices.push(random_index(pixels.len()));
            j = j + 1;
        }
        let km = KMeans::from_indices(pixels, &indices);
        proof {
            assert forall|j2: int| 0 <= j2 < k as int implies drawn_from(
                #[trigger] km.centroids@[j2],
                pixels@,
            ) by {
                let w = indices@[j2] as int;
                assert(0 <= w < pixels@.len());
                assert(km.centroids@[j2] == Centroid::of_pixel(pixels@[w]));
            }
        }
        Result::Ok(km)
    }

    /// Replaces the centroid set by the aggregation of the given
    /// assignments: one centroid per cluster, the exact mean of the
    /// cluster's samples, or the zero centroid for an empty cluster.
    pub fn update_centroids(&mut self, assignments: &Vec<usize>, pixels: &Vec<Pixel>)
        requires
            old(self).wf(),
            assignments@.len() == pixels@.len(),
            pixels@.len() <= MAX_SAMPLES,
            forall|i: int|
                0 <= i < assignments@.len() ==> (assignments@[i] as int) < old(
                    self,
                ).centroids@.len(),
        ensures
            final(self).wf(),
            final(self).centroids@.len() == old(self).centroids@.len(),
            forall|j: int|
                0 <= j < final(self).centroids@.len() ==> final(self).centroids@[j] == agg_centroid(
                    assignments@,
                    pixels@,
                    j,
                ),
    {
        let k = self.centroids.len();
        self.centroids = aggregate_step(assignments, pixels, k);
    }

    /// The convergence loop: repeats assignment and aggregation up to
    /// `max_iterations` times, stopping early as soon as every centroid
    /// moved less than the convergence threshold in one iteration. The
    /// final centroid set is exactly the given number of iterations applied
    /// to the initial set, and the outcome reports how the loop stopped:
    /// convergence happened after iteration `t` and after no earlier one,
    /// or the cap ran out with no converging iteration at all.
    #[verifier::rlimit(50)]
    pub fn run(&mut self, pixels: &Vec<Pixel>, max_iterations: usize) -> (outcome: RunOutcome)
        requires
            old(self).wf(),
            1 <= pixels@.len() <= MAX_SAMPLES,
        ensures
            final(self).wf(),
            final(self).centroids@.len() == old(self).centroids@.len(),
            match outcome {
                RunOutcome::Converged(t) => {
                    &&& 1 <= t as int <= max_iterations as int
                    &&& final(self).centroids@ == iterate_spec(
                        old(self).centroids@,
                        pixels@,
                        t as int,
                    )
                    &&& all_close(
                        iterate_spec(old(self).centroids@, pixels@, t as int),
                        iterate_spec(old(self).centroids@, pixels@, t as int - 1),
                    )
                    &&& forall|u: int|
                        1 <= u < t as int ==> !all_close(
                            #[trigger] iterate_spec(old(self).centroids@, pixels@, u),
                            iterate_spec(old(self).centroids@, pixels@, u - 1),
                        )
                },
                RunOutcome::IterationCapReached => {
                    &&& final(self).centroids@ == iterate_spec(
                        old(self).centroids@,
                        pixels@,
                        max_iterations as int,
                    )
                    &&& forall|u: int|
                        1 <= u <= max_iterations as int ==> !all_close(
                            #[trigger] iterate_spec(old(self).centroids@, pixels@, u),
                            iterate_spec(old(self).centroids@, pixels@, u - 1),
                        )
                },
            },
    {
        let ghost init = self.centroids@;
        proof {
            reveal(iterate_spec);
            assert(iterate_spec(init, pixels@, 0) == init);
        }
        let mut iter: usize = 0;
        while iter < max_iterations
            invariant
                init == old(self).centroids@,
                iter <= max_iterations,
                self.wf(),
                1 <= pixels@.len() <= MAX_SAMPLES,
                self.centroids@.len() == init.len(),
                self.centroids@ == iterate_spec(init, pixels@, iter as int),
                forall|u: int|
                    1 <= u <= iter as int ==> !all_close(
                        #[trigger] iterate_spec(init, pixels@, u),
                        iterate_spec(init, pixels@, u - 1),
                    ),
            decreases max_iterations - iter as int,
        {
            let assignments = assign_step(&self.centroids, pixels);
            let k = self.centroids.len();
            let new_cs = aggregate_step(&assignments, pixels, k);
            proof {
                lemma_step_matches(
                    self.centroids@,
                    pixels@,
                    assignments@,
                    new_cs@,
                    init,
                    iter as int,
                );
            }
            let converged = all_close_exec(&new_cs, &self.centroids);
            self.centroids = new_cs;
            iter = iter + 1;
            if converged {
                return RunOutcome::Converged(iter);
            }
        }
        RunOutcome::IterationCapReached
    }
}

/// An assignment vector and an aggregation that each satisfy their step's
/// contract against the centroid set reached after `t` iterations together
/// advance the iteration count by one.
proof fn lemma_step_matches(
    cs: Seq<Centroid>,
    ps: Seq<Pixel>,
    a: Seq<usize>,
    nc: Seq<Centroid>,
    init: Seq<Centroid>,
    t: int,
)
    requires
        a.len() == ps.len(),
        forall|i: int| 0 <= i < ps.len() ==> (#[trigger] a[i]) as int == closest_spec(cs, ps[i]),
        nc.len() == cs.len(),
        forall|j: int| 0 <= j < cs.len() ==> (#[trigger] nc[j]) == agg_centroid(a, ps, j),
        t >= 0,
        cs == iterate_spec(init, ps, t),
    ensures
        nc == iterate_spec(init, ps, t + 1),
{
    reveal(iterate_spec);
    assert(a =~= assign_seq(cs, ps));
    assert(nc =~= step_spec(cs, ps));
    assert(iterate_spec(init, ps, t + 1) == step_spec(iterate_spec(init, ps, t), ps));
}

/// The sum of channel `c` over the first `n` samples.
pub open spec fn psum(ps: Seq<Pixel>, c: int, n: int) -> int
    decreases n,
{
    if n <= 0 {
        0
    } else {
        psum(ps, c, n - 1) + channel(ps[n - 1], c)
    }
}

/// The exact mean color of all samples, as a centroid over the whole
/// sample count.
pub open spec fn mean_centroid(ps: Seq<Pixel>) -> Centroid {
    Centroid {
        sum_r: psum(ps, 0, ps.len() as int) as u64,
        sum_g: psum(ps, 1, ps.len() as int) as u64,
        sum_b: psum(ps, 2, ps.len() as int) as u64,
        count: ps.len() as u64,
    }
}

proof fn lemma_all_zero_group(a: Seq<usize>, ps: Seq<Pixel>, n: int)
    requires
        0 <= n <= a.len(),
        a.len() == ps.len(),
        forall|i: int| 0 <= i < a.len() ==> (a[i] as int) == 0,
    ensures
        gcount(a, 0, n) == n,
        gsum(a, ps, 0, 0, n) == psum(ps, 0, n),
        gsum(a, ps, 0, 1, n) == psum(ps, 1, n),
        gsum(a, ps, 0, 2, n) == psum(ps, 2, n),
    decreases n,
{
    if n > 0 {
        lemma_all_zero_group(a, ps, n - 1);
    }
}

/// With a single cluster every sample is assigned to it, so one iteration
/// moves the centroid to the exact mean of all samples, a second iteration
/// reproduces that mean exactly, and the convergence test then passes.
pub proof fn lemma_single_cluster_mean(cs: Seq<Centroid>, ps: Seq<Pixel>)
    requires
        cs.len() == 1,
        1 <= ps.len() <= MAX_SAMPLES,
    ensures
        iterate_spec(cs, ps, 1) =~= seq![mean_centroid(ps)],
        iterate_spec(cs, ps, 2) =~= iterate_spec(cs, ps, 1),
        all_close(iterate_spec(cs, ps, 2), iterate_spec(cs, ps, 1)),
{
    reveal(iterate_spec);
    lemma_step_of_single(cs, ps);
    assert(iterate_spec(cs, ps, 0) == cs);
    assert(iterate_spec(cs, ps, 1) == step_spec(iterate_spec(cs, ps, 0), ps));
    let one = iterate_spec(cs, ps, 1);
    assert(one =~= seq![mean_centroid(ps)]);
    lemma_step_of_single(one, ps);
    assert(iterate_spec(cs, ps, 2) == step_spec(one, ps));
    lemma_close_refl(mean_centroid(ps));
}

proof fn lemma_step_of_single(cs: Seq<Centroid>, ps: Seq<Pixel>)
    requires
        cs.len() == 1,
        ps.len() >= 1,
    ensures
        step_spec(cs, ps) =~= seq![mean_centroid(ps)],
{
    let a = assign_seq(cs, ps);
    assert forall|i: int| 0 <= i < a.len() implies (a[i] as int) == 0 by {
        assert(closest_spec(cs, ps[i]) == 0);
    }
    lemma_all_zero_group(a, ps, ps.len() as int);
    assert(gcount(a, 0, a.len() as int) == ps.len());
    assert(step_spec(cs, ps)[0] == agg_centroid(a, ps, 0));
    assert(agg_centroid(a, ps, 0) == mean_centroid(ps));
}

} // verus!
