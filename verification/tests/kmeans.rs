use kmeans_palette::aggregate::aggregate_step;
use kmeans_palette::assign::{assign_step, closest_centroid_index};
use kmeans_palette::color::{Centroid, Pixel};
use kmeans_palette::engine::{KMeans, KMeansError, RunOutcome};
use kmeans_palette::reconstruct::reconstruct_colors;

fn px(r: u8, g: u8, b: u8) -> Pixel {
    Pixel::new(r, g, b)
}

fn cent(r: u64, g: u64, b: u64) -> Centroid {
    Centroid { sum_r: r, sum_g: g, sum_b: b, count: 1 }
}

fn dist(p: &Pixel, c: &Centroid) -> f64 {
    let cr = c.sum_r as f64 / c.count as f64;
    let cg = c.sum_g as f64 / c.count as f64;
    let cb = c.sum_b as f64 / c.count as f64;
    ((p.r as f64 - cr).powi(2) + (p.g as f64 - cg).powi(2) + (p.b as f64 - cb).powi(2)).sqrt()
}

#[test]
fn quantize_truncates_each_channel() {
    let c = Centroid { sum_r: 7, sum_g: 8, sum_b: 9, count: 2 };
    assert_eq!(c.quantize(), px(3, 4, 4));
    let whole = Centroid { sum_r: 510, sum_g: 0, sum_b: 2, count: 2 };
    assert_eq!(whole.quantize(), px(255, 0, 1));
}

#[test]
fn is_close_threshold_is_strict() {
    let a = cent(0, 0, 0);
    let just_under = Centroid { sum_r: 1, sum_g: 0, sum_b: 0, count: 100001 };
    let exactly_at = Centroid { sum_r: 1, sum_g: 0, sum_b: 0, count: 100000 };
    let just_over = Centroid { sum_r: 1, sum_g: 0, sum_b: 0, count: 99999 };
    assert!(a.is_close(&just_under));
    assert!(!a.is_close(&exactly_at));
    assert!(!a.is_close(&just_over));
    assert!(a.is_close(&a));
}

#[test]
fn closest_centroid_breaks_ties_by_lowest_index() {
    let cs = vec![cent(0, 0, 0), cent(20, 0, 0)];
    // (10,0,0) is exactly 10 away from both centroids: lowest index wins.
    assert_eq!(closest_centroid_index(&px(10, 0, 0), &cs), 0);
    assert_eq!(closest_centroid_index(&px(14, 0, 0), &cs), 1);
    assert_eq!(closest_centroid_index(&px(4, 0, 0), &cs), 0);
}

#[test]
fn assignment_is_valid_and_matches_nearest() {
    let pixels = vec![
        px(0, 0, 0),
        px(255, 0, 0),
        px(0, 255, 0),
        px(120, 130, 140),
        px(10, 20, 30),
        px(200, 210, 220),
    ];
    let cs = vec![cent(0, 0, 0), cent(255, 0, 0), cent(128, 128, 128)];
    let a = assign_step(&cs, &pixels);
    assert_eq!(a.len(), pixels.len());
    for (i, &j) in a.iter().enumerate() {
        assert!(j < cs.len());
        // No centroid is strictly closer than the chosen one.
        for t in 0..cs.len() {
            assert!(dist(&pixels[i], &cs[j]) <= dist(&pixels[i], &cs[t]) + 1e-9);
        }
    }
}

#[test]
fn assignment_is_deterministic() {
    let pixels = vec![px(1, 2, 3), px(250, 240, 230), px(100, 100, 100), px(99, 99, 99)];
    let cs = vec![cent(0, 0, 0), cent(255, 255, 255), cent(100, 100, 100)];
    let a1 = assign_step(&cs, &pixels);
    let a2 = assign_step(&cs, &pixels);
    assert_eq!(a1, a2);
}

#[test]
fn group_sizes_cover_all_samples() {
    let pixels = vec![
        px(0, 0, 0),
        px(255, 255, 255),
        px(128, 128, 128),
        px(10, 10, 10),
        px(240, 240, 240),
    ];
    let cs = vec![cent(0, 0, 0), cent(255, 255, 255)];
    let a = assign_step(&cs, &pixels);
    let new_cs = aggregate_step(&a, &pixels, cs.len());
    let mut sizes = vec![0usize; cs.len()];
    for &j in a.iter() {
        sizes[j] += 1;
    }
    assert_eq!(sizes.iter().sum::<usize>(), pixels.len());
    // The aggregated counts agree with the group sizes for non-empty groups.
    for j in 0..cs.len() {
        if sizes[j] > 0 {
            assert_eq!(new_cs[j].count as usize, sizes[j]);
        }
    }
}

#[test]
fn aggregation_computes_exact_means() {
    let pixels = vec![px(1, 1, 1), px(3, 5, 7), px(10, 10, 10)];
    let assignments = vec![0usize, 0, 1];
    let out = aggregate_step(&assignments, &pixels, 2);
    assert_eq!(out.len(), 2);
    assert_eq!(out[0], Centroid { sum_r: 4, sum_g: 6, sum_b: 8, count: 2 });
    assert_eq!(out[1], Centroid { sum_r: 10, sum_g: 10, sum_b: 10, count: 1 });
}

#[test]
fn empty_cluster_becomes_zero_centroid() {
    let pixels = vec![px(0, 0, 0), px(10, 10, 10)];
    // The second centroid is far from every sample, so its cluster is empty.
    let cs = vec![cent(0, 0, 0), cent(200, 200, 200)];
    let a = assign_step(&cs, &pixels);
    assert_eq!(a, vec![0, 0]);
    let out = aggregate_step(&a, &pixels, 2);
    assert_eq!(out[1], Centroid { sum_r: 0, sum_g: 0, sum_b: 0, count: 1 });
    assert_eq!(out[1].quantize(), px(0, 0, 0));
}

#[test]
fn update_centroids_replaces_the_set() {
    let pixels = vec![px(2, 2, 2), px(4, 4, 4)];
    let mut km = KMeans { centroids: vec![cent(0, 0, 0)] };
    let a = vec![0usize, 0];
    km.update_centroids(&a, &pixels);
    assert_eq!(km.centroids.len(), 1);
    assert_eq!(km.centroids[0], Centroid { sum_r: 6, sum_g: 6, sum_b: 6, count: 2 });
}

#[test]
fn single_cluster_reaches_exact_mean() {
    let pixels = vec![px(0, 0, 0), px(2, 2, 2), px(4, 4, 4)];
    let mut km = KMeans::from_indices(&pixels, &vec![0]);
    let outcome = km.run(&pixels, 100);
    match outcome {
        RunOutcome::Converged(t) => assert!(t <= 2),
        RunOutcome::IterationCapReached => panic!("a single cluster must converge"),
    }
    // The centroid is the exact mean of all samples: (2, 2, 2) as 6/3.
    assert_eq!(km.centroids[0], Centroid { sum_r: 6, sum_g: 6, sum_b: 6, count: 3 });
    assert_eq!(km.centroids[0].quantize(), px(2, 2, 2));
}

#[test]
fn exhausting_the_cap_is_observable() {
    let pixels = vec![px(0, 0, 0), px(10, 10, 10)];
    let mut km = KMeans::from_indices(&pixels, &vec![0]);
    // One iteration moves the centroid from (0,0,0) to the mean (5,5,5),
    // which is not within the threshold of the start, so a cap of 1 runs out.
    let outcome = km.run(&pixels, 1);
    assert_eq!(outcome, RunOutcome::IterationCapReached);
    assert_eq!(km.centroids[0], Centroid { sum_r: 10, sum_g: 10, sum_b: 10, count: 2 });
    // Resuming from the mean converges immediately.
    let outcome2 = km.run(&pixels, 100);
    assert_eq!(outcome2, RunOutcome::Converged(1));
    // A cap of zero performs no iteration at all.
    let mut untouched = KMeans::from_indices(&pixels, &vec![1]);
    let outcome3 = untouched.run(&pixels, 0);
    assert_eq!(outcome3, RunOutcome::IterationCapReached);
    assert_eq!(untouched.centroids[0], Centroid::from_pixel(&pixels[1]));
}

#[test]
fn four_saturated_colors_reproduce_exactly() {
    let pixels = vec![px(255, 0, 0), px(0, 255, 0), px(0, 0, 255), px(255, 255, 255)];
    let mut km = KMeans::from_indices(&pixels, &vec![0, 1, 2, 3]);
    let outcome = km.run(&pixels, 100);
    assert_eq!(outcome, RunOutcome::Converged(1));
    // Each cluster holds exactly its own color.
    for (j, p) in pixels.iter().enumerate() {
        assert_eq!(km.centroids[j], Centroid::from_pixel(p));
    }
    let out = reconstruct_colors(&km.centroids, &pixels);
    assert_eq!(out, pixels);
}

#[test]
fn configuration_errors_fail_fast() {
    let empty: Vec<Pixel> = Vec::new();
    let two = vec![px(1, 1, 1), px(2, 2, 2)];
    assert_eq!(KMeans::new(1, &empty).unwrap_err(), KMeansError::EmptyInput);
    assert_eq!(KMeans::new(0, &two).unwrap_err(), KMeansError::ZeroClusters);
    assert_eq!(KMeans::new(3, &two).unwrap_err(), KMeansError::TooManyClusters);
    assert!(KMeans::new(2, &two).is_ok());
}

#[test]
fn initial_centroids_are_drawn_from_samples() {
    let pixels = vec![px(7, 8, 9), px(7, 8, 9), px(7, 8, 9)];
    // All samples share one color, so every random draw yields it.
    let km = KMeans::new(3, &pixels).unwrap();
    assert_eq!(km.centroids.len(), 3);
    for c in km.centroids.iter() {
        assert_eq!(*c, Centroid::from_pixel(&pixels[0]));
    }
    // With several samples, every centroid is still the color of a sample.
    let many = vec![px(0, 0, 0), px(50, 60, 70), px(255, 255, 255)];
    let km2 = KMeans::new(2, &many).unwrap();
    for c in km2.centroids.iter() {
        assert!(many.iter().any(|p| *c == Centroid::from_pixel(p)));
    }
}

#[test]
fn within_cluster_distance_does_not_increase() {
    let pixels = vec![
        px(0, 0, 0),
        px(10, 0, 0),
        px(0, 10, 0),
        px(200, 200, 200),
        px(220, 210, 190),
        px(128, 128, 128),
    ];
    let mut centroids = vec![Centroid::from_pixel(&pixels[0]), Centroid::from_pixel(&pixels[3])];
    let mut prev_ssd = f64::MAX;
    for _ in 0..10 {
        let a = assign_step(&centroids, &pixels);
        centroids = aggregate_step(&a, &pixels, centroids.len());
        let ssd: f64 = pixels
            .iter()
            .zip(a.iter())
            .map(|(p, &j)| dist(p, &centroids[j]).powi(2))
            .sum();
        assert!(ssd <= prev_ssd + 1e-6);
        prev_ssd = ssd;
    }
}

#[test]
fn reconstruction_uses_final_centroids_only() {
    let pixels = vec![px(40, 40, 40), px(90, 90, 90)];
    let cs = vec![cent(0, 0, 0), cent(100, 100, 100)];
    let out = reconstruct_colors(&cs, &pixels);
    assert_eq!(out, vec![px(0, 0, 0), px(100, 100, 100)]);
    // A fractional mean is truncated per channel.
    let halves = vec![Centroid { sum_r: 5, sum_g: 5, sum_b: 5, count: 2 }];
    let out2 = reconstruct_colors(&halves, &vec![px(0, 0, 0)]);
    assert_eq!(out2, vec![px(2, 2, 2)]);
}
