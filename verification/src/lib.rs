//! Color-palette reduction by k-means clustering, verified end to end.
//!
//! Samples are 8-bit RGB colors and centroids are exact rational colors:
//! per-channel sums over a common count. Because every centroid the
//! algorithm produces is the mean of integer samples, all distance
//! comparisons, convergence tests and quantizations are carried out in
//! exact integer arithmetic, and every step's result is pinned by its
//! contract.
//!
//! - [`color`] holds the sample and centroid types with their distance and
//!   closeness predicates.
//! - [`assign`] computes each sample's nearest centroid, in parallel.
//! - [`aggregate`] folds the assigned samples into new mean centroids.
//! - [`engine`] validates a configuration, draws the initial centroids and
//!   drives the iteration loop to convergence or to the iteration cap.
//! - [`reconstruct`] re-renders the samples with the final palette.

pub mod color;
pub mod assign;
pub mod aggregate;
pub mod engine;
pub mod reconstruct;
