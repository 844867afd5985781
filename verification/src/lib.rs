//! In-process metrics instrumentation core.
//!
//! The centre of the crate is the [`metrics::summary::Summary`] metric: a
//! concurrently updated aggregator that tracks an all-time sum and count of
//! observed values and estimates configured quantiles over a sliding time
//! window of rotating buckets.

pub mod metrics;
