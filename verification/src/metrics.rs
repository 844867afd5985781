//! Metric type implementations.

use vstd::prelude::*;

pub mod sketch;
pub mod summary;

verus! {

/// The kind of an Open Metrics metric, exposed so that a generic exporter can
/// branch on the declared kind without inspecting a metric's internals.
#[derive(Clone, Copy, Debug, PartialEq, Eq, Structural)]
pub enum MetricType {
    Counter,
    Gauge,
    Histogram,
    Info,
    Unknown,
    Summary,
}

/// A metric that is aware of its Open Metrics metric type.
///
/// Implementations declare a single kind, fixed at compile time; a metric
/// that declares nothing is of kind [`MetricType::Unknown`]. The declared
/// kind is a spec-level member, so code generic over metrics can prove
/// which kind [`TypedMetric::metric_type`] reports.
pub trait TypedMetric {
    /// The one kind this metric declares; [`MetricType::Unknown`] where
    /// none is declared.
    open spec fn spec_metric_type() -> MetricType {
        MetricType::Unknown
    }

    /// Report the declared kind, for an exporter to branch on.
    fn metric_type() -> (t: MetricType)
        ensures
            t == Self::spec_metric_type(),
    ;
}

} // verus!
