//! The three kinds of metric value and the variant type that unifies them.

use vstd::prelude::*;
use std::sync::Arc;
use prometheus_client::encoding::{EncodeMetric, MetricEncoder};
use prometheus_client::metrics::gauge::Gauge;
use prometheus_client::metrics::MetricType;

pub mod counter;
pub mod gauge;
pub mod histogram;

pub use self::counter::MetricsCounter;
pub use self::gauge::MetricsGauge;
pub use self::histogram::MetricsHistogram;

verus! {

/// `prometheus_client::metrics::MetricType`, with the variants it has.
#[verifier::external_type_specification]
pub struct ExMetricType(MetricType);

/// `prometheus_client::encoding::MetricEncoder`: the encoder of one family's
/// samples. Nothing of its content is visible.
#[verifier::external_type_specification]
#[verifier::external_body]
pub struct ExMetricEncoder<'a>(MetricEncoder<'a>);

/// `std::fmt::Error`: the failure of a sink.
#[verifier::external_type_specification]
#[verifier::external_body]
pub struct ExFmtError(std::fmt::Error);

/// One registered metric. The value behind each variant is shared between the
/// registry and the handle given out at registration, so both observe the
/// same updates. `N` is the number a gauge holds and `A` the atomic cell that
/// stores it.
#[derive(Debug)]
#[verifier::reject_recursive_types(N)]
#[verifier::reject_recursive_types(A)]
pub enum Metric<N, A> {
    Counter(Arc<MetricsCounter>),
    Gauge(Arc<MetricsGauge<N, A>>),
    Histogram(Arc<MetricsHistogram>),
}

/// Whether two metric types are the same variant.
pub open spec fn same_type(a: MetricType, b: MetricType) -> bool {
    match (a, b) {
        (MetricType::Counter, MetricType::Counter) => true,
        (MetricType::Gauge, MetricType::Gauge) => true,
        (MetricType::Histogram, MetricType::Histogram) => true,
        (MetricType::Info, MetricType::Info) => true,
        (MetricType::Unknown, MetricType::Unknown) => true,
        _ => false,
    }
}

/// Decides `same_type`.
pub fn is_same_type(a: MetricType, b: MetricType) -> (same: bool)
    ensures
        same == same_type(a, b),
        same == (a == b),
{
    match (a, b) {
        (MetricType::Counter, MetricType::Counter) => true,
        (MetricType::Gauge, MetricType::Gauge) => true,
        (MetricType::Histogram, MetricType::Histogram) => true,
        (MetricType::Info, MetricType::Info) => true,
        (MetricType::Unknown, MetricType::Unknown) => true,
        _ => false,
    }
}

impl<N, A> Metric<N, A> {
    /// The metric type that belongs to each variant.
    pub open spec fn kind(&self) -> MetricType {
        match self {
            Metric::Counter(_) => MetricType::Counter,
            Metric::Gauge(_) => MetricType::Gauge,
            Metric::Histogram(_) => MetricType::Histogram,
        }
    }

    /// Reports the metric type by looking at the variant alone.
    pub fn metric_type(&self) -> (kind: MetricType)
        ensures
            kind == self.kind(),
    {
        match self {
            Metric::Counter(_) => MetricType::Counter,
            Metric::Gauge(_) => MetricType::Gauge,
            Metric::Histogram(_) => MetricType::Histogram,
        }
    }

    /// Writes the current value through `encoder` in the way the underlying
    /// value does. The result is whatever the value's own encoder returned:
    /// an error can only come from the sink behind `encoder`.
    pub fn encode(&self, encoder: MetricEncoder<'_>) -> (r: Result<(), std::fmt::Error>)
        where
            Gauge<N, A>: EncodeMetric,
    {
        match self {
            Metric::Counter(counter) => counter.encode(encoder),
            Metric::Gauge(gauge) => gauge.encode(encoder),
            Metric::Histogram(hist) => hist.encode(encoder),
        }
    }
}

} // verus!
