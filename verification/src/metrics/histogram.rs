//! The fixed-bucket histogram.

use vstd::prelude::*;
use prometheus_client::encoding::{EncodeMetric, MetricEncoder};
use prometheus_client::metrics::histogram::Histogram;

verus! {

/// `prometheus_client::metrics::histogram::Histogram`. Nothing of its
/// content is visible.
#[verifier::external_type_specification]
#[verifier::external_body]
pub struct ExHistogram(Histogram);

/// A histogram whose bucket boundaries were fixed when it was built. The
/// registry only stores and encodes it; observations are made on the
/// underlying histogram, reached through `inner`.
#[derive(Debug)]
pub struct MetricsHistogram {
    inner: Histogram,
}

/// `EncodeMetric::encode` of the histogram: writes its sum, count and
/// cumulative bucket counts through `encoder`. Whether it succeeds depends on
/// the sink, so nothing is claimed about the result.
#[verifier::external_body]
fn histogram_encode(histogram: &Histogram, encoder: MetricEncoder<'_>) -> (r: Result<
    (),
    std::fmt::Error,
>)
{
    histogram.encode(encoder)
}

impl MetricsHistogram {
    /// Wraps a histogram that already has its buckets.
    pub fn new(inner: Histogram) -> (histogram: Self)
        ensures
            histogram.inner() == inner,
    {
        MetricsHistogram { inner }
    }

    /// The underlying histogram.
    pub closed spec fn inner(&self) -> Histogram {
        self.inner
    }

    /// The underlying histogram, on which observations are recorded.
    pub fn as_inner(&self) -> (inner: &Histogram)
        ensures
            *inner == self.inner(),
    {
        &self.inner
    }

    /// Writes the current state through `encoder`.
    pub fn encode(&self, encoder: MetricEncoder<'_>) -> (r: Result<(), std::fmt::Error>) {
        histogram_encode(&self.inner, encoder)
    }
}

} // verus!
