//! The gauge.

use vstd::prelude::*;
use prometheus_client::encoding::{EncodeMetric, MetricEncoder};
use prometheus_client::metrics::gauge::{Atomic, Gauge};

verus! {

/// `prometheus_client::metrics::gauge::Gauge`. Nothing of its content is
/// visible.
#[verifier::external_type_specification]
#[verifier::external_body]
#[verifier::reject_recursive_types(N)]
#[verifier::reject_recursive_types(A)]
pub struct ExGauge<N, A>(Gauge<N, A>);

/// A value that can go up and down. `N` is the number it holds and `A` the
/// atomic cell that stores it; each update is one atomic read-modify-write,
/// and concurrent updates are not combined.
#[derive(Debug)]
#[verifier::reject_recursive_types(N)]
#[verifier::reject_recursive_types(A)]
pub struct MetricsGauge<N, A> {
    inner: Gauge<N, A>,
}

/// `Gauge::default`: a fresh gauge around the default value of its cell.
/// Nothing is claimed about it.
#[verifier::external_body]
fn gauge_default<N, A: Default>() -> (gauge: Gauge<N, A>)
{
    Gauge::default()
}

/// `Gauge::inc_by`: atomically adds `delta` and returns the value held
/// before. The cell is shared, so nothing is claimed about that value.
#[verifier::external_body]
fn gauge_inc_by<N, A: Atomic<N>>(gauge: &Gauge<N, A>, delta: N) -> (previous: N)
{
    gauge.inc_by(delta)
}

/// `Gauge::dec_by`: atomically subtracts `delta` and returns the value held
/// before. The cell is shared, so nothing is claimed about that value.
#[verifier::external_body]
fn gauge_dec_by<N, A: Atomic<N>>(gauge: &Gauge<N, A>, delta: N) -> (previous: N)
{
    gauge.dec_by(delta)
}

/// `Gauge::set`: atomically stores `value` and returns the value held before.
/// The cell is shared, so nothing is claimed about that value.
#[verifier::external_body]
fn gauge_set<N, A: Atomic<N>>(gauge: &Gauge<N, A>, value: N) -> (previous: N)
{
    gauge.set(value)
}

/// `EncodeMetric::encode` of the gauge: writes its current value through
/// `encoder`. Whether it succeeds depends on the sink, so nothing is claimed
/// about the result.
#[verifier::external_body]
fn gauge_encode<N, A>(gauge: &Gauge<N, A>, encoder: MetricEncoder<'_>) -> (r: Result<
    (),
    std::fmt::Error,
>) where Gauge<N, A>: EncodeMetric
{
    gauge.encode(encoder)
}

impl<N, A> MetricsGauge<N, A> {
    /// A fresh gauge.
    pub fn new() -> (gauge: Self) where A: Default {
        MetricsGauge { inner: gauge_default() }
    }

    /// Hands `value` to the atomic add of the underlying gauge. The cell is
    /// shared, so the contract says nothing of the value it holds.
    pub fn increment(&self, value: N) where A: Atomic<N> {
        let _ = gauge_inc_by(&self.inner, value);
    }

    /// Hands `value` to the atomic subtraction of the underlying gauge. The
    /// cell is shared, so the contract says nothing of the value it holds.
    pub fn decrement(&self, value: N) where A: Atomic<N> {
        let _ = gauge_dec_by(&self.inner, value);
    }

    /// Hands `value` to the atomic store of the underlying gauge. The cell is
    /// shared, so the contract says nothing of the value it holds.
    pub fn set(&self, value: N) where A: Atomic<N> {
        let _ = gauge_set(&self.inner, value);
    }

    /// Writes the current value through `encoder`.
    pub fn encode(&self, encoder: MetricEncoder<'_>) -> (r: Result<(), std::fmt::Error>) where
        Gauge<N, A>: EncodeMetric,
     {
        gauge_encode(&self.inner, encoder)
    }
}

impl<N, A: Default> Default for MetricsGauge<N, A> {
    fn default() -> (gauge: Self) {
        MetricsGauge::new()
    }
}

} // verus!
