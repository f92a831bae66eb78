//! The monotonic counter.

use vstd::prelude::*;
use prometheus_client::encoding::{EncodeMetric, MetricEncoder};
use prometheus_client::metrics::counter::Counter;
use std::sync::atomic::{AtomicU64, Ordering};

verus! {

/// `prometheus_client::metrics::counter::Counter`. Nothing of its content is
/// visible.
#[verifier::external_type_specification]
#[verifier::external_body]
#[verifier::reject_recursive_types(N)]
#[verifier::reject_recursive_types(A)]
pub struct ExCounter<N, A>(Counter<N, A>);

/// The sum of `current` and `delta`, reduced modulo 2^64. This is the rule of
/// a wrapping add on 64 bits, written down for reasoning about a value that
/// has one owner; no contract ties the shared cell of a `MetricsCounter` to
/// it.
pub open spec fn incremented(current: u64, delta: u64) -> u64 {
    if current + delta <= u64::MAX {
        (current + delta) as u64
    } else {
        (current + delta - u64::MAX - 1) as u64
    }
}

/// The larger of `current` and `value`. This is the rule of an update that
/// never lowers a value, written down for reasoning about a value that has
/// one owner; no contract ties the shared cell of a `MetricsCounter` to it.
pub open spec fn raised(current: u64, value: u64) -> u64 {
    if value > current {
        value
    } else {
        current
    }
}

/// An unsigned accumulator that only grows. The cell is atomic and shared
/// with every clone of the underlying counter, so all updates go through
/// `&self`.
#[derive(Debug)]
pub struct MetricsCounter {
    inner: Counter<u64, AtomicU64>,
}

/// `Counter::default`: a fresh counter around a fresh cell. Nothing is
/// claimed about it.
#[verifier::external_body]
fn counter_default() -> (counter: Counter<u64, AtomicU64>)
{
    Counter::default()
}

/// `Counter::inc_by`: atomically adds `delta` to the cell, wrapping at the
/// top of the range, and returns the value the cell held before. Other
/// threads may update the cell at any time, so nothing is claimed about the
/// returned value.
#[verifier::external_body]
fn counter_inc_by(counter: &Counter<u64, AtomicU64>, delta: u64) -> (previous: u64)
{
    counter.inc_by(delta)
}

/// `Counter::inner`: the atomic cell behind the counter. Nothing is claimed
/// about it.
#[verifier::external_body]
fn counter_cell(counter: &Counter<u64, AtomicU64>) -> (cell: &AtomicU64)
{
    counter.inner()
}

/// `Counter::get`: the value the cell holds at the moment of the call. Other
/// threads may update the cell at any time, so nothing is claimed about it.
#[verifier::external_body]
fn counter_get(counter: &Counter<u64, AtomicU64>) -> (value: u64)
{
    counter.get()
}

/// `EncodeMetric::encode` of the counter: writes its current value through
/// `encoder`. Whether it succeeds depends on the sink, so nothing is claimed
/// about the result.
#[verifier::external_body]
fn counter_encode(counter: &Counter<u64, AtomicU64>, encoder: MetricEncoder<'_>) -> (r: Result<
    (),
    std::fmt::Error,
>)
{
    counter.encode(encoder)
}

impl MetricsCounter {
    /// A fresh counter.
    pub fn new() -> (counter: Self) {
        MetricsCounter { inner: counter_default() }
    }

    /// Hands `value` to the atomic add of the underlying counter. The cell is
    /// shared, so the contract says nothing of the value it holds.
    pub fn increment(&self, value: u64) {
        let _ = counter_inc_by(&self.inner, value);
    }

    /// Hands `value` to the atomic maximum of the underlying cell. The cell is
    /// shared, so the contract says nothing of the value it holds.
    pub fn absolute(&self, value: u64) {
        let _ = counter_cell(&self.inner).fetch_max(value, Ordering::Relaxed);
    }

    /// Reads the cell once. The cell is shared, so the contract says nothing
    /// of the value read.
    pub fn get(&self) -> (value: u64) {
        counter_get(&self.inner)
    }

    /// Writes the current value through `encoder`.
    pub fn encode(&self, encoder: MetricEncoder<'_>) -> (r: Result<(), std::fmt::Error>) {
        counter_encode(&self.inner, encoder)
    }
}

impl Default for MetricsCounter {
    fn default() -> (counter: Self) {
        MetricsCounter::new()
    }
}

/// Neither rule lowers a value: `incremented` gives the sum while it stays
/// within the unsigned range, `raised` gives at least both of its arguments,
/// and raising to a value below the current one changes nothing. The law
/// speaks of the two rules only.
pub proof fn lemma_updates_never_lower(current: u64, delta: u64, value: u64)
    ensures
        current + delta <= u64::MAX ==> incremented(current, delta) >= current,
        current + delta <= u64::MAX ==> incremented(current, delta) == current + delta,
        raised(current, value) >= current,
        raised(current, value) >= value,
        value < current ==> raised(current, value) == current,
        value <= current ==> raised(current, value) == current,
{
}

} // verus!
