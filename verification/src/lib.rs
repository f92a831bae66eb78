//! A metrics registry that stores counters, gauges and histograms by name and
//! label set and renders them through a Prometheus exposition encoder.

use vstd::prelude::*;

pub mod collector;
pub mod laws;
pub mod metrics;
pub mod utils;

pub use self::collector::{
    DescriptorView, EntryView, FamilyHeader, FamilyView, LabelPair, MetricsCollector,
};
pub use self::metrics::{Metric, MetricsCounter, MetricsGauge, MetricsHistogram};

verus! {

/// Marker under which the usage examples of the crate's documentation are
/// compiled as documentation tests.
pub struct ReadmeDoctests;

} // verus!
