use std::sync::atomic::AtomicU64;

use metrics_collector::metrics::is_same_type;
use metrics_collector::utils::{convert_labels_to_prometheus, convert_unit_to_prometheus};
use metrics_collector::{Metric, MetricsCollector, MetricsCounter, MetricsGauge, MetricsHistogram};
use prometheus_client::collector::Collector;
use prometheus_client::encoding::DescriptorEncoder;
use prometheus_client::metrics::histogram::Histogram;
use prometheus_client::metrics::MetricType;
use prometheus_client::registry::Registry;

type Registered = MetricsCollector<f64, AtomicU64>;

#[derive(Debug)]
struct Exposed(Registered);

impl Collector for Exposed {
    fn encode(&self, encoder: DescriptorEncoder) -> Result<(), std::fmt::Error> {
        self.0.encode(encoder)
    }
}

fn exposition(collector: Registered) -> String {
    let mut registry = Registry::default();
    registry.register_collector(Box::new(Exposed(collector)));
    let mut out = String::new();
    prometheus_client::encoding::text::encode(&mut out, &registry).unwrap();
    out
}

fn buckets() -> Histogram {
    Histogram::new([0.005, 0.01, 0.025, 0.05, 0.1, 0.25, 0.5, 1.0, 2.5, 5.0, 10.0])
}

fn region(value: &'static str) -> Vec<::metrics::Label> {
    vec![::metrics::Label::new("region", value)]
}

#[test]
fn empty_registry_encodes_nothing() {
    let collector = Registered::new();
    assert_eq!(exposition(collector), "# EOF\n");
}

#[test]
fn default_registry_is_empty() {
    let collector = Registered::default();
    assert!(!collector.has_descriptor(&"anything".to_string()));
    assert!(collector.can_register(&"anything".to_string(), false, MetricType::Gauge));
    assert_eq!(exposition(collector), "# EOF\n");
}

#[test]
fn counter_increment_and_absolute_are_monotonic() {
    let counter = MetricsCounter::new();
    assert_eq!(counter.get(), 0);
    counter.increment(5);
    assert_eq!(counter.get(), 5);
    counter.absolute(3);
    assert_eq!(counter.get(), 5);
    counter.absolute(5);
    assert_eq!(counter.get(), 5);
    counter.absolute(9);
    assert_eq!(counter.get(), 9);
    counter.increment(0);
    assert_eq!(counter.get(), 9);
    counter.increment(2);
    assert_eq!(counter.get(), 11);
}

#[test]
fn counter_default_starts_at_zero() {
    let counter = MetricsCounter::default();
    assert_eq!(counter.get(), 0);
}

#[test]
fn counter_increment_wraps_at_the_top_of_the_range() {
    let counter = MetricsCounter::new();
    counter.absolute(u64::MAX);
    assert_eq!(counter.get(), u64::MAX);
    counter.increment(2);
    assert_eq!(counter.get(), 1);
}

#[test]
fn gauge_under_counter_name_is_refused() {
    let mut collector = Registered::new();
    let name = "jobs".to_string();
    assert!(collector.can_register(&name, true, MetricType::Counter));
    let _first = collector.register_counter(name.clone(), region("us"));
    assert!(!collector.can_register(&name, true, MetricType::Gauge));
    assert!(!collector.can_register(&name, false, MetricType::Gauge));
    assert!(!collector.can_register(&name, true, MetricType::Histogram));
    assert!(collector.can_register(&name, true, MetricType::Counter));
    assert!(collector.can_register(&"other".to_string(), false, MetricType::Gauge));
}

#[test]
fn two_labelled_counters_both_appear() {
    let mut collector = Registered::new();
    let name = "jobs".to_string();
    let us = collector.register_counter(name.clone(), region("us"));
    assert!(collector.can_register(&name, true, MetricType::Counter));
    let eu = collector.register_counter(name.clone(), region("eu"));
    us.increment(3);
    eu.increment(4);
    let text = exposition(collector);
    assert_eq!(
        text,
        "# HELP jobs \n# TYPE jobs counter\njobs_total{region=\"us\"} 3\njobs_total{region=\"eu\"} 4\n# EOF\n"
    );
}

#[test]
fn unlabelled_entry_stays_alone() {
    let mut collector = Registered::new();
    let name = "up".to_string();
    assert!(collector.can_register(&name, false, MetricType::Gauge));
    let _gauge = collector.register_gauge(name.clone(), Vec::new());
    assert!(!collector.can_register(&name, false, MetricType::Gauge));
    assert!(!collector.can_register(&name, true, MetricType::Gauge));
    assert!(!collector.can_register(&name, true, MetricType::Counter));
}

#[test]
fn unlabelled_entry_is_refused_after_labelled_one() {
    let mut collector = Registered::new();
    let name = "up".to_string();
    let _gauge = collector.register_gauge(name.clone(), region("us"));
    assert!(!collector.can_register(&name, false, MetricType::Gauge));
    assert!(collector.can_register(&name, true, MetricType::Gauge));
}

#[test]
fn second_descriptor_is_refused() {
    let mut collector = Registered::new();
    let name = "requests_total".to_string();
    assert!(!collector.has_descriptor(&name));
    collector.describe(name.clone(), None, "total requests".to_string());
    assert!(collector.has_descriptor(&name));
    assert!(!collector.has_descriptor(&"requests".to_string()));
    let (help, unit) = collector.lookup(&name);
    assert_eq!(help, "total requests");
    assert!(unit.is_none());
}

#[test]
fn lookup_without_descriptor_gives_empty_help() {
    let collector = Registered::new();
    let (help, unit) = collector.lookup(&"missing".to_string());
    assert_eq!(help, "");
    assert!(unit.is_none());
}

#[test]
fn counter_with_help_encodes_descriptor_and_sample() {
    let mut collector = Registered::new();
    let name = "requests_total".to_string();
    collector.describe_counter(name.clone(), None, "total requests".to_string());
    let counter = collector.register_counter(name, Vec::new());
    counter.increment(5);
    let text = exposition(collector);
    assert_eq!(
        text,
        "# HELP requests_total total requests\n# TYPE requests_total counter\nrequests_total_total 5\n# EOF\n"
    );
}

#[test]
fn handle_updates_after_registration_are_visible() {
    let mut collector = Registered::new();
    let counter = collector.register_counter("seen".to_string(), Vec::new());
    counter.increment(1);
    counter.absolute(7);
    let exposed = Exposed(collector);
    let mut registry = Registry::default();
    let handle = std::sync::Arc::clone(&counter);
    registry.register_collector(Box::new(exposed));
    let mut first = String::new();
    prometheus_client::encoding::text::encode(&mut first, &registry).unwrap();
    assert!(first.contains("seen_total 7\n"));
    handle.increment(3);
    let mut second = String::new();
    prometheus_client::encoding::text::encode(&mut second, &registry).unwrap();
    assert!(second.contains("seen_total 10\n"));
}

#[test]
fn gauge_family_encodes_one_line_per_label_set() {
    let mut collector = Registered::new();
    let name = "temp".to_string();
    let us = collector.register_gauge(name.clone(), region("us"));
    let eu = collector.register_gauge(name.clone(), region("eu"));
    us.set(1.5);
    eu.set(2.5);
    let text = exposition(collector);
    assert_eq!(
        text,
        "# HELP temp \n# TYPE temp gauge\ntemp{region=\"us\"} 1.5\ntemp{region=\"eu\"} 2.5\n# EOF\n"
    );
}

#[test]
fn gauge_increment_decrement_set() {
    let mut collector = Registered::new();
    let gauge = collector.register_gauge("level".to_string(), Vec::new());
    gauge.set(10.0);
    gauge.increment(2.5);
    gauge.decrement(4.0);
    let text = exposition(collector);
    assert!(text.contains("level 8.5\n"));
}

#[test]
fn standalone_gauge_starts_at_zero() {
    let gauge: MetricsGauge<f64, AtomicU64> = MetricsGauge::new();
    gauge.increment(0.5);
    let mut collector = Registered::new();
    collector.register("g".to_string(), Vec::new(), Metric::Gauge(std::sync::Arc::new(gauge)));
    assert!(exposition(collector).contains("g 0.5\n"));
}

#[test]
fn histogram_buckets_are_cumulative() {
    let mut collector = Registered::new();
    let histogram = collector.register_histogram(
        "latency".to_string(),
        Vec::new(),
        MetricsHistogram::new(buckets()),
    );
    histogram.as_inner().observe(0.2);
    histogram.as_inner().observe(0.2);
    histogram.as_inner().observe(6.0);
    let text = exposition(collector);
    assert!(text.contains("# TYPE latency histogram\n"));
    assert!(text.contains("latency_sum 6.4\n"));
    assert!(text.contains("latency_count 3\n"));
    assert!(text.contains("latency_bucket{le=\"0.1\"} 0\n"));
    assert!(text.contains("latency_bucket{le=\"0.25\"} 2\n"));
    assert!(text.contains("latency_bucket{le=\"5.0\"} 2\n"));
    assert!(text.contains("latency_bucket{le=\"10.0\"} 3\n"));
    assert!(text.contains("latency_bucket{le=\"+Inf\"} 3\n"));
}

#[test]
fn families_encode_in_first_registration_order() {
    let mut collector = Registered::new();
    let _b = collector.register_counter("b".to_string(), region("x"));
    let _a = collector.register_gauge("a".to_string(), Vec::new());
    let _b2 = collector.register_counter("b".to_string(), region("y"));
    let text = exposition(collector);
    assert_eq!(
        text,
        "# HELP b \n# TYPE b counter\nb_total{region=\"x\"} 0\nb_total{region=\"y\"} 0\n# HELP a \n# TYPE a gauge\na 0.0\n# EOF\n"
    );
}

#[test]
fn duplicate_labels_make_a_second_entry() {
    let mut collector = Registered::new();
    let first = collector.register_counter("dup".to_string(), region("us"));
    let second = collector.register_counter("dup".to_string(), region("us"));
    first.increment(1);
    second.increment(2);
    let text = exposition(collector);
    assert!(text.contains("dup_total{region=\"us\"} 1\ndup_total{region=\"us\"} 2\n"));
}

#[test]
fn descriptor_with_unit_is_encoded() {
    let mut collector = Registered::new();
    collector.describe_gauge("size".to_string(), Some(::metrics::Unit::Bytes), "payload size".to_string());
    collector.describe_histogram(
        "wait".to_string(),
        Some(::metrics::Unit::Seconds),
        "time waited".to_string(),
    );
    let _g = collector.register_gauge("size".to_string(), Vec::new());
    let (help, unit) = collector.lookup(&"wait".to_string());
    assert_eq!(help, "time waited");
    assert_eq!(unit.unwrap().as_str(), "seconds");
    let text = exposition(collector);
    assert!(text.contains("# HELP size_bytes payload size\n"));
    assert!(text.contains("# TYPE size_bytes gauge\n"));
    assert!(text.contains("# UNIT size_bytes bytes\n"));
    assert!(!text.contains("wait"));
}

#[test]
fn labels_keep_order_and_content() {
    let labels = vec![::metrics::Label::new("b", "2"), ::metrics::Label::new("a", "1"), ::metrics::Label::new("b", "3")];
    let converted = convert_labels_to_prometheus(labels);
    assert_eq!(
        converted,
        vec![
            ("b".to_string(), "2".to_string()),
            ("a".to_string(), "1".to_string()),
            ("b".to_string(), "3".to_string()),
        ]
    );
    assert_eq!(convert_labels_to_prometheus(Vec::new()), Vec::new());
}

#[test]
fn units_map_to_their_names() {
    let cases = vec![
        (::metrics::Unit::Count, "count"),
        (::metrics::Unit::Percent, "percent"),
        (::metrics::Unit::Seconds, "seconds"),
        (::metrics::Unit::Milliseconds, "milliseconds"),
        (::metrics::Unit::Microseconds, "microseconds"),
        (::metrics::Unit::Nanoseconds, "nanoseconds"),
        (::metrics::Unit::Tebibytes, "tebibytes"),
        (::metrics::Unit::Gibibytes, "gibibytes"),
        (::metrics::Unit::Mebibytes, "mebibytes"),
        (::metrics::Unit::Kibibytes, "kibibytes"),
        (::metrics::Unit::TerabitsPerSecond, "terabits per second"),
        (::metrics::Unit::GigabitsPerSecond, "gigabits per second"),
        (::metrics::Unit::MegabitsPerSecond, "megabits per second"),
        (::metrics::Unit::KilobitsPerSecond, "kilobits per second"),
        (::metrics::Unit::BitsPerSecond, "bits per second"),
        (::metrics::Unit::CountPerSecond, "count per second"),
    ];
    for (unit, name) in cases {
        match convert_unit_to_prometheus(unit) {
            prometheus_client::registry::Unit::Other(text) => assert_eq!(text, name),
            other => panic!("{:?} became {:?}", unit, other),
        }
    }
    assert!(matches!(convert_unit_to_prometheus(::metrics::Unit::Bytes), prometheus_client::registry::Unit::Bytes));
}

#[test]
fn metric_type_follows_the_variant() {
    let counter: Metric<f64, AtomicU64> = Metric::Counter(std::sync::Arc::new(MetricsCounter::new()));
    let gauge: Metric<f64, AtomicU64> = Metric::Gauge(std::sync::Arc::new(MetricsGauge::new()));
    let histogram: Metric<f64, AtomicU64> =
        Metric::Histogram(std::sync::Arc::new(MetricsHistogram::new(buckets())));
    assert!(matches!(counter.metric_type(), MetricType::Counter));
    assert!(matches!(gauge.metric_type(), MetricType::Gauge));
    assert!(matches!(histogram.metric_type(), MetricType::Histogram));
    assert!(is_same_type(counter.metric_type(), MetricType::Counter));
    assert!(!is_same_type(counter.metric_type(), gauge.metric_type()));
    assert!(!is_same_type(MetricType::Info, MetricType::Unknown));
    assert!(is_same_type(MetricType::Unknown, MetricType::Unknown));
}

#[test]
fn header_reports_what_goes_out_first() {
    let mut collector = Registered::new();
    assert_eq!(collector.family_count(), 0);
    collector.describe_gauge(
        "size".to_string(),
        Some(::metrics::Unit::Bytes),
        "payload size".to_string(),
    );
    let _size = collector.register_gauge("size".to_string(), Vec::new());
    let _jobs = collector.register_counter("jobs".to_string(), region("us"));
    let _more = collector.register_counter("jobs".to_string(), region("eu"));
    assert_eq!(collector.family_count(), 2);

    let first = collector.header(0).unwrap();
    assert_eq!(first.name, "size");
    assert_eq!(first.help, "payload size");
    assert!(matches!(first.unit, Some(prometheus_client::registry::Unit::Bytes)));
    assert!(matches!(first.metric_type, MetricType::Gauge));
    assert!(!first.labelled);

    let second = collector.header(1).unwrap();
    assert_eq!(second.name, "jobs");
    assert_eq!(second.help, "");
    assert!(second.unit.is_none());
    assert!(matches!(second.metric_type, MetricType::Counter));
    assert!(second.labelled);
}

#[test]
fn descriptor_without_entries_writes_nothing() {
    let mut collector = Registered::new();
    collector.describe_counter("idle".to_string(), None, "never registered".to_string());
    assert!(collector.has_descriptor(&"idle".to_string()));
    assert_eq!(collector.family_count(), 0);
    assert_eq!(exposition(collector), "# EOF\n");
}

#[test]
fn descriptor_given_after_registration_is_used() {
    let mut collector = Registered::new();
    let counter = collector.register_counter("late".to_string(), Vec::new());
    collector.describe_counter(
        "late".to_string(),
        Some(::metrics::Unit::Seconds),
        "described late".to_string(),
    );
    collector.describe_counter("other".to_string(), None, "unrelated".to_string());
    counter.increment(2);
    let (help, unit) = collector.lookup(&"late".to_string());
    assert_eq!(help, "described late");
    assert_eq!(unit.unwrap().as_str(), "seconds");
    let text = exposition(collector);
    assert_eq!(
        text,
        "# HELP late_seconds described late\n# TYPE late_seconds counter\n# UNIT late_seconds seconds\nlate_seconds_total 2\n# EOF\n"
    );
}

#[test]
fn labelled_family_plans_every_entry_in_order() {
    let mut collector = Registered::new();
    let first = collector.register_counter("hits".to_string(), vec![::metrics::Label::new("path", "/a")]);
    let second = collector.register_counter("hits".to_string(), vec![::metrics::Label::new("path", "/b")]);
    first.increment(1);
    second.increment(2);
    assert_eq!(collector.samples(0), vec![0, 1]);
    assert_eq!(
        collector.labels_at(0, 0),
        &vec![("path".to_string(), "/a".to_string())]
    );
    assert_eq!(
        collector.labels_at(0, 1),
        &vec![("path".to_string(), "/b".to_string())]
    );
    assert!(matches!(collector.metric(0, 0).metric_type(), MetricType::Counter));
    match collector.metric(0, 1) {
        Metric::Counter(stored) => {
            assert!(std::sync::Arc::ptr_eq(stored, &second));
            assert_eq!(stored.get(), 2);
        }
        other => panic!("a counter was stored, found {:?}", other),
    }
    match collector.metric(0, 0) {
        Metric::Counter(stored) => assert!(std::sync::Arc::ptr_eq(stored, &first)),
        other => panic!("a counter was stored, found {:?}", other),
    }
    let text = exposition(collector);
    assert_eq!(
        text,
        "# HELP hits \n# TYPE hits counter\nhits_total{path=\"/a\"} 1\nhits_total{path=\"/b\"} 2\n# EOF\n"
    );
}

#[test]
fn unlabelled_family_plans_its_one_entry() {
    let mut collector = Registered::new();
    let gauge = collector.register_gauge("level".to_string(), Vec::new());
    assert_eq!(collector.samples(0), vec![0]);
    assert!(collector.labels_at(0, 0).is_empty());
    match collector.metric(0, 0) {
        Metric::Gauge(stored) => assert!(std::sync::Arc::ptr_eq(stored, &gauge)),
        other => panic!("a gauge was stored, found {:?}", other),
    }
}

#[test]
fn stored_histogram_is_the_handle() {
    let mut collector = Registered::new();
    let histogram = collector.register_histogram(
        "latency".to_string(),
        region("us"),
        MetricsHistogram::new(buckets()),
    );
    histogram.as_inner().observe(0.2);
    match collector.metric(0, 0) {
        Metric::Histogram(stored) => {
            assert!(std::sync::Arc::ptr_eq(stored, &histogram));
        }
        other => panic!("a histogram was stored, found {:?}", other),
    }
    assert_eq!(collector.samples(0), vec![0]);
    let text = exposition(collector);
    assert!(text.contains("latency_count{region=\"us\"} 1\n"));
}

#[test]
fn second_pass_shows_the_live_value() {
    let mut collector = Registered::new();
    let counter = collector.register_counter("n".to_string(), Vec::new());
    counter.increment(1);
    let mut registry = Registry::default();
    registry.register_collector(Box::new(Exposed(collector)));
    let mut first = String::new();
    prometheus_client::encoding::text::encode(&mut first, &registry).unwrap();
    assert_eq!(first, "# HELP n \n# TYPE n counter\nn_total 1\n# EOF\n");
    counter.increment(2);
    let mut second = String::new();
    prometheus_client::encoding::text::encode(&mut second, &registry).unwrap();
    assert_eq!(second, "# HELP n \n# TYPE n counter\nn_total 3\n# EOF\n");
}
