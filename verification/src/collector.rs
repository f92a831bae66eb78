//! The registry of metric families and their descriptors.

use vstd::prelude::*;
use std::sync::Arc;
use prometheus_client::encoding::{DescriptorEncoder, EncodeMetric, MetricEncoder};
use prometheus_client::metrics::gauge::Gauge;
use prometheus_client::metrics::MetricType;
use prometheus_client::registry::Unit;
use crate::metrics::{Metric, MetricsCounter, MetricsGauge, MetricsHistogram, is_same_type};
use crate::laws::{
    lemma_describe_keeps_distinct, lemma_described_after_describe, lemma_register_appends,
    lemma_register_keeps_consistency, lemma_register_positions,
};
use crate::utils::{
    convert_labels_to_prometheus, convert_unit_to_prometheus, owned_labels, recorded_labels,
    stands_for_optional,
};

verus! {

/// `prometheus_client::encoding::DescriptorEncoder`: the encoder that a
/// collector is handed for one pass. Nothing of its content is visible.
#[verifier::external_type_specification]
#[verifier::external_body]
pub struct ExDescriptorEncoder<'a>(DescriptorEncoder<'a>);

/// A label as the exposition format takes it: key, then value.
pub type LabelPair = (String, String);

/// What the registry knows of one entry: its labels, in the order given at
/// registration, and the type of its metric.
pub struct EntryView {
    pub labels: Seq<(Seq<char>, Seq<char>)>,
    pub kind: MetricType,
}

/// What the registry knows of one family: its name and its entries in
/// registration order.
pub struct FamilyView {
    pub name: Seq<char>,
    pub entries: Seq<EntryView>,
}

/// The help text and unit attached to a name.
pub struct DescriptorView {
    pub name: Seq<char>,
    pub help: Seq<char>,
    pub unit: Option<Unit>,
}

/// What the descriptor record of one family is made of, and whether its
/// samples go out with labels.
pub struct FamilyHeader<'a> {
    pub name: &'a str,
    pub help: &'a str,
    pub unit: Option<&'a Unit>,
    pub metric_type: MetricType,
    pub labelled: bool,
}

#[derive(Debug)]
struct Descriptor {
    help: String,
    unit: Option<Unit>,
}

#[derive(Debug)]
struct Described {
    name: String,
    descriptor: Descriptor,
}

#[derive(Debug)]
#[verifier::reject_recursive_types(N)]
#[verifier::reject_recursive_types(A)]
struct Entry<N, A> {
    labels: Vec<LabelPair>,
    metric: Metric<N, A>,
}

#[derive(Debug)]
#[verifier::reject_recursive_types(N)]
#[verifier::reject_recursive_types(A)]
struct Family<N, A> {
    name: String,
    entries: Vec<Entry<N, A>>,
}

/// The registry: metric families by name, each an ordered list of labelled
/// metrics, and at most one descriptor per name. Families appear in the order
/// in which their names were first registered.
#[derive(Debug)]
#[verifier::reject_recursive_types(N)]
#[verifier::reject_recursive_types(A)]
pub struct MetricsCollector<N, A> {
    metrics: Vec<Family<N, A>>,
    descriptors: Vec<Described>,
}

/// `i` is the first position at which `name` stands in `names`.
pub open spec fn is_first(names: Seq<Seq<char>>, name: Seq<char>, i: int) -> bool {
    &&& 0 <= i < names.len()
    &&& names[i] == name
    &&& forall|j: int| 0 <= j < i ==> names[j] != name
}

/// The first position of `name` in `names`, if it occurs.
pub open spec fn position(names: Seq<Seq<char>>, name: Seq<char>) -> Option<int> {
    if exists|i: int| is_first(names, name, i) {
        Some(choose|i: int| is_first(names, name, i))
    } else {
        None
    }
}

/// No name occurs twice.
pub open spec fn distinct(names: Seq<Seq<char>>) -> bool {
    forall|i: int, j: int| 0 <= i < j < names.len() ==> names[i] != names[j]
}

/// A family is consistent when it has an entry, all its entries have the type
/// of the first, and either each of them is labelled or there is exactly one.
pub open spec fn consistent(entries: Seq<EntryView>) -> bool {
    &&& entries.len() > 0
    &&& forall|k: int| 0 <= k < entries.len() ==> (#[trigger] entries[k]).kind == entries[0].kind
    &&& (entries.len() == 1 || forall|k: int|
        0 <= k < entries.len() ==> (#[trigger] entries[k]).labels.len() > 0)
}

/// Whether a family with these entries takes one more entry of type `kind`:
/// an empty family takes any; otherwise the first entry must have the same
/// type and labels, and the new entry must have labels too.
pub open spec fn admits(entries: Seq<EntryView>, labelled: bool, kind: MetricType) -> bool {
    entries.len() == 0 || (entries[0].kind == kind && entries[0].labels.len() > 0 && labelled)
}

/// The families after `entry` is registered under `name`: appended to the
/// family of that name where there is one, else a new family at the end.
pub open spec fn with_entry(families: Seq<FamilyView>, name: Seq<char>, entry: EntryView) -> Seq<
    FamilyView,
> {
    match position(names_of(families), name) {
        Some(i) => families.update(
            i,
            FamilyView { name: name, entries: families[i].entries.push(entry) },
        ),
        None => families.push(FamilyView { name: name, entries: seq![entry] }),
    }
}

/// The names of the families, in order.
pub open spec fn names_of(families: Seq<FamilyView>) -> Seq<Seq<char>> {
    Seq::new(families.len(), |i: int| families[i].name)
}

/// The names that have a descriptor, in order.
pub open spec fn described_names(descriptors: Seq<DescriptorView>) -> Seq<Seq<char>> {
    Seq::new(descriptors.len(), |i: int| descriptors[i].name)
}

/// The entries registered under `name`: none where the name is unknown.
pub open spec fn entries_under(families: Seq<FamilyView>, name: Seq<char>) -> Seq<EntryView> {
    match position(names_of(families), name) {
        Some(i) => families[i].entries,
        None => Seq::empty(),
    }
}

/// The entries of a family whose samples go out, by their positions and in
/// the order in which they go out: none of an empty family; every entry, in
/// registration order, where the first has labels; else the first alone.
pub open spec fn sample_plan(entries: Seq<EntryView>) -> Seq<int> {
    if entries.len() == 0 {
        Seq::empty()
    } else if entries[0].labels.len() > 0 {
        Seq::new(entries.len(), |k: int| k)
    } else {
        seq![0int]
    }
}

/// The help text that goes out for `name`: empty where it has no descriptor.
pub open spec fn help_for(descriptors: Seq<DescriptorView>, name: Seq<char>) -> Seq<char> {
    match position(described_names(descriptors), name) {
        Some(i) => descriptors[i].help,
        None => Seq::empty(),
    }
}

/// The unit that goes out for `name`: none where it has no descriptor.
pub open spec fn unit_for(descriptors: Seq<DescriptorView>, name: Seq<char>) -> Option<Unit> {
    match position(described_names(descriptors), name) {
        Some(i) => descriptors[i].unit,
        None => None,
    }
}

/// The position found by a scan that met `name` first at `i`.
pub proof fn lemma_position_found(names: Seq<Seq<char>>, name: Seq<char>, i: int)
    requires
        is_first(names, name, i),
    ensures
        position(names, name) == Some(i),
{
    let c = choose|c: int| is_first(names, name, c);
    assert(is_first(names, name, c));
    if c < i {
        assert(names[c] == name);
    } else if i < c {
        assert(names[i] == name);
    }
}

/// A name that stands nowhere has no position.
pub proof fn lemma_position_absent(names: Seq<Seq<char>>, name: Seq<char>)
    requires
        forall|j: int| 0 <= j < names.len() ==> names[j] != name,
    ensures
        position(names, name) is None,
{
    if exists|i: int| is_first(names, name, i) {
        let c = choose|c: int| is_first(names, name, c);
        assert(names[c] == name);
    }
}

impl Descriptor {
    fn new(help: String, unit: Option<::metrics::Unit>) -> (descriptor: Self)
        ensures
            descriptor.help@ == help@,
            stands_for_optional(unit, descriptor.unit),
    {
        let unit = match unit {
            Some(u) => Some(convert_unit_to_prometheus(u)),
            None => None,
        };
        Descriptor { help, unit }
    }
}

impl Described {
    spec fn view(&self) -> DescriptorView {
        DescriptorView {
            name: self.name@,
            help: self.descriptor.help@,
            unit: self.descriptor.unit,
        }
    }
}

impl<N, A> Entry<N, A> {
    spec fn view(&self) -> EntryView {
        EntryView { labels: owned_labels(self.labels@), kind: self.metric.kind() }
    }
}

impl<N, A> Family<N, A> {
    spec fn view(&self) -> FamilyView {
        FamilyView {
            name: self.name@,
            entries: Seq::new(self.entries@.len(), |k: int| self.entries@[k].view()),
        }
    }
}

/// Whether a sample encoder already carries the labels of a family entry.
pub uninterp spec fn carries_labels(encoder: MetricEncoder<'_>) -> bool;

/// `DescriptorEncoder::encode_descriptor`: writes the descriptor record of one
/// family (its name, help text, unit and type) and hands back the encoder for
/// the family's samples, which carries no labels yet. It fails only when the
/// sink behind `encoder` does.
#[verifier::external_body]
fn encode_descriptor<'s>(
    encoder: &'s mut DescriptorEncoder<'_>,
    name: &'s str,
    help: &str,
    unit: Option<&'s Unit>,
    metric_type: MetricType,
) -> (r: Result<MetricEncoder<'s>, std::fmt::Error>)
    ensures
        r is Ok ==> !carries_labels(r->Ok_0),
{
    encoder.encode_descriptor(name, help, unit, metric_type)
}

/// `MetricEncoder::encode_family`: hands back an encoder whose samples carry
/// `labels`, and leaves `encoder` itself without labels. The call is only for
/// an encoder that carries none. It fails only when the sink behind `encoder`
/// does.
#[verifier::external_body]
fn encode_family<'s>(encoder: &'s mut MetricEncoder<'_>, labels: &'s Vec<LabelPair>) -> (r: Result<
    MetricEncoder<'s>,
    std::fmt::Error,
>)
    requires
        !carries_labels(*old(encoder)),
    ensures
        !carries_labels(*final(encoder)),
{
    encoder.encode_family(labels)
}

impl<N, A> MetricsCollector<N, A> {
    /// The families, in the order in which their names were first registered.
    pub closed spec fn families(&self) -> Seq<FamilyView> {
        Seq::new(self.metrics@.len(), |i: int| self.metrics@[i].view())
    }

    /// The descriptors, in the order in which they were given.
    pub closed spec fn descriptors(&self) -> Seq<DescriptorView> {
        Seq::new(self.descriptors@.len(), |i: int| self.descriptors@[i].view())
    }

    /// The entries registered under `name`, in registration order.
    pub open spec fn entries_of(&self, name: Seq<char>) -> Seq<EntryView> {
        entries_under(self.families(), name)
    }

    /// The metrics that the registry holds, one sequence per family and one
    /// metric per entry, in the order of `families`.
    pub closed spec fn stored(&self) -> Seq<Seq<Metric<N, A>>> {
        Seq::new(
            self.metrics@.len(),
            |i: int|
                Seq::new(
                    self.metrics@[i].entries@.len(),
                    |k: int| self.metrics@[i].entries@[k].metric,
                ),
        )
    }

    /// The metric held by entry `entry` of family `family`.
    pub open spec fn metric_at(&self, family: int, entry: int) -> Metric<N, A> {
        self.stored()[family][entry]
    }

    /// The metrics registered under `name`, in registration order.
    pub open spec fn metrics_of(&self, name: Seq<char>) -> Seq<Metric<N, A>> {
        match position(names_of(self.families()), name) {
            Some(i) => self.stored()[i],
            None => Seq::empty(),
        }
    }

    /// The stored metrics line up with the entries: one per entry, each of
    /// the type that the entry shows.
    pub proof fn lemma_stored_matches_entries(&self)
        ensures
            self.stored().len() == self.families().len(),
            forall|i: int|
                0 <= i < self.families().len() ==> (#[trigger] self.stored()[i]).len()
                    == self.families()[i].entries.len(),
            forall|i: int, k: int|
                0 <= i < self.families().len() && 0 <= k < self.families()[i].entries.len()
                    ==> (#[trigger] self.stored()[i][k]).kind()
                    == self.families()[i].entries[k].kind,
            forall|name: Seq<char>| #[trigger]
                self.metrics_of(name).len() == self.entries_of(name).len(),
    {
        assert forall|name: Seq<char>| #[trigger]
            self.metrics_of(name).len() == self.entries_of(name).len() by {
            match position(names_of(self.families()), name) {
                Some(i) => {
                    assert(is_first(names_of(self.families()), name, i));
                },
                None => {},
            }
        }
    }

    /// Whether `name` has a descriptor.
    pub open spec fn is_described(&self, name: Seq<char>) -> bool {
        position(described_names(self.descriptors()), name) is Some
    }

    /// Whether one more entry of type `kind` may be registered under `name`.
    pub open spec fn accepts(&self, name: Seq<char>, labelled: bool, kind: MetricType) -> bool {
        admits(self.entries_of(name), labelled, kind)
    }

    /// The registry's invariant: family names are distinct, every family is
    /// consistent, and no name has two descriptors.
    pub open spec fn wf(&self) -> bool {
        &&& distinct(names_of(self.families()))
        &&& forall|i: int|
            0 <= i < self.families().len() ==> consistent((#[trigger] self.families()[i]).entries)
        &&& distinct(described_names(self.descriptors()))
    }

    /// An empty registry.
    pub fn new() -> (collector: Self)
        ensures
            collector.wf(),
            collector.families() == Seq::<FamilyView>::empty(),
            collector.descriptors() == Seq::<DescriptorView>::empty(),
    {
        let collector = MetricsCollector { metrics: Vec::new(), descriptors: Vec::new() };
        assert(collector.families() =~= Seq::<FamilyView>::empty());
        assert(collector.descriptors() =~= Seq::<DescriptorView>::empty());
        collector
    }

    fn find_family(&self, name: &String) -> (found: Option<usize>)
        ensures
            match found {
                Some(i) => position(names_of(self.families()), name@) == Some(i as int) && i
                    < self.metrics@.len(),
                None => position(names_of(self.families()), name@) is None,
            },
    {
        let ghost names = names_of(self.families());
        let mut i: usize = 0;
        while i < self.metrics.len()
            invariant
                i <= self.metrics@.len(),
                names == names_of(self.families()),
                names.len() == self.metrics@.len(),
                forall|j: int| 0 <= j < i ==> names[j] != name@,
            decreases self.metrics@.len() - i,
        {
            if self.metrics[i].name == *name {
                proof {
                    assert(names[i as int] == name@);
                    lemma_position_found(names, name@, i as int);
                }
                return Some(i);
            }
            i += 1;
        }
        proof {
            lemma_position_absent(names, name@);
        }
        None
    }

    fn find_descriptor(&self, name: &String) -> (found: Option<usize>)
        ensures
            match found {
                Some(i) => position(described_names(self.descriptors()), name@) == Some(i as int)
                    && i < self.descriptors@.len(),
                None => position(described_names(self.descriptors()), name@) is None,
            },
    {
        let ghost names = described_names(self.descriptors());
        let mut i: usize = 0;
        while i < self.descriptors.len()
            invariant
                i <= self.descriptors@.len(),
                names == described_names(self.descriptors()),
                names.len() == self.descriptors@.len(),
                forall|j: int| 0 <= j < i ==> names[j] != name@,
            decreases self.descriptors@.len() - i,
        {
            if self.descriptors[i].name == *name {
                proof {
                    assert(names[i as int] == name@);
                    lemma_position_found(names, name@, i as int);
                }
                return Some(i);
            }
            i += 1;
        }
        proof {
            lemma_position_absent(names, name@);
        }
        None
    }

    /// Whether `name` already has a descriptor.
    pub fn has_descriptor(&self, name: &String) -> (described: bool)
        ensures
            described == self.is_described(name@),
    {
        self.find_descriptor(name).is_some()
    }

    /// The help text and unit that go out for `name`: those of its
    /// descriptor, or an empty text and no unit where it has none.
    pub fn lookup(&self, name: &String) -> (found: (&str, Option<&Unit>))
        ensures
            found.0@ == help_for(self.descriptors(), name@),
            match found.1 {
                Some(unit) => unit_for(self.descriptors(), name@) == Some(*unit),
                None => unit_for(self.descriptors(), name@) is None,
            },
    {
        match self.find_descriptor(name) {
            Some(i) => {
                let described = &self.descriptors[i];
                (described.descriptor.help.as_str(), described.descriptor.unit.as_ref())
            },
            None => {
                proof {
                    reveal_strlit("");
                    assert(""@ =~= Seq::<char>::empty());
                }
                ("", None)
            },
        }
    }

    /// Whether one more metric of type `kind`, with or without labels, may be
    /// registered under `name`.
    pub fn can_register(&self, name: &String, labelled: bool, kind: MetricType) -> (ok: bool)
        ensures
            ok == self.accepts(name@, labelled, kind),
    {
        match self.find_family(name) {
            Some(i) => {
                let family = &self.metrics[i];
                assert(self.families()[i as int].entries.len() == family.entries@.len());
                if family.entries.len() == 0 {
                    true
                } else {
                    assert(self.families()[i as int].entries[0] == family.entries@[0].view());
                    is_same_type(family.entries[0].metric.metric_type(), kind)
                        && family.entries[0].labels.len() > 0 && labelled
                }
            },
            None => true,
        }
    }

    /// Stores `metric` under `name` with `labels`, behind whatever the name
    /// already holds. Nothing is merged or replaced: a second registration of
    /// the same name and labels makes a second entry.
    pub fn register(&mut self, name: String, labels: Vec<::metrics::Label>, metric: Metric<N, A>)
        requires
            old(self).wf(),
            old(self).accepts(name@, labels@.len() > 0, metric.kind()),
        ensures
            final(self).wf(),
            final(self).descriptors() == old(self).descriptors(),
            final(self).families() == with_entry(
                old(self).families(),
                name@,
                (EntryView { labels: recorded_labels(labels@), kind: metric.kind() }),
            ),
            final(self).entries_of(name@) == old(self).entries_of(name@).push(
                (EntryView { labels: recorded_labels(labels@), kind: metric.kind() }),
            ),
            forall|other: Seq<char>|
                other != name@ ==> final(self).entries_of(other) == #[trigger] old(
                    self,
                ).entries_of(other),
            final(self).metrics_of(name@) == old(self).metrics_of(name@).push(metric),
            forall|other: Seq<char>|
                other != name@ ==> final(self).metrics_of(other) == #[trigger] old(
                    self,
                ).metrics_of(other),
    {
        let ghost before = self.families();
        let ghost held = self.stored();
        let ghost given = metric;
        let ghost added = EntryView { labels: recorded_labels(labels@), kind: metric.kind() };
        proof {
            lemma_register_appends(before, name@, added);
            lemma_register_keeps_consistency(before, name@, added);
            lemma_register_positions(before, name@, added);
        }
        let labels = convert_labels_to_prometheus(labels);
        let entry = Entry { labels, metric };
        assert(entry.view() == added);
        match self.find_family(&name) {
            Some(i) => {
                let mut family = self.metrics.remove(i);
                assert(family.view() == before[i as int]);
                family.entries.push(entry);
                assert(family.view().entries =~= before[i as int].entries.push(added));
                self.metrics.insert(i, family);
                assert(self.stored() =~~= held.update(i as int, held[i as int].push(given)));
            },
            None => {
                let mut entries: Vec<Entry<N, A>> = Vec::new();
                entries.push(entry);
                let family = Family { name, entries };
                assert(family.view().entries =~= seq![added]);
                self.metrics.push(family);
                assert(self.stored() =~~= held.push(seq![given]));
                assert(Seq::<Metric<N, A>>::empty().push(given) =~= seq![given]);
            },
        }
        assert(self.families() =~= with_entry(before, name@, added));
    }

    /// Attaches a help text and a unit to `name`, once.
    pub fn describe(&mut self, name: String, unit: Option<::metrics::Unit>, description: String)
        requires
            old(self).wf(),
            !old(self).is_described(name@),
        ensures
            final(self).wf(),
            final(self).families() == old(self).families(),
            final(self).stored() == old(self).stored(),
            final(self).descriptors().len() == old(self).descriptors().len() + 1,
            final(self).descriptors().drop_last() == old(self).descriptors(),
            final(self).descriptors().last().name == name@,
            final(self).descriptors().last().help == description@,
            stands_for_optional(unit, final(self).descriptors().last().unit),
            final(self).is_described(name@),
    {
        let ghost before = self.descriptors();
        let descriptor = Descriptor::new(description, unit);
        self.descriptors.push(Described { name, descriptor });
        assert(self.descriptors().drop_last() =~= before);
        proof {
            let given = self.descriptors().last();
            assert(self.descriptors() =~= before.push(given));
            lemma_describe_keeps_distinct(before, given);
            lemma_described_after_describe(before, given);
        }
    }

    /// Attaches a help text and a unit to the counter family `name`.
    pub fn describe_counter(
        &mut self,
        name: String,
        unit: Option<::metrics::Unit>,
        description: String,
    )
        requires
            old(self).wf(),
            !old(self).is_described(name@),
        ensures
            final(self).wf(),
            final(self).families() == old(self).families(),
            final(self).stored() == old(self).stored(),
            final(self).descriptors().drop_last() == old(self).descriptors(),
            final(self).descriptors().len() == old(self).descriptors().len() + 1,
            final(self).descriptors().last().name == name@,
            final(self).descriptors().last().help == description@,
            stands_for_optional(unit, final(self).descriptors().last().unit),
            final(self).is_described(name@),
    {
        self.describe(name, unit, description)
    }

    /// Attaches a help text and a unit to the gauge family `name`.
    pub fn describe_gauge(
        &mut self,
        name: String,
        unit: Option<::metrics::Unit>,
        description: String,
    )
        requires
            old(self).wf(),
            !old(self).is_described(name@),
        ensures
            final(self).wf(),
            final(self).families() == old(self).families(),
            final(self).stored() == old(self).stored(),
            final(self).descriptors().drop_last() == old(self).descriptors(),
            final(self).descriptors().len() == old(self).descriptors().len() + 1,
            final(self).descriptors().last().name == name@,
            final(self).descriptors().last().help == description@,
            stands_for_optional(unit, final(self).descriptors().last().unit),
            final(self).is_described(name@),
    {
        self.describe(name, unit, description)
    }

    /// Attaches a help text and a unit to the histogram family `name`.
    pub fn describe_histogram(
        &mut self,
        name: String,
        unit: Option<::metrics::Unit>,
        description: String,
    )
        requires
            old(self).wf(),
            !old(self).is_described(name@),
        ensures
            final(self).wf(),
            final(self).families() == old(self).families(),
            final(self).stored() == old(self).stored(),
            final(self).descriptors().drop_last() == old(self).descriptors(),
            final(self).descriptors().len() == old(self).descriptors().len() + 1,
            final(self).descriptors().last().name == name@,
            final(self).descriptors().last().help == description@,
            stands_for_optional(unit, final(self).descriptors().last().unit),
            final(self).is_described(name@),
    {
        self.describe(name, unit, description)
    }

    /// Registers a fresh counter under `name` with `labels` and returns the
    /// handle that shares its value with the registry.
    pub fn register_counter(&mut self, name: String, labels: Vec<::metrics::Label>) -> (counter:
        Arc<MetricsCounter>)
        requires
            old(self).wf(),
            old(self).accepts(name@, labels@.len() > 0, MetricType::Counter),
        ensures
            final(self).wf(),
            final(self).descriptors() == old(self).descriptors(),
            final(self).families() == with_entry(
                old(self).families(),
                name@,
                (EntryView { labels: recorded_labels(labels@), kind: MetricType::Counter }),
            ),
            final(self).entries_of(name@) == old(self).entries_of(name@).push(
                (EntryView { labels: recorded_labels(labels@), kind: MetricType::Counter }),
            ),
            final(self).metrics_of(name@) == old(self).metrics_of(name@).push(
                Metric::Counter(counter),
            ),
            forall|other: Seq<char>|
                other != name@ ==> final(self).metrics_of(other) == #[trigger] old(
                    self,
                ).metrics_of(other),
    {
        let counter = Arc::new(MetricsCounter::new());
        self.register(name, labels, Metric::Counter(Arc::clone(&counter)));
        counter
    }

    /// Registers a fresh gauge under `name` with `labels` and returns the
    /// handle that shares its value with the registry.
    pub fn register_gauge(&mut self, name: String, labels: Vec<::metrics::Label>) -> (gauge: Arc<
        MetricsGauge<N, A>,
    >) where A: Default
        requires
            old(self).wf(),
            old(self).accepts(name@, labels@.len() > 0, MetricType::Gauge),
        ensures
            final(self).wf(),
            final(self).descriptors() == old(self).descriptors(),
            final(self).families() == with_entry(
                old(self).families(),
                name@,
                (EntryView { labels: recorded_labels(labels@), kind: MetricType::Gauge }),
            ),
            final(self).entries_of(name@) == old(self).entries_of(name@).push(
                (EntryView { labels: recorded_labels(labels@), kind: MetricType::Gauge }),
            ),
            final(self).metrics_of(name@) == old(self).metrics_of(name@).push(
                Metric::Gauge(gauge),
            ),
            forall|other: Seq<char>|
                other != name@ ==> final(self).metrics_of(other) == #[trigger] old(
                    self,
                ).metrics_of(other),
    {
        let gauge = Arc::new(MetricsGauge::new());
        self.register(name, labels, Metric::Gauge(Arc::clone(&gauge)));
        gauge
    }

    /// Registers `histogram` under `name` with `labels` and returns the
    /// handle that shares its state with the registry.
    pub fn register_histogram(
        &mut self,
        name: String,
        labels: Vec<::metrics::Label>,
        histogram: MetricsHistogram,
    ) -> (shared: Arc<MetricsHistogram>)
        requires
            old(self).wf(),
            old(self).accepts(name@, labels@.len() > 0, MetricType::Histogram),
        ensures
            *shared == histogram,
            final(self).wf(),
            final(self).descriptors() == old(self).descriptors(),
            final(self).families() == with_entry(
                old(self).families(),
                name@,
                (EntryView { labels: recorded_labels(labels@), kind: MetricType::Histogram }),
            ),
            final(self).entries_of(name@) == old(self).entries_of(name@).push(
                (EntryView { labels: recorded_labels(labels@), kind: MetricType::Histogram }),
            ),
            final(self).metrics_of(name@) == old(self).metrics_of(name@).push(
                Metric::Histogram(shared),
            ),
            forall|other: Seq<char>|
                other != name@ ==> final(self).metrics_of(other) == #[trigger] old(
                    self,
                ).metrics_of(other),
    {
        let shared = Arc::new(histogram);
        self.register(name, labels, Metric::Histogram(Arc::clone(&shared)));
        shared
    }

    /// The number of families.
    pub fn family_count(&self) -> (count: usize)
        ensures
            count == self.families().len(),
    {
        self.metrics.len()
    }

    /// What goes out first for the family at `index`: nothing where the
    /// family has no entry; else its name, the help text and unit that
    /// `lookup` gives for the name, the type of its first entry, and whether
    /// that entry has labels.
    pub fn header(&self, index: usize) -> (header: Option<FamilyHeader<'_>>)
        requires
            index < self.families().len(),
        ensures
            header is None <==> self.families()[index as int].entries.len() == 0,
            match header {
                Some(h) => {
                    let family = self.families()[index as int];
                    &&& h.name@ == family.name
                    &&& h.help@ == help_for(self.descriptors(), family.name)
                    &&& match h.unit {
                        Some(unit) => unit_for(self.descriptors(), family.name) == Some(*unit),
                        None => unit_for(self.descriptors(), family.name) is None,
                    }
                    &&& h.metric_type == family.entries[0].kind
                    &&& h.labelled == (family.entries[0].labels.len() > 0)
                },
                None => true,
            },
    {
        let family = &self.metrics[index];
        let (help, unit) = self.lookup(&family.name);
        assert(self.families()[index as int].entries.len() == family.entries@.len());
        if family.entries.len() == 0 {
            None
        } else {
            assert(self.families()[index as int].entries[0] == family.entries@[0].view());
            Some(
                FamilyHeader {
                    name: family.name.as_str(),
                    help,
                    unit,
                    metric_type: family.entries[0].metric.metric_type(),
                    labelled: family.entries[0].labels.len() > 0,
                },
            )
        }
    }

    /// The entries of the family at `index` whose samples go out, by their
    /// positions and in the order in which they go out.
    pub fn samples(&self, index: usize) -> (plan: Vec<usize>)
        requires
            index < self.families().len(),
        ensures
            plan@.len() == sample_plan(self.families()[index as int].entries).len(),
            forall|k: int|
                0 <= k < plan@.len() ==> plan@[k] as int == sample_plan(
                    self.families()[index as int].entries,
                )[k],
    {
        let family = &self.metrics[index];
        let ghost entries = self.families()[index as int].entries;
        assert(entries.len() == family.entries@.len());
        let mut plan: Vec<usize> = Vec::new();
        if family.entries.len() > 0 {
            assert(entries[0] == family.entries@[0].view());
            if family.entries[0].labels.len() > 0 {
                let mut k: usize = 0;
                while k < family.entries.len()
                    invariant
                        k <= family.entries@.len(),
                        plan@.len() == k,
                        forall|j: int| 0 <= j < k ==> plan@[j] as int == j,
                    decreases family.entries@.len() - k,
                {
                    plan.push(k);
                    k += 1;
                }
            } else {
                plan.push(0);
            }
        }
        plan
    }

    /// The labels of entry `entry` of the family at `index`, as they are
    /// handed to the encoder.
    pub fn labels_at(&self, index: usize, entry: usize) -> (labels: &Vec<LabelPair>)
        requires
            index < self.families().len(),
            entry < self.families()[index as int].entries.len(),
        ensures
            owned_labels(labels@) == self.families()[index as int].entries[entry as int].labels,
    {
        let family = &self.metrics[index];
        assert(self.families()[index as int].entries.len() == family.entries@.len());
        assert(self.families()[index as int].entries[entry as int]
            == family.entries@[entry as int].view());
        &family.entries[entry].labels
    }

    /// The metric of entry `entry` of the family at `index`: the one that was
    /// registered, and so the one behind the handle given out for it.
    pub fn metric(&self, index: usize, entry: usize) -> (metric: &Metric<N, A>)
        requires
            index < self.families().len(),
            entry < self.families()[index as int].entries.len(),
        ensures
            *metric == self.metric_at(index as int, entry as int),
            metric.kind() == self.families()[index as int].entries[entry as int].kind,
    {
        let family = &self.metrics[index];
        assert(self.families()[index as int].entries.len() == family.entries@.len());
        assert(self.families()[index as int].entries[entry as int]
            == family.entries@[entry as int].view());
        &family.entries[entry].metric
    }

    /// Writes every family through `encoder`, in the order of `families`: for
    /// each family of which `header` gives one, one descriptor record made of
    /// that header; then the samples of the entries that `samples` lists, in
    /// that order, each written by the metric that `metric` gives. Where the
    /// header says so, each sample is tagged with the labels that
    /// `labels_at` gives for its entry. The
    /// first failure of the sink ends the pass and is returned unchanged. A
    /// registry in which no family has an entry writes nothing and succeeds,
    /// whatever the sink; a failure therefore shows that some family has one.
    pub fn encode(&self, encoder: DescriptorEncoder<'_>) -> (r: Result<(), std::fmt::Error>) where
        Gauge<N, A>: EncodeMetric,

        ensures
            (forall|i: int|
                0 <= i < self.families().len() ==> (#[trigger] self.families()[i]).entries.len()
                    == 0) ==> r is Ok,
    {
        let mut encoder = encoder;
        let mut i: usize = 0;
        while i < self.metrics.len()
            invariant
                i <= self.metrics@.len(),
                self.metrics@.len() == self.families().len(),
            decreases self.metrics@.len() - i,
        {
            if let Some(header) = self.header(i) {
                let ghost entries = self.families()[i as int].entries;
                let mut descriptor_encoder = match encode_descriptor(
                    &mut encoder,
                    header.name,
                    header.help,
                    header.unit,
                    header.metric_type,
                ) {
                    Ok(descriptor_encoder) => descriptor_encoder,
                    Err(e) => {
                        return Err(e);
                    },
                };
                let plan = self.samples(i);
                if header.labelled {
                    let mut k: usize = 0;
                    while k < plan.len()
                        invariant
                            k <= plan@.len(),
                            i < self.families().len(),
                            entries == self.families()[i as int].entries,
                            entries.len() > 0,
                            plan@.len() == entries.len(),
                            forall|j: int| 0 <= j < plan@.len() ==> plan@[j] as int == j,
                            !carries_labels(descriptor_encoder),
                        decreases plan@.len() - k,
                    {
                        let at = plan[k];
                        let metric_encoder = match encode_family(
                            &mut descriptor_encoder,
                            self.labels_at(i, at),
                        ) {
                            Ok(metric_encoder) => metric_encoder,
                            Err(e) => {
                                return Err(e);
                            },
                        };
                        match self.metric(i, at).encode(metric_encoder) {
                            Ok(()) => {},
                            Err(e) => {
                                return Err(e);
                            },
                        }
                        k += 1;
                    }
                } else {
                    match self.metric(i, plan[0]).encode(descriptor_encoder) {
                        Ok(()) => {},
                        Err(e) => {
                            return Err(e);
                        },
                    }
                }
            }
            i += 1;
        }
        Ok(())
    }
}

/// A name that stands somewhere has a position.
pub proof fn lemma_position_exists(names: Seq<Seq<char>>, name: Seq<char>, at: int)
    requires
        0 <= at < names.len(),
        names[at] == name,
    ensures
        position(names, name) is Some,
        is_first(names, name, position(names, name)->0),
    decreases at,
{
    if forall|j: int| 0 <= j < at ==> names[j] != name {
        assert(is_first(names, name, at));
    } else {
        let j = choose|j: int| 0 <= j < at && names[j] == name;
        lemma_position_exists(names, name, j);
    }
}

} // verus!

verus! {

impl<N, A> Default for MetricsCollector<N, A> {
    fn default() -> (collector: Self)
        ensures
            collector.wf(),
            collector.families() == Seq::<FamilyView>::empty(),
            collector.descriptors() == Seq::<DescriptorView>::empty(),
    {
        MetricsCollector::new()
    }
}

} // verus!
