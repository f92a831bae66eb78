//! Laws of registration, stated over the registry's model.

use vstd::prelude::*;
use prometheus_client::metrics::MetricType;
use crate::collector::{
    DescriptorView, EntryView, FamilyView, admits, consistent, described_names, distinct,
    entries_under, help_for, is_first, lemma_position_exists, lemma_position_found, names_of,
    position, sample_plan, unit_for, with_entry,
};

verus! {

/// Registering an entry under `name` appends it to the entries of that name,
/// leaves the entries of every other name as they were, and keeps the family
/// names distinct.
pub proof fn lemma_register_appends(families: Seq<FamilyView>, name: Seq<char>, entry: EntryView)
    requires
        distinct(names_of(families)),
    ensures
        distinct(names_of(with_entry(families, name, entry))),
        entries_under(with_entry(families, name, entry), name) == entries_under(
            families,
            name,
        ).push(entry),
        forall|other: Seq<char>|
            other != name ==> entries_under(with_entry(families, name, entry), other)
                == #[trigger] entries_under(families, other),
{
    let after = with_entry(families, name, entry);
    let names = names_of(families);
    let names_after = names_of(after);
    match position(names, name) {
        Some(i) => {
            assert(is_first(names, name, i));
            assert(names_after =~= names);
            assert(entries_under(after, name) == entries_under(families, name).push(entry));
            assert forall|other: Seq<char>| other != name implies entries_under(after, other)
                == #[trigger] entries_under(families, other) by {
                match position(names, other) {
                    Some(j) => {
                        assert(is_first(names, other, j));
                        assert(j != i);
                    },
                    None => {},
                }
            }
        },
        None => {
            assert(names_after =~= names.push(name));
            assert(entries_under(families, name) =~= Seq::<EntryView>::empty());
            assert(is_first(names_after, name, names.len() as int)) by {
                assert forall|j: int| 0 <= j < names.len() implies names_after[j] != name by {
                    if names[j] == name {
                        lemma_position_exists(names, name, j);
                    }
                }
            }
            lemma_position_found(names_after, name, names.len() as int);
            assert(entries_under(after, name) =~= seq![entry]);
            assert(Seq::<EntryView>::empty().push(entry) =~= seq![entry]);
            assert(distinct(names_after)) by {
                assert forall|a: int, b: int| 0 <= a < b < names_after.len() implies names_after[a]
                    != names_after[b] by {
                    if b == names.len() {
                        if names[a] == name {
                            lemma_position_exists(names, name, a);
                        }
                    } else {
                        assert(names[a] != names[b]);
                    }
                }
            }
            assert forall|other: Seq<char>| other != name implies entries_under(after, other)
                == #[trigger] entries_under(families, other) by {
                match position(names, other) {
                    Some(j) => {
                        assert(is_first(names, other, j));
                        assert(is_first(names_after, other, j));
                        lemma_position_found(names_after, other, j);
                    },
                    None => {
                        if position(names_after, other) is Some {
                            let j = position(names_after, other)->0;
                            assert(is_first(names_after, other, j));
                            assert(j < names.len());
                            assert(names[j] == other);
                            lemma_position_exists(names, other, j);
                        }
                    },
                }
            }
        },
    }
}

/// A consistent family that holds an entry of one type refuses a metric of
/// any other type, labelled or not.
pub proof fn lemma_family_keeps_its_type(
    entries: Seq<EntryView>,
    k: int,
    labelled: bool,
    kind: MetricType,
)
    requires
        consistent(entries),
        0 <= k < entries.len(),
        kind != entries[k].kind,
    ensures
        !admits(entries, labelled, kind),
{
}

/// Once an entry is registered under a name, a metric of another type is
/// refused under that name, labelled or not.
pub proof fn lemma_other_type_refused(
    families: Seq<FamilyView>,
    name: Seq<char>,
    entry: EntryView,
    labelled: bool,
    kind: MetricType,
)
    requires
        distinct(names_of(families)),
        admits(entries_under(families, name), entry.labels.len() > 0, entry.kind),
        kind != entry.kind,
    ensures
        !admits(entries_under(with_entry(families, name, entry), name), labelled, kind),
{
    lemma_register_appends(families, name, entry);
}

/// A labelled entry leaves its name open to further labelled entries of the
/// same type, and both then stand under the name in registration order.
pub proof fn lemma_labelled_family_grows(
    families: Seq<FamilyView>,
    name: Seq<char>,
    first: EntryView,
    second: EntryView,
)
    requires
        distinct(names_of(families)),
        admits(entries_under(families, name), first.labels.len() > 0, first.kind),
        first.labels.len() > 0,
        second.labels.len() > 0,
        second.kind == first.kind,
    ensures
        admits(entries_under(with_entry(families, name, first), name), true, second.kind),
        entries_under(with_entry(with_entry(families, name, first), name, second), name)
            == entries_under(families, name).push(first).push(second),
{
    lemma_register_appends(families, name, first);
    lemma_register_appends(with_entry(families, name, first), name, second);
}

/// After an unlabelled entry nothing more is accepted under its name,
/// whatever its type and whether it has labels.
pub proof fn lemma_unlabelled_is_alone(
    families: Seq<FamilyView>,
    name: Seq<char>,
    entry: EntryView,
    labelled: bool,
    kind: MetricType,
)
    requires
        distinct(names_of(families)),
        admits(entries_under(families, name), entry.labels.len() > 0, entry.kind),
        entry.labels.len() == 0,
    ensures
        entries_under(with_entry(families, name, entry), name) == seq![entry],
        !admits(entries_under(with_entry(families, name, entry), name), labelled, kind),
{
    lemma_register_appends(families, name, entry);
    assert(entries_under(families, name).len() == 0);
    assert(entries_under(families, name).push(entry) =~= seq![entry]);
}

/// An accepted registration keeps every family consistent: one type per
/// name, and labels on all entries of a name that has more than one.
pub proof fn lemma_register_keeps_consistency(
    families: Seq<FamilyView>,
    name: Seq<char>,
    entry: EntryView,
)
    requires
        distinct(names_of(families)),
        forall|i: int| 0 <= i < families.len() ==> consistent((#[trigger] families[i]).entries),
        admits(entries_under(families, name), entry.labels.len() > 0, entry.kind),
    ensures
        forall|i: int|
            0 <= i < with_entry(families, name, entry).len() ==> consistent(
                (#[trigger] with_entry(families, name, entry)[i]).entries,
            ),
{
    let after = with_entry(families, name, entry);
    match position(names_of(families), name) {
        Some(p) => {
            assert(consistent(families[p].entries));
            let grown = after[p].entries;
            assert(grown == families[p].entries.push(entry));
            assert(grown[0] == families[p].entries[0]);
            assert forall|k: int| 0 <= k < grown.len() implies (#[trigger] grown[k]).kind
                == grown[0].kind && grown[k].labels.len() > 0 by {
                if k < families[p].entries.len() {
                    assert(grown[k] == families[p].entries[k]);
                }
            }
            assert forall|i: int| 0 <= i < after.len() implies consistent(
                (#[trigger] after[i]).entries,
            ) by {
                if i != p {
                    assert(after[i] == families[i]);
                }
            }
        },
        None => {
            assert forall|i: int| 0 <= i < after.len() implies consistent(
                (#[trigger] after[i]).entries,
            ) by {
                if i < families.len() {
                    assert(after[i] == families[i]);
                } else {
                    assert(after[i].entries =~= seq![entry]);
                }
            }
        },
    }
}

/// A descriptor, once given, stays: descriptors that come later change
/// neither the help text nor the unit that go out for the name.
pub proof fn lemma_descriptor_stays(
    descriptors: Seq<DescriptorView>,
    later: DescriptorView,
    name: Seq<char>,
)
    requires
        position(described_names(descriptors), name) is Some,
    ensures
        position(described_names(descriptors.push(later)), name) == position(
            described_names(descriptors),
            name,
        ),
        help_for(descriptors.push(later), name) == help_for(descriptors, name),
        unit_for(descriptors.push(later), name) == unit_for(descriptors, name),
{
    let names = described_names(descriptors);
    let names_after = described_names(descriptors.push(later));
    let i = position(names, name)->0;
    assert(is_first(names, name, i));
    assert(names_after =~= names.push(later.name));
    assert(is_first(names_after, name, i));
    lemma_position_found(names_after, name, i);
}

/// A name that has a descriptor cannot be described again: the descriptor
/// just given makes the name described, whatever was given with it.
pub proof fn lemma_described_after_describe(
    descriptors: Seq<DescriptorView>,
    given: DescriptorView,
)
    ensures
        position(described_names(descriptors.push(given)), given.name) is Some,
{
    let names_after = described_names(descriptors.push(given));
    assert(names_after[descriptors.len() as int] == given.name);
    lemma_position_exists(names_after, given.name, descriptors.len() as int);
}

/// A descriptor for a name that has none keeps the described names distinct.
pub proof fn lemma_describe_keeps_distinct(descriptors: Seq<DescriptorView>, given: DescriptorView)
    requires
        distinct(described_names(descriptors)),
        position(described_names(descriptors), given.name) is None,
    ensures
        distinct(described_names(descriptors.push(given))),
{
    let names = described_names(descriptors);
    let names_after = described_names(descriptors.push(given));
    assert(names_after =~= names.push(given.name));
    assert forall|a: int, b: int| 0 <= a < b < names_after.len() implies names_after[a]
        != names_after[b] by {
        if b == names.len() {
            if names[a] == given.name {
                lemma_position_exists(names, given.name, a);
            }
        } else {
            assert(names[a] != names[b]);
        }
    }
}

/// Registering under `name` keeps every family where it stands: the family
/// of `name` stays at its place, or is the new last one, and every other
/// name is found where it was.
pub proof fn lemma_register_positions(families: Seq<FamilyView>, name: Seq<char>, entry: EntryView)
    requires
        distinct(names_of(families)),
    ensures
        position(names_of(with_entry(families, name, entry)), name) == Some(
            match position(names_of(families), name) {
                Some(i) => i,
                None => families.len() as int,
            },
        ),
        forall|other: Seq<char>|
            other != name ==> position(names_of(with_entry(families, name, entry)), other)
                == #[trigger] position(names_of(families), other),
{
    let after = with_entry(families, name, entry);
    let names = names_of(families);
    let names_after = names_of(after);
    match position(names, name) {
        Some(i) => {
            assert(is_first(names, name, i));
            assert(names_after =~= names);
        },
        None => {
            assert(names_after =~= names.push(name));
            assert(is_first(names_after, name, names.len() as int)) by {
                assert forall|j: int| 0 <= j < names.len() implies names_after[j] != name by {
                    if names[j] == name {
                        lemma_position_exists(names, name, j);
                    }
                }
            }
            lemma_position_found(names_after, name, names.len() as int);
            assert forall|other: Seq<char>| other != name implies position(names_after, other)
                == #[trigger] position(names, other) by {
                match position(names, other) {
                    Some(j) => {
                        assert(is_first(names, other, j));
                        assert(is_first(names_after, other, j));
                        lemma_position_found(names_after, other, j);
                    },
                    None => {
                        if position(names_after, other) is Some {
                            let j = position(names_after, other)->0;
                            assert(is_first(names_after, other, j));
                            assert(j < names.len());
                            assert(names[j] == other);
                            lemma_position_exists(names, other, j);
                        }
                    },
                }
            }
        },
    }
}

/// In a consistent family the samples that go out are those of every entry,
/// each once and in registration order: none is dropped and none repeated.
pub proof fn lemma_plan_covers_family(entries: Seq<EntryView>)
    requires
        consistent(entries),
    ensures
        sample_plan(entries) == Seq::new(entries.len(), |k: int| k),
{
    if entries[0].labels.len() == 0 {
        assert(entries.len() == 1);
        assert(sample_plan(entries) =~= Seq::new(entries.len(), |k: int| k));
    }
}

} // verus!
