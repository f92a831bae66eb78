//! Conversions from the recording vocabulary to the exposition vocabulary.

use vstd::prelude::*;

verus! {

/// `metrics::Unit`, with the variants it has.
#[verifier::external_type_specification]
pub struct ExRecordedUnit(::metrics::Unit);

/// `prometheus_client::registry::Unit`, with the variants it has.
#[verifier::external_type_specification]
pub struct ExUnit(prometheus_client::registry::Unit);

/// `metrics::Label`: a key and a value. Its content is visible only through
/// `label_parts`.
#[verifier::external_type_specification]
#[verifier::external_body]
pub struct ExLabel(::metrics::Label);

/// The key and the value that a recorded label holds.
pub uninterp spec fn label_parts(label: ::metrics::Label) -> (Seq<char>, Seq<char>);

/// `Label::into_parts`, applied to a copy of `label`: the key and the value
/// that the label holds, as owned strings.
#[verifier::external_body]
fn label_to_strings(label: &::metrics::Label) -> (parts: (String, String))
    ensures
        (parts.0@, parts.1@) == label_parts(*label),
{
    let (key, value) = label.clone().into_parts();
    (key.into_owned(), value.into_owned())
}

/// The key/value pairs of a sequence of recorded labels, in the same order.
pub open spec fn recorded_labels(labels: Seq<::metrics::Label>) -> Seq<(Seq<char>, Seq<char>)> {
    Seq::new(labels.len(), |i: int| label_parts(labels[i]))
}

/// The key/value pairs of a sequence of owned labels, in the same order.
pub open spec fn owned_labels(labels: Seq<(String, String)>) -> Seq<(Seq<char>, Seq<char>)> {
    Seq::new(labels.len(), |i: int| (labels[i].0@, labels[i].1@))
}

/// Turns recorded labels into owned key/value pairs, keeping their order.
pub fn convert_labels_to_prometheus(labels: Vec<::metrics::Label>) -> (converted: Vec<(String, String)>)
    ensures
        owned_labels(converted@) == recorded_labels(labels@),
        converted@.len() == labels@.len(),
{
    let mut converted: Vec<(String, String)> = Vec::new();
    let mut i: usize = 0;
    while i < labels.len()
        invariant
            i <= labels@.len(),
            converted@.len() == i,
            forall|k: int|
                0 <= k < i ==> (#[trigger] converted@[k].0@, converted@[k].1@) == label_parts(
                    labels@[k],
                ),
        decreases labels@.len() - i,
    {
        let parts = label_to_strings(&labels[i]);
        converted.push(parts);
        i += 1;
    }
    assert(owned_labels(converted@) =~= recorded_labels(labels@));
    converted
}

/// The exposition unit that stands for each recorded unit: bytes map to the
/// format's own byte unit, every other unit to its name as free text.
pub open spec fn unit_text(unit: ::metrics::Unit) -> Option<Seq<char>> {
    match unit {
        ::metrics::Unit::Count => Some("count"@),
        ::metrics::Unit::Percent => Some("percent"@),
        ::metrics::Unit::Seconds => Some("seconds"@),
        ::metrics::Unit::Milliseconds => Some("milliseconds"@),
        ::metrics::Unit::Microseconds => Some("microseconds"@),
        ::metrics::Unit::Nanoseconds => Some("nanoseconds"@),
        ::metrics::Unit::Tebibytes => Some("tebibytes"@),
        ::metrics::Unit::Gibibytes => Some("gibibytes"@),
        ::metrics::Unit::Mebibytes => Some("mebibytes"@),
        ::metrics::Unit::Kibibytes => Some("kibibytes"@),
        ::metrics::Unit::Bytes => None,
        ::metrics::Unit::TerabitsPerSecond => Some("terabits per second"@),
        ::metrics::Unit::GigabitsPerSecond => Some("gigabits per second"@),
        ::metrics::Unit::MegabitsPerSecond => Some("megabits per second"@),
        ::metrics::Unit::KilobitsPerSecond => Some("kilobits per second"@),
        ::metrics::Unit::BitsPerSecond => Some("bits per second"@),
        ::metrics::Unit::CountPerSecond => Some("count per second"@),
    }
}

/// What an exposition unit holds: the free text of `Other`, and nothing for
/// the format's own units.
pub open spec fn unit_free_text(unit: prometheus_client::registry::Unit) -> Option<Seq<char>> {
    match unit {
        prometheus_client::registry::Unit::Other(text) => Some(text@),
        _ => None,
    }
}

/// Whether `converted` is the exposition unit that stands for `unit`: the
/// format's byte unit for bytes, and else the free text of `unit_text`.
pub open spec fn stands_for(unit: ::metrics::Unit, converted: prometheus_client::registry::Unit) -> bool {
    match unit_text(unit) {
        Some(text) => unit_free_text(converted) == Some(text),
        None => converted == prometheus_client::registry::Unit::Bytes,
    }
}

/// `stands_for`, where a unit may be missing on both sides.
pub open spec fn stands_for_optional(
    unit: Option<::metrics::Unit>,
    converted: Option<prometheus_client::registry::Unit>,
) -> bool {
    match unit {
        Some(u) => converted is Some && stands_for(u, converted->0),
        None => converted is None,
    }
}

/// Maps a recorded unit to the exposition unit that stands for it.
pub fn convert_unit_to_prometheus(unit: ::metrics::Unit) -> (converted:
    prometheus_client::registry::Unit)
    ensures
        stands_for(unit, converted),
{
    match unit {
        ::metrics::Unit::Count => other_unit("count"),
        ::metrics::Unit::Percent => other_unit("percent"),
        ::metrics::Unit::Seconds => other_unit("seconds"),
        ::metrics::Unit::Milliseconds => other_unit("milliseconds"),
        ::metrics::Unit::Microseconds => other_unit("microseconds"),
        ::metrics::Unit::Nanoseconds => other_unit("nanoseconds"),
        ::metrics::Unit::Tebibytes => other_unit("tebibytes"),
        ::metrics::Unit::Gibibytes => other_unit("gibibytes"),
        ::metrics::Unit::Mebibytes => other_unit("mebibytes"),
        ::metrics::Unit::Kibibytes => other_unit("kibibytes"),
        ::metrics::Unit::Bytes => prometheus_client::registry::Unit::Bytes,
        ::metrics::Unit::TerabitsPerSecond => other_unit("terabits per second"),
        ::metrics::Unit::GigabitsPerSecond => other_unit("gigabits per second"),
        ::metrics::Unit::MegabitsPerSecond => other_unit("megabits per second"),
        ::metrics::Unit::KilobitsPerSecond => other_unit("kilobits per second"),
        ::metrics::Unit::BitsPerSecond => other_unit("bits per second"),
        ::metrics::Unit::CountPerSecond => other_unit("count per second"),
    }
}

/// A free-text unit with the given name.
fn other_unit(name: &str) -> (unit: prometheus_client::registry::Unit)
    ensures
        unit_free_text(unit) == Some(name@),
{
    prometheus_client::registry::Unit::Other(name.to_owned())
}

} // verus!
