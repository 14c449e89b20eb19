//! Metric samples.

use crate::binary64::Binary64;
use crate::string_map;
use crate::string_map::StringMap;
use vstd::prelude::*;
use vstd::string::*;

verus! {

/// How a metric takes its samples.
#[derive(Debug, Clone, Copy, PartialEq, Eq, Structural)]
pub enum SampleType {
    Counter,
    Rate,
    Trend,
    Point,
}

/// The value of a sample. A duration is reported in milliseconds, a flag as one
/// or zero.
#[derive(Debug, Clone, Copy, PartialEq, Eq, Structural)]
pub enum SampleValue {
    /// A duration in nanoseconds.
    Nanos(u128),
    Count(u64),
    Flag(bool),
    Number(Binary64),
}

/// One sample of a metric.
#[derive(Debug)]
pub struct Sample {
    pub metric: String,
    pub value: SampleValue,
    pub tags: StringMap<String>,
    /// The reading of the host's clock.
    pub timestamp: u64,
    pub sample_type: SampleType,
}

#[verifier::ext_equal]
pub struct SampleView {
    pub metric: Seq<char>,
    pub value: SampleValue,
    pub tags: Map<Seq<char>, Seq<char>>,
    pub timestamp: u64,
    pub sample_type: SampleType,
}

impl View for Sample {
    type V = SampleView;

    open spec fn view(&self) -> SampleView {
        SampleView {
            metric: self.metric@,
            value: self.value,
            tags: string_map::texts(self.tags@),
            timestamp: self.timestamp,
            sample_type: self.sample_type,
        }
    }
}

pub open spec fn views(samples: Seq<Sample>) -> Seq<SampleView> {
    samples.map_values(|s: Sample| s@)
}

/// A sample by its parts.
pub open spec fn sample(
    metric: Seq<char>,
    value: SampleValue,
    tags: Map<Seq<char>, Seq<char>>,
    timestamp: u64,
    sample_type: SampleType,
) -> SampleView {
    SampleView { metric, value, tags, timestamp, sample_type }
}

/// Adds a sample with a copy of the tags.
pub fn push(
    sink: &mut Vec<Sample>,
    metric: &str,
    value: SampleValue,
    tags: &StringMap<String>,
    timestamp: u64,
    sample_type: SampleType,
)
    ensures
        views(final(sink)@) == views(old(sink)@).push(
            sample(metric@, value, string_map::texts(tags@), timestamp, sample_type),
        ),
        final(sink)@.len() == old(sink)@.len() + 1,
{
    let s = Sample { metric: metric.to_owned(), value, tags: tags.copy(), timestamp, sample_type };
    let ghost before = sink@;
    sink.push(s);
    assert(views(sink@) =~= views(before).push(s@));
}

/// A metric is recorded once in a list, and in this way.
pub open spec fn recorded_once(
    list: Seq<SampleView>,
    metric: Seq<char>,
    value: SampleValue,
    tags: Map<Seq<char>, Seq<char>>,
    timestamp: u64,
    sample_type: SampleType,
) -> bool {
    exists|i: int|
        {
            &&& 0 <= i < list.len()
            &&& (#[trigger] list[i]).metric == metric
            &&& list[i].value == value
            &&& list[i].tags == tags
            &&& list[i].timestamp == timestamp
            &&& list[i].sample_type == sample_type
            &&& forall|j: int|
                0 <= j < list.len() && (#[trigger] list[j]).metric == metric ==> j == i
        }
}

/// What stands at a place of a list, and at no other, is recorded once.
pub proof fn lemma_recorded_once(list: Seq<SampleView>, i: int)
    requires
        0 <= i < list.len(),
        forall|j: int| 0 <= j < list.len() && j != i ==> (#[trigger] list[j]).metric
            != list[i].metric,
    ensures
        recorded_once(
            list,
            list[i].metric,
            list[i].value,
            list[i].tags,
            list[i].timestamp,
            list[i].sample_type,
        ),
{
}

} // verus!
