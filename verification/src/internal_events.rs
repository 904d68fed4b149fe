//! What the components around the evaluation core report about their work.
//!
//! An event here only says which counters it advances; sending them to a
//! metrics recorder is left to the caller.

use vstd::prelude::*;
use vstd::string::StringExecFns;

verus! {

/// A label of a counter.
#[derive(Debug, Clone, PartialEq, Eq)]
pub struct MetricLabel {
    pub key: String,
    pub value: String,
}

/// One counter and the amount by which an event advances it.
#[derive(Debug, Clone, PartialEq, Eq)]
pub struct CounterIncrement {
    pub name: String,
    pub value: u64,
    pub labels: Vec<MetricLabel>,
}

/// Whether `c` advances the counter `name` by one, without labels.
pub open spec fn counts_one(c: CounterIncrement, name: Seq<char>) -> bool {
    c.name@ == name && c.value == 1 && c.labels@.len() == 0
}

fn one(name: &str) -> (c: CounterIncrement)
    ensures
        counts_one(c, name@),
{
    CounterIncrement { name: String::from_str(name), value: 1, labels: Vec::new() }
}

/// A message was received from a forwarder.
#[derive(Debug)]
pub struct FluentMessageReceived {
    pub byte_size: u64,
}

impl FluentMessageReceived {
    /// One received event, counted under both of its names.
    pub fn counters(&self) -> (r: Vec<CounterIncrement>)
        ensures
            r@.len() == 2,
            counts_one(r@[0], "component_received_events_total"@),
            counts_one(r@[1], "events_in_total"@),
    {
        let mut r: Vec<CounterIncrement> = Vec::new();
        r.push(one("component_received_events_total"));
        r.push(one("events_in_total"));
        r
    }
}

/// A message from a forwarder could not be decoded.
#[derive(Debug)]
pub struct FluentMessageDecodeError {
    pub error: String,
    pub base64_encoded_message: String,
}

impl FluentMessageDecodeError {
    /// One error, labelled as a parser failure during processing, and one
    /// decode error under its older name.
    pub fn counters(&self) -> (r: Vec<CounterIncrement>)
        ensures
            r@.len() == 2,
            r@[0].name@ == "component_errors_total"@,
            r@[0].value == 1,
            r@[0].labels@.len() == 2,
            r@[0].labels@[0].key@ == "error_type"@,
            r@[0].labels@[0].value@ == "parser_failed"@,
            r@[0].labels@[1].key@ == "stage"@,
            r@[0].labels@[1].value@ == "processing"@,
            counts_one(r@[1], "decode_errors_total"@),
    {
        let mut labels: Vec<MetricLabel> = Vec::new();
        labels.push(MetricLabel { key: String::from_str("error_type"), value: String::from_str("parser_failed") });
        labels.push(MetricLabel { key: String::from_str("stage"), value: String::from_str("processing") });
        let mut r: Vec<CounterIncrement> = Vec::new();
        r.push(CounterIncrement { name: String::from_str("component_errors_total"), value: 1, labels });
        r.push(one("decode_errors_total"));
        r
    }
}

/// An event went through the transform that removes fields.
#[derive(Debug)]
pub struct RemoveFieldsEventProcessed;

impl RemoveFieldsEventProcessed {
    /// One processed event.
    pub fn counters(&self) -> (r: Vec<CounterIncrement>)
        ensures
            r@.len() == 1,
            counts_one(r@[0], "events_processed_total"@),
    {
        let mut r: Vec<CounterIncrement> = Vec::new();
        r.push(one("events_processed_total"));
        r
    }
}

/// A field that was to be removed did not exist.
#[derive(Debug)]
pub struct RemoveFieldsFieldMissing {
    pub field: String,
}

impl RemoveFieldsFieldMissing {
    /// A missing field is logged and advances no counter.
    pub fn counters(&self) -> (r: Vec<CounterIncrement>)
        ensures
            r@.len() == 0,
    {
        Vec::new()
    }
}

} // verus!
