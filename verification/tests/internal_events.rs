use vrl_expression::internal_events::{
    CounterIncrement, FluentMessageDecodeError, FluentMessageReceived, MetricLabel,
    RemoveFieldsEventProcessed, RemoveFieldsFieldMissing,
};

fn plain(name: &str) -> CounterIncrement {
    CounterIncrement { name: name.to_string(), value: 1, labels: vec![] }
}

#[test]
fn received_message_counts_one_event_under_both_names() {
    let event = FluentMessageReceived { byte_size: 120 };
    assert_eq!(event.counters(), vec![plain("component_received_events_total"), plain("events_in_total")]);
}

#[test]
fn decode_error_is_labelled_as_a_parser_failure() {
    let event = FluentMessageDecodeError {
        error: "unexpected end".to_string(),
        base64_encoded_message: "AAEC".to_string(),
    };
    let labelled = CounterIncrement {
        name: "component_errors_total".to_string(),
        value: 1,
        labels: vec![
            MetricLabel { key: "error_type".to_string(), value: "parser_failed".to_string() },
            MetricLabel { key: "stage".to_string(), value: "processing".to_string() },
        ],
    };
    assert_eq!(event.counters(), vec![labelled, plain("decode_errors_total")]);
}

#[test]
fn processed_event_counts_once() {
    assert_eq!(RemoveFieldsEventProcessed.counters(), vec![plain("events_processed_total")]);
}

#[test]
fn missing_field_counts_nothing() {
    let event = RemoveFieldsFieldMissing { field: "a.b".to_string() };
    assert!(event.counters().is_empty());
}
