use telemetry_broker::blueprint::{split_blueprint, BlueprintError, Decoded};

#[test]
fn five_events_and_one_activation() {
    let records = vec![
        Decoded::Event(1u32),
        Decoded::Event(2),
        Decoded::Activation("go"),
        Decoded::Event(3),
        Decoded::Event(4),
        Decoded::Event(5),
    ];
    assert_eq!(split_blueprint(Some(records)), Ok((vec![1, 2, 3, 4, 5], "go")));
}

#[test]
fn no_activation_is_an_error() {
    let records: Vec<Decoded<u32, &str>> =
        vec![Decoded::Event(1), Decoded::Event(2), Decoded::Event(3)];
    assert_eq!(split_blueprint(Some(records)), Err(BlueprintError::MissingActivation));
}

#[test]
fn malformed_record_is_skipped() {
    let records = vec![
        Decoded::Event(1u32),
        Decoded::Event(2),
        Decoded::Malformed,
        Decoded::Event(3),
        Decoded::Activation('a'),
        Decoded::Event(4),
        Decoded::Event(5),
    ];
    assert_eq!(split_blueprint(Some(records)), Ok((vec![1, 2, 3, 4, 5], 'a')));
}

#[test]
fn missing_source_is_an_error() {
    assert_eq!(split_blueprint::<u32, u32>(None), Err(BlueprintError::SourceNotFound));
}

#[test]
fn empty_stream_misses_activation() {
    assert_eq!(split_blueprint::<u32, u32>(Some(Vec::new())), Err(BlueprintError::MissingActivation));
}

#[test]
fn several_activations_are_refused() {
    let records = vec![Decoded::Activation(1u8), Decoded::Event(0u8), Decoded::Activation(2)];
    assert_eq!(split_blueprint(Some(records)), Err(BlueprintError::MultipleActivations));
}

#[test]
fn activation_first_or_last_is_found() {
    let first = vec![Decoded::Activation(9u8), Decoded::Event(1u8), Decoded::Malformed];
    assert_eq!(split_blueprint(Some(first)), Ok((vec![1], 9)));
    let last = vec![Decoded::Malformed, Decoded::Event(1u8), Decoded::Event(2), Decoded::Activation(8)];
    assert_eq!(split_blueprint(Some(last)), Ok((vec![1, 2], 8)));
}
