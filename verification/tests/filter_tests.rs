use quilkin::filter::{Filter, FilterChain, FilterConfig, Strategy, ValidationError};

fn concat(on_read: Strategy, on_write: Strategy, bytes: &[u8]) -> Filter {
    Filter::new(
        "concatenate_bytes".to_string(),
        Some(FilterConfig::Concatenate {
            on_read,
            on_write,
            bytes: bytes.to_vec(),
        }),
    )
}

#[test]
fn unknown_filter_name_fails_construction() {
    let filters = vec![Filter::new("TestFilter".to_string(), None)];
    match FilterChain::try_from(&filters) {
        Err(ValidationError::NotFound(name)) => assert_eq!(name, "TestFilter"),
        other => panic!("expected a not-found error, got {:?}", other),
    }
}

#[test]
fn malformed_filter_config_fails_construction() {
    // The concatenation filter needs a configuration; "pass" refuses one.
    let missing = vec![Filter::new("concatenate_bytes".to_string(), None)];
    match FilterChain::try_from(&missing) {
        Err(ValidationError::InvalidConfig(name)) => assert_eq!(name, "concatenate_bytes"),
        other => panic!("expected an invalid-config error, got {:?}", other),
    }
    let extra = vec![Filter::new(
        "pass".to_string(),
        Some(FilterConfig::Concatenate {
            on_read: Strategy::DoNothing,
            on_write: Strategy::DoNothing,
            bytes: vec![],
        }),
    )];
    assert!(matches!(
        FilterChain::try_from(&extra),
        Err(ValidationError::InvalidConfig(_))
    ));
}

#[test]
fn read_path_applies_filters_in_order() {
    // First filter appends "xyz" on read; second appends "abc" on write.
    let chain = FilterChain::try_from(&vec![
        concat(Strategy::Append, Strategy::DoNothing, b"xyz"),
        concat(Strategy::DoNothing, Strategy::Append, b"abc"),
    ])
    .unwrap();
    let forwarded = chain.read(&b"hello".to_vec()).unwrap();
    assert_eq!(forwarded, b"helloxyz".to_vec());
    // The reply (an echo of the forwarded payload) gains "abc" on the way
    // back: the write path runs the chain in reverse order.
    let reply = chain.write(&forwarded).unwrap();
    assert_eq!(reply, b"helloxyzabc".to_vec());
}

#[test]
fn write_path_runs_in_reverse_order() {
    let chain = FilterChain::try_from(&vec![
        concat(Strategy::DoNothing, Strategy::Append, b"1"),
        concat(Strategy::DoNothing, Strategy::Append, b"2"),
    ])
    .unwrap();
    // Reverse order: the second filter's "2" is appended before the first
    // filter's "1".
    assert_eq!(chain.write(&b"x".to_vec()).unwrap(), b"x21".to_vec());
    let prepend_chain = FilterChain::try_from(&vec![
        concat(Strategy::DoNothing, Strategy::Prepend, b"1"),
        concat(Strategy::DoNothing, Strategy::Prepend, b"2"),
    ])
    .unwrap();
    assert_eq!(prepend_chain.write(&b"x".to_vec()).unwrap(), b"12x".to_vec());
}

#[test]
fn pass_only_chain_round_trips() {
    // A chain of self-inverse filters restores the payload on the round
    // trip.
    let chain = FilterChain::try_from(&vec![
        Filter::new("pass".to_string(), None),
        Filter::new("pass".to_string(), None),
    ])
    .unwrap();
    let payload = b"datagram".to_vec();
    let read_out = chain.read(&payload).unwrap();
    let back = chain.write(&read_out).unwrap();
    assert_eq!(back, payload);
}

#[test]
fn drop_filter_rejects_both_paths() {
    let chain = FilterChain::try_from(&vec![Filter::new("drop".to_string(), None)]).unwrap();
    assert!(chain.read(&b"p".to_vec()).is_none());
    assert!(chain.write(&b"p".to_vec()).is_none());
}

#[test]
fn describe_round_trips_through_the_registry() {
    let cfgs = vec![
        concat(Strategy::Prepend, Strategy::Append, b"k"),
        Filter::new("pass".to_string(), None),
    ];
    let chain = FilterChain::try_from(&cfgs).unwrap();
    let described = chain.describe();
    assert_eq!(described.len(), 2);
    assert_eq!(described[0].name, "concatenate_bytes");
    assert_eq!(described[1].name, "pass");
    let rebuilt = FilterChain::try_from(&described).unwrap();
    assert_eq!(rebuilt.len(), chain.len());
}

#[test]
fn empty_chain_passes_payloads_through() {
    let chain = FilterChain::empty();
    assert_eq!(chain.len(), 0);
    assert_eq!(chain.read(&b"abc".to_vec()).unwrap(), b"abc".to_vec());
    assert_eq!(chain.write(&b"abc".to_vec()).unwrap(), b"abc".to_vec());
}
