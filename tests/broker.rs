use telemetry_broker::codec::encode_frame;
use telemetry_broker::registry::{ChannelOutbox, ClientRegistry};
use telemetry_broker::retention::{retention_class, RetentionClass};
use telemetry_broker::ServerState;
use tokio::sync::mpsc::{channel, Receiver};

fn client(capacity: usize) -> (ChannelOutbox, Receiver<Vec<u8>>) {
    let (tx, rx) = channel(capacity);
    (ChannelOutbox::new(tx), rx)
}

fn taken(rx: &mut Receiver<Vec<u8>>) -> Vec<Vec<u8>> {
    let mut frames = Vec::new();
    while let Ok(f) = rx.try_recv() {
        frames.push(f);
    }
    frames
}

#[test]
fn live_client_sees_events_in_intake_order() {
    let mut state = ServerState::new(Some(1000));
    let (outbox, mut rx) = client(100);
    let (_handle, backlog) = state.connect(outbox);
    assert!(backlog.is_empty());
    let events: Vec<Vec<u8>> = (0..10u8).map(|i| vec![i, i + 1]).collect();
    for (i, e) in events.iter().enumerate() {
        let class = if i % 3 == 0 { RetentionClass::Permanent } else { RetentionClass::Ephemeral };
        state.send(e, class);
    }
    let expected: Vec<Vec<u8>> = events.iter().map(|e| encode_frame(e)).collect();
    assert_eq!(taken(&mut rx), expected);
}

#[test]
fn late_client_backlog_is_permanent_then_ephemeral() {
    let mut state = ServerState::new(None);
    state.send(b"e1", RetentionClass::Ephemeral);
    state.send(b"p1", RetentionClass::Permanent);
    state.send(b"e2", RetentionClass::Ephemeral);
    state.send(b"p2", RetentionClass::Permanent);
    state.send(b"e3", RetentionClass::Ephemeral);
    let (outbox, mut rx) = client(100);
    let (_handle, backlog) = state.connect(outbox);
    let expected: Vec<Vec<u8>> =
        [b"p1", b"p2", b"e1", b"e2", b"e3"].iter().map(|e| encode_frame(&e[..])).collect();
    assert_eq!(backlog, expected);
    assert!(taken(&mut rx).is_empty());
    state.send(b"e4", RetentionClass::Ephemeral);
    assert_eq!(taken(&mut rx), vec![encode_frame(b"e4")]);
}

#[test]
fn disconnected_client_is_no_longer_offered_frames() {
    let mut state = ServerState::new(None);
    let (a, mut rx_a) = client(100);
    let (b, mut rx_b) = client(100);
    let (ha, _) = state.connect(a);
    let (_hb, _) = state.connect(b);
    assert_eq!(state.client_count(), 2);
    state.send(b"x", RetentionClass::Ephemeral);
    let removed = state.disconnect(ha);
    assert!(removed.is_some());
    assert_eq!(state.client_count(), 1);
    state.send(b"y", RetentionClass::Ephemeral);
    assert_eq!(taken(&mut rx_a), vec![encode_frame(b"x")]);
    assert_eq!(taken(&mut rx_b), vec![encode_frame(b"x"), encode_frame(b"y")]);
    assert!(state.disconnect(ha).is_none());
    assert_eq!(state.client_count(), 1);
}

#[test]
fn full_channel_drops_for_that_client_only() {
    let mut state = ServerState::new(None);
    let (slow, mut rx_slow) = client(1);
    let (fast, mut rx_fast) = client(100);
    state.connect(slow);
    state.connect(fast);
    state.send(b"1", RetentionClass::Ephemeral);
    state.send(b"2", RetentionClass::Ephemeral);
    assert_eq!(taken(&mut rx_slow), vec![encode_frame(b"1")]);
    assert_eq!(taken(&mut rx_fast), vec![encode_frame(b"1"), encode_frame(b"2")]);
}

#[test]
fn dropped_receiver_is_ignored() {
    let mut state = ServerState::new(None);
    let (gone, rx_gone) = client(4);
    let (ok, mut rx_ok) = client(4);
    drop(rx_gone);
    state.connect(gone);
    state.connect(ok);
    state.send(b"a", RetentionClass::Ephemeral);
    state.send(b"b", RetentionClass::Permanent);
    assert_eq!(taken(&mut rx_ok), vec![encode_frame(b"a"), encode_frame(b"b")]);
    assert_eq!(state.client_count(), 2);
    let (_h, backlog) = state.connect(client(1).0);
    assert_eq!(backlog, vec![encode_frame(b"b"), encode_frame(b"a")]);
}

#[test]
fn broker_applies_budget_to_ephemeral_frames() {
    let mut state = ServerState::new(Some(10));
    state.send(&[1, 1], RetentionClass::Ephemeral);
    state.send(&[2, 2], RetentionClass::Ephemeral);
    state.send(&[3, 3], RetentionClass::Permanent);
    let (_h, backlog) = state.connect(client(1).0);
    assert_eq!(backlog, vec![encode_frame(&[3, 3]), encode_frame(&[2, 2])]);
}

#[test]
fn can_send_ordinary_events() {
    let state: ServerState<ChannelOutbox> = ServerState::new(None);
    assert!(state.can_send(b"abc", RetentionClass::Ephemeral));
    assert!(state.can_send(b"abc", RetentionClass::Permanent));
    assert!(state.can_connect());
}

#[test]
fn registry_handles_are_distinct() {
    let mut reg: ClientRegistry<ChannelOutbox> = ClientRegistry::new();
    let a = reg.register(client(1).0);
    let b = reg.register(client(1).0);
    assert_ne!(a, b);
    assert_eq!(reg.len(), 2);
    assert!(reg.deregister(a).is_some());
    assert!(reg.deregister(a).is_none());
    assert_eq!(reg.len(), 1);
    assert!(reg.has_capacity());
}

#[test]
fn only_recording_data_is_evictable() {
    assert_eq!(retention_class(true, false), RetentionClass::Ephemeral);
    assert_eq!(retention_class(true, true), RetentionClass::Permanent);
    assert_eq!(retention_class(false, false), RetentionClass::Permanent);
    assert_eq!(retention_class(false, true), RetentionClass::Permanent);
}
