use telemetry_broker::registry::ClientHandle;
use telemetry_broker::session::{Session, SessionAction, SessionPhase};

fn handle() -> ClientHandle {
    ClientHandle { id: 7 }
}

fn expect_write(a: SessionAction) -> Vec<u8> {
    match a {
        SessionAction::Write(f) => f,
        _ => panic!("expected a write"),
    }
}

#[test]
fn replays_backlog_then_streams() {
    let mut s = Session::new(handle(), vec![vec![1], vec![2], vec![3]]);
    assert_eq!(expect_write(s.poll()), vec![1]);
    assert!(matches!(s.write_done(true), SessionAction::Continue));
    assert_eq!(expect_write(s.poll()), vec![2]);
    assert!(matches!(s.write_done(false), SessionAction::Continue));
    assert_eq!(expect_write(s.poll()), vec![3]);
    assert!(matches!(s.write_done(true), SessionAction::Continue));
    assert!(matches!(s.poll(), SessionAction::AwaitFrame));
    assert_eq!(expect_write(s.received(Some(vec![4]))), vec![4]);
    assert!(matches!(s.write_done(true), SessionAction::Continue));
    assert!(matches!(s.poll(), SessionAction::AwaitFrame));
}

#[test]
fn failed_live_write_deregisters() {
    let mut s = Session::new(handle(), Vec::new());
    assert!(matches!(s.poll(), SessionAction::AwaitFrame));
    expect_write(s.received(Some(vec![9])));
    match s.write_done(false) {
        SessionAction::Deregister(h) => assert_eq!(h, handle()),
        _ => panic!("expected deregistration"),
    }
    assert!(matches!(s.poll(), SessionAction::Stop));
}

#[test]
fn closed_channel_deregisters() {
    let mut s = Session::new(handle(), vec![vec![1]]);
    expect_write(s.poll());
    s.write_done(true);
    assert!(matches!(s.poll(), SessionAction::AwaitFrame));
    match s.received(None) {
        SessionAction::Deregister(h) => assert_eq!(h, handle()),
        _ => panic!("expected deregistration"),
    }
    assert!(matches!(s.write_done(true), SessionAction::Stop));
}

#[test]
fn phases_follow_the_protocol() {
    let mut s = Session::new(handle(), vec![vec![5]]);
    assert_eq!(s.current_phase(), SessionPhase::Replaying);
    expect_write(s.poll());
    assert_eq!(s.current_phase(), SessionPhase::Replaying);
    s.write_done(false);
    assert_eq!(s.current_phase(), SessionPhase::Replaying);
    assert!(matches!(s.poll(), SessionAction::AwaitFrame));
    assert_eq!(s.current_phase(), SessionPhase::Streaming);
    expect_write(s.received(Some(vec![6])));
    s.write_done(false);
    assert_eq!(s.current_phase(), SessionPhase::Disconnected);
}
