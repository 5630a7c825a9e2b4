use openrazer::{
    EvdevDeviceNonblocking, OpenRazerError, RawKeyEvent, ShutdownAction, ShutdownPhase,
    ShutdownProtocol,
};

fn ev(code: u16, value: i32) -> RawKeyEvent {
    RawKeyEvent { code, value }
}

#[test]
fn queued_events_come_back_in_order_and_polling_never_blocks() {
    let (tx, rx) = std::sync::mpsc::channel();
    let bridge = EvdevDeviceNonblocking::new(rx);
    tx.send(ev(30, 1)).unwrap();
    tx.send(ev(30, 2)).unwrap();
    tx.send(ev(30, 0)).unwrap();
    assert_eq!(bridge.try_next().unwrap(), Some(ev(30, 1)));
    assert_eq!(bridge.try_next().unwrap(), Some(ev(30, 2)));
    assert_eq!(bridge.try_next().unwrap(), Some(ev(30, 0)));
    // The fourth poll finds an empty queue and returns at once.
    assert_eq!(bridge.try_next().unwrap(), None);
}

#[test]
fn shutdown_stops_delivery_promptly() {
    let (tx, rx) = std::sync::mpsc::channel();
    let mut bridge = EvdevDeviceNonblocking::new(rx);
    tx.send(ev(1, 1)).unwrap();
    assert_eq!(bridge.try_next().unwrap(), Some(ev(1, 1)));
    bridge.shutdown();
    // Even queued events are no longer delivered.
    tx.send(ev(2, 1)).unwrap();
    assert_eq!(bridge.try_next().unwrap(), None);
    assert_eq!(bridge.try_next().unwrap(), None);
}

#[test]
fn a_dead_producer_is_a_channel_failure() {
    let (tx, rx) = std::sync::mpsc::channel();
    let bridge = EvdevDeviceNonblocking::new(rx);
    tx.send(ev(1, 0)).unwrap();
    drop(tx);
    // What was queued still drains...
    assert_eq!(bridge.try_next().unwrap(), Some(ev(1, 0)));
    // ...then the dead producer surfaces as the fatal error.
    assert!(matches!(bridge.try_next(), Err(OpenRazerError::ChannelFailure)));
}

#[test]
fn teardown_actions_come_in_the_safe_order() {
    let mut p = ShutdownProtocol::new();
    assert_eq!(p.phase(), ShutdownPhase::Running);
    assert_eq!(p.advance(), ShutdownAction::SetCancelFlag);
    assert_eq!(p.phase(), ShutdownPhase::CancelSignalled);
    assert_eq!(p.advance(), ShutdownAction::CloseEventSource);
    assert_eq!(p.phase(), ShutdownPhase::ReadUnblocked);
    assert_eq!(p.advance(), ShutdownAction::JoinWorker);
    assert_eq!(p.phase(), ShutdownPhase::WorkerJoined);
    assert_eq!(p.advance(), ShutdownAction::ReleaseEventSource);
    assert_eq!(p.phase(), ShutdownPhase::Released);
    // Once released there is nothing left to do, however often the
    // owner asks.
    assert_eq!(p.advance(), ShutdownAction::Done);
    assert_eq!(p.advance(), ShutdownAction::Done);
    assert_eq!(p.phase(), ShutdownPhase::Released);
}
