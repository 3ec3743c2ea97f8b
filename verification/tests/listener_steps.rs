use quote_stream::listener::{Listener, ListenerAction, ListenerEvent, IDLE_BACKOFF_SECS, PING_INTERVAL_SECS};

#[test]
fn no_ping_before_first_datagram() {
    let mut l = Listener::new();
    assert!(l.last_src.is_none());
    assert!(matches!(l.step(ListenerEvent::Tick), ListenerAction::Idle));
}

#[test]
fn pings_the_last_sender() {
    let mut l = Listener::new();
    match l.step(ListenerEvent::Datagram { src: "127.0.0.1:8000".to_string(), payload: b"q".to_vec() }) {
        ListenerAction::Log { src, payload } => {
            assert_eq!(src, "127.0.0.1:8000");
            assert_eq!(payload, b"q".to_vec());
        }
        _ => panic!("expected a log"),
    }
    l.step(ListenerEvent::Datagram { src: "127.0.0.1:9000".to_string(), payload: Vec::new() });
    match l.step(ListenerEvent::Tick) {
        ListenerAction::Ping(a) => assert_eq!(a, "127.0.0.1:9000"),
        _ => panic!("expected a ping"),
    }
    match l.step(ListenerEvent::Tick) {
        ListenerAction::Ping(a) => assert_eq!(a, "127.0.0.1:9000"),
        _ => panic!("expected a ping"),
    }
}

#[test]
fn listener_timing() {
    assert_eq!(PING_INTERVAL_SECS, 2);
    assert_eq!(IDLE_BACKOFF_SECS, 3);
}
