use quote_stream::quote::StockQuote;
use quote_stream::worker::{Phase, StopReason, Worker, WorkerAction, WorkerEvent, PING_TIMEOUT_NS};

fn fresh_worker(now: u64) -> Worker {
    Worker::new(vec!["AAPL".to_string(), "TSLA".to_string()], now)
}

fn ping_from(src: &str) -> WorkerEvent {
    WorkerEvent::Datagram { src: src.to_string(), payload: b"ping".to_vec() }
}

fn sample_quote(ticker: &str) -> StockQuote {
    StockQuote { ticker: ticker.to_string(), price: "100.5".to_string(), volume: 1200, timestamp: 17 }
}

#[test]
fn ping_is_answered_and_resets_the_timer() {
    let mut w = fresh_worker(0);
    assert!(matches!(w.step(ping_from("127.0.0.1:5000"), 5), WorkerAction::Pong(ref a) if a == "127.0.0.1:5000"));
    assert_eq!(w.last_ping, 5);
    match w.step(WorkerEvent::Datagram { src: "10.0.0.1:7".to_string(), payload: b"hello".to_vec() }, 9) {
        WorkerAction::Report { src, payload } => {
            assert_eq!(src, "10.0.0.1:7");
            assert_eq!(payload, b"hello".to_vec());
        }
        _ => panic!("expected a report"),
    }
    assert_eq!(w.last_ping, 5);
    assert!(matches!(w.phase, Phase::Receiving));
}

#[test]
fn subscribed_quotes_are_forwarded() {
    let mut w = fresh_worker(0);
    assert!(matches!(w.step(WorkerEvent::NoDatagram, 10), WorkerAction::Continue));
    assert!(matches!(w.phase, Phase::AwaitingQuote));
    match w.step(WorkerEvent::Quote(sample_quote("AAPL")), 11) {
        WorkerAction::Forward(b) => assert_eq!(b, b"AAPL|100.5|1200|17".to_vec()),
        _ => panic!("expected a forward"),
    }
    assert!(matches!(w.phase, Phase::Receiving));
    w.step(WorkerEvent::NoDatagram, 12);
    assert!(matches!(w.step(WorkerEvent::Quote(sample_quote("GOOG")), 13), WorkerAction::Skip));
    w.step(WorkerEvent::NoDatagram, 14);
    assert!(matches!(w.step(WorkerEvent::QuoteTimeout, 15), WorkerAction::Continue));
    assert!(matches!(w.phase, Phase::Receiving));
}

#[test]
fn stops_after_ping_timeout_and_stays_stopped() {
    let mut w = fresh_worker(1_000);
    assert!(matches!(w.step(WorkerEvent::NoDatagram, 1_000 + PING_TIMEOUT_NS), WorkerAction::Continue));
    w.step(WorkerEvent::QuoteTimeout, 0);
    assert!(matches!(
        w.step(WorkerEvent::NoDatagram, 1_001 + PING_TIMEOUT_NS),
        WorkerAction::Stop(StopReason::PingTimeout)
    ));
    assert!(matches!(
        w.step(ping_from("127.0.0.1:5000"), 2_000 + PING_TIMEOUT_NS),
        WorkerAction::Stop(StopReason::PingTimeout)
    ));
    assert_eq!(w.last_ping, 1_000);
}

#[test]
fn clock_going_backwards_is_no_timeout() {
    let mut w = fresh_worker(u64::MAX);
    assert!(matches!(w.step(WorkerEvent::NoDatagram, 0), WorkerAction::Continue));
}

#[test]
fn stops_when_producers_are_gone() {
    let mut w = fresh_worker(0);
    w.step(WorkerEvent::NoDatagram, 1);
    assert!(matches!(w.step(WorkerEvent::ProducersGone, 2), WorkerAction::Stop(StopReason::ProducersStopped)));
    assert!(matches!(w.step(WorkerEvent::NoDatagram, 3), WorkerAction::Stop(StopReason::ProducersStopped)));
}

#[test]
fn events_of_the_other_phase_change_nothing() {
    let mut w = fresh_worker(0);
    assert!(matches!(w.step(WorkerEvent::Quote(sample_quote("AAPL")), 1), WorkerAction::Continue));
    assert!(matches!(w.phase, Phase::Receiving));
    w.step(WorkerEvent::NoDatagram, 2);
    assert!(matches!(w.step(ping_from("127.0.0.1:5000"), 3), WorkerAction::Continue));
    assert_eq!(w.last_ping, 0);
    assert!(matches!(w.phase, Phase::AwaitingQuote));
}

#[test]
fn ping_answered_to_its_own_sender_and_nothing_forwarded_without_tickets() {
    let mut w = Worker::new(Vec::new(), 0);
    match w.step(ping_from("127.0.0.1:5000"), 2_000_000_000) {
        WorkerAction::Pong(a) => assert_eq!(a, "127.0.0.1:5000"),
        _ => panic!("expected a pong"),
    }
    w.step(WorkerEvent::NoDatagram, 2_000_000_001);
    assert!(matches!(w.step(WorkerEvent::Quote(sample_quote("AAPL")), 2_000_000_002), WorkerAction::Skip));
}
