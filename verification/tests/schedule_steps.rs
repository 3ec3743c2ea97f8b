use quote_stream::producer::{Schedule, ScheduleAction, ROUND_PERIOD_MS};

fn index_of(a: ScheduleAction) -> Option<usize> {
    match a {
        ScheduleAction::Generate(i) => Some(i),
        _ => None,
    }
}

#[test]
fn rounds_in_file_order_then_rest() {
    let mut s = Schedule::new(3);
    assert_eq!((s.n, s.next), (3, 0));
    for _round in 0..2 {
        assert_eq!(index_of(s.step(true)), Some(0));
        assert_eq!(index_of(s.step(true)), Some(1));
        assert_eq!(index_of(s.step(true)), Some(2));
        assert!(matches!(s.step(true), ScheduleAction::Sleep));
        assert_eq!(s.next, 0);
    }
    assert_eq!(ROUND_PERIOD_MS, 1000);
}

#[test]
fn stops_at_first_failed_send() {
    let mut s = Schedule::new(2);
    s.step(true);
    assert!(matches!(s.step(false), ScheduleAction::Stop));
}

#[test]
fn no_tickers_only_rests() {
    let mut s = Schedule::new(0);
    assert!(matches!(s.step(true), ScheduleAction::Sleep));
    assert!(matches!(s.step(true), ScheduleAction::Sleep));
}
