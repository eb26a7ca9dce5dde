use salvo_core_runtime::lifecycle::{Lifecycle, Phase};

#[test]
fn drain_refuses_and_waits() {
    let mut l = Lifecycle::new(Some(30));
    assert!(l.accept());
    assert!(l.accept());
    assert!(l.signal(100));
    assert_eq!(l.phase, Phase::Draining);
    assert_eq!(l.deadline, Some(130));
    assert!(!l.accept());
    assert_eq!(l.in_flight, 2);
    l.complete();
    assert_eq!(l.phase, Phase::Draining);
    assert!(!l.tick(129));
    l.complete();
    assert_eq!(l.phase, Phase::Stopped);
}

#[test]
fn deadline_forces_stop() {
    let mut l = Lifecycle::new(Some(5));
    assert!(l.accept());
    l.signal(10);
    assert!(!l.tick(14));
    assert!(l.tick(15));
    assert!(l.is_stopped());
}

#[test]
fn second_signal_ignored() {
    let mut l = Lifecycle::new(None);
    assert!(l.accept());
    assert!(l.signal(1));
    assert!(!l.signal(2));
    assert_eq!(l.phase, Phase::Draining);
    assert_eq!(l.deadline, None);
    assert!(!l.tick(u64::MAX));
}

#[test]
fn idle_signal_stops_at_once() {
    let mut l = Lifecycle::new(Some(3));
    assert!(l.signal(0));
    assert!(l.is_stopped());
    assert!(!l.accept());
}

#[test]
fn deadline_overflow_means_none() {
    let mut l = Lifecycle::new(Some(10));
    l.accept();
    l.signal(u64::MAX - 1);
    assert_eq!(l.deadline, None);
}
