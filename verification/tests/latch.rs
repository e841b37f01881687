use seekr::shutdown::{Latch, ShutdownState};

#[test]
fn latch_starts_fresh() {
    let latch = Latch::new();
    assert!(!latch.is_shutdown());
    assert_eq!(latch.state(), ShutdownState::NotStarted);
    assert_eq!(latch.state().to_str(), "NotStarted");
}

#[test]
fn begin_signals_shutdown() {
    let mut latch = Latch::new();
    latch.begin();
    assert!(latch.is_shutdown());
    assert_eq!(latch.state(), ShutdownState::Started);
    assert_eq!(latch.state().to_str(), "Started");
}

#[test]
fn begin_twice_same_as_once() {
    let mut once = Latch::new();
    once.begin();
    let mut twice = Latch::new();
    twice.begin();
    twice.begin();
    assert_eq!(once.state(), twice.state());
}

#[test]
fn complete_after_begin_is_terminal() {
    let mut latch = Latch::new();
    latch.begin();
    latch.complete();
    assert!(latch.is_shutdown());
    assert_eq!(latch.state(), ShutdownState::Complete);
    assert_eq!(latch.state().to_str(), "Complete");
    latch.complete();
    assert_eq!(latch.state(), ShutdownState::Complete);
    latch.begin();
    assert_eq!(latch.state(), ShutdownState::Complete);
}
