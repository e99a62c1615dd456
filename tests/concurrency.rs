use rollcron::concurrency::{on_finish, on_trigger, Concurrency, RunState, TriggerDecision};

#[test]
fn skip_drops_trigger_while_running() {
    let mut s = RunState::idle();
    assert_eq!(on_trigger(Concurrency::Skip, &mut s), TriggerDecision::Start);
    for _ in 0..5 {
        assert_eq!(on_trigger(Concurrency::Skip, &mut s), TriggerDecision::Drop);
        assert_eq!(s, RunState { running: 1, pending: false });
    }
    assert!(!on_finish(&mut s));
    assert_eq!(s, RunState::idle());
}

#[test]
fn queue_coalesces_a_burst() {
    let mut s = RunState::idle();
    let mut runs = 0;
    if on_trigger(Concurrency::Queue, &mut s) == TriggerDecision::Start {
        runs += 1;
    }
    for _ in 0..10 {
        assert_eq!(on_trigger(Concurrency::Queue, &mut s), TriggerDecision::Defer);
    }
    assert_eq!(s, RunState { running: 1, pending: true });
    if on_finish(&mut s) {
        runs += 1;
    }
    assert_eq!(s, RunState { running: 1, pending: false });
    if on_finish(&mut s) {
        runs += 1;
    }
    assert_eq!(runs, 2);
    assert_eq!(s, RunState::idle());
}

#[test]
fn parallel_starts_alongside() {
    let mut s = RunState::idle();
    for _ in 0..3 {
        assert_eq!(on_trigger(Concurrency::Parallel, &mut s), TriggerDecision::Start);
    }
    assert_eq!(s.running, 3);
    assert!(!on_finish(&mut s));
    assert_eq!(s.running, 2);
    let mut full = RunState { running: u32::MAX, pending: false };
    assert_eq!(on_trigger(Concurrency::Parallel, &mut full), TriggerDecision::Drop);
}

#[test]
fn stale_finish_changes_nothing() {
    let mut s = RunState::idle();
    assert!(!on_finish(&mut s));
    assert_eq!(s, RunState::idle());
}
