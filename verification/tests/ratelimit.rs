use rayfish::ratelimit::{ControlGate, Verdict, CAPACITY};
use std::time::{Duration, Instant};

#[test]
fn admits_a_burst_up_to_capacity() {
    let mut gate = ControlGate::with_params(5, 1, 100);
    // The initial bucket holds `capacity` tokens, all admitted instantly.
    for _ in 0..5 {
        assert_eq!(gate.check(), Verdict::Allow);
    }
    // The next message has no token left this instant: dropped, not closed.
    assert_eq!(gate.check(), Verdict::Drop);
}

#[test]
fn sustained_flood_trips_close() {
    let mut gate = ControlGate::with_params(3, 1, 10);
    // Drain the bucket.
    for _ in 0..3 {
        assert_eq!(gate.check(), Verdict::Allow);
    }
    // Keep hammering with no refill: strikes climb to the limit, then Close.
    let mut verdicts = Vec::new();
    for _ in 0..20 {
        verdicts.push(gate.check());
    }
    assert!(
        verdicts.contains(&Verdict::Close),
        "expected a Close verdict under sustained flood"
    );
}

#[test]
fn strikes_decay_so_a_chatty_peer_is_never_closed() {
    // A run of admits drives strikes back down to zero, so an earlier short
    // burst of drops can never accumulate into a Close.
    let mut gate = ControlGate::with_params(2, 1, 5);
    gate.strikes = 4; // simulate a prior near-miss burst
    // Two admitted messages (capacity 2) decay strikes by two.
    assert_eq!(gate.check(), Verdict::Allow);
    assert_eq!(gate.check(), Verdict::Allow);
    assert_eq!(gate.strikes, 2);
    // The next over-budget message is a Drop (strikes 3 < limit 5), not Close.
    assert_eq!(gate.check(), Verdict::Drop);
}

#[test]
fn the_default_gate_takes_its_capacity() {
    let mut gate = ControlGate::default();
    for _ in 0..CAPACITY {
        assert_eq!(gate.check_after(0), Verdict::Allow);
    }
    assert_eq!(gate.check_after(0), Verdict::Drop);
}

#[test]
fn a_token_comes_back_after_exactly_its_time() {
    let mut gate = ControlGate::with_params(1, 2, 100);
    assert_eq!(gate.check_after(0), Verdict::Allow);
    assert_eq!(gate.check_after(499_999_999), Verdict::Drop);
    assert_eq!(gate.check_after(1), Verdict::Allow);
    assert_eq!(gate.check_after(0), Verdict::Drop);
}

#[test]
fn the_bucket_never_holds_more_than_its_capacity() {
    let mut gate = ControlGate::with_params(2, 1_000_000, 100);
    assert_eq!(gate.check_after(u128::MAX), Verdict::Allow);
    assert_eq!(gate.check_after(0), Verdict::Allow);
    assert_eq!(gate.check_after(0), Verdict::Drop);
}

#[test]
fn no_window_admits_more_than_capacity_and_refill() {
    let mut gate = ControlGate::with_params(2, 1, 100);
    // A long quiet spell before the window is worth no more than a full bucket.
    let intervals = [60_000_000_000u128, 0, 0, 500_000_000, 500_000_000, 0];
    let admitted = intervals
        .iter()
        .filter(|nanos| gate.check_after(**nanos) == Verdict::Allow)
        .count();
    assert_eq!(admitted, 3);
}

#[test]
fn the_limit_closes_and_not_before() {
    let mut gate = ControlGate::with_params(0, 0, 3);
    assert_eq!(gate.check_after(0), Verdict::Drop);
    assert_eq!(gate.check_after(0), Verdict::Drop);
    assert_eq!(gate.check_after(0), Verdict::Close);
    gate.strikes = u32::MAX;
    assert_eq!(gate.check_after(0), Verdict::Close);
    assert_eq!(gate.strikes, u32::MAX);
}

#[test]
fn time_that_passes_is_counted() {
    let mut gate = ControlGate::with_params(1, 1_000, 100);
    assert_eq!(gate.check(), Verdict::Allow);
    let start = std::time::Instant::now();
    while start.elapsed().as_millis() < 20 {}
    assert_eq!(gate.check(), Verdict::Allow);
}

#[test]
fn tokens_accrue_up_to_the_reading_of_the_clock() {
    let mut gate = ControlGate::with_params(1, 2, 100);
    let start = Instant::now();
    assert_eq!(gate.check_at(start), Verdict::Allow);
    assert_eq!(gate.check_at(start), Verdict::Drop);
    // A token takes half a second.
    assert_eq!(gate.check_at(start + Duration::from_millis(499)), Verdict::Drop);
    assert_eq!(gate.check_at(start + Duration::from_millis(500)), Verdict::Allow);
    // The time before is spent: the next token takes as long again.
    assert_eq!(gate.check_at(start + Duration::from_millis(999)), Verdict::Drop);
    assert_eq!(gate.check_at(start + Duration::from_millis(1000)), Verdict::Allow);
    assert_eq!(gate.strikes, 1);
}

#[test]
fn a_clock_that_reads_earlier_brings_nothing() {
    let mut gate = ControlGate::with_params(1, 1, 100);
    let start = Instant::now();
    let later = start + Duration::from_secs(10);
    assert_eq!(gate.check_at(later), Verdict::Allow);
    assert_eq!(gate.check_at(start), Verdict::Drop);
}
