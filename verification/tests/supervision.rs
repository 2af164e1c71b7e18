// Tests for the supervisor's policy: state transitions, error-code
// classification with the real matching crate linked, the circuit breaker,
// and the advisory totals.
use wikicrawl::supervisor::CrashDecision;
use wikicrawl::supervisor::CrawlTotals;
use wikicrawl::supervisor::ErrorCounter;
use wikicrawl::supervisor::SupervisorEvent;
use wikicrawl::supervisor::SupervisorState;
use wikicrawl::supervisor::crash_decision;
use wikicrawl::supervisor::supervisor_step;

#[test]
fn supervisor_walks_its_transition_table() {
    let s = supervisor_step(SupervisorState::Idle, SupervisorEvent::Start);
    assert!(matches!(s, SupervisorState::Running));
    let s = supervisor_step(s, SupervisorEvent::CycleCompleted);
    assert!(matches!(s, SupervisorState::Running));
    let s = supervisor_step(s, SupervisorEvent::CycleError);
    assert!(matches!(s, SupervisorState::Crashed));
    let s = supervisor_step(s, SupervisorEvent::CrashRetried);
    assert!(matches!(s, SupervisorState::Running));
    let s = supervisor_step(s, SupervisorEvent::FrontierEmpty);
    assert!(matches!(s, SupervisorState::Completed));
}

#[test]
fn cancellation_is_observed_at_loop_boundaries() {
    let s = supervisor_step(SupervisorState::Running, SupervisorEvent::CancelObserved);
    assert!(matches!(s, SupervisorState::Cancelled));
    // Terminal states absorb further events.
    let s = supervisor_step(s, SupervisorEvent::Start);
    assert!(matches!(s, SupervisorState::Cancelled));
}

#[test]
fn circuit_breaker_trips_over_the_threshold() {
    assert!(matches!(crash_decision(3), CrashDecision::RetryAfterDelay));
    assert!(matches!(crash_decision(4), CrashDecision::StopPermanently));
}

#[test]
fn repeated_same_error_stops_permanently() {
    let mut counter = ErrorCounter::new();
    let message = "WIKICRAWL CRASHED: ERROR 1064 (42000): You have an error in your SQL syntax";
    for _ in 0..3 {
        assert!(matches!(counter.on_crash(message), CrashDecision::RetryAfterDelay));
    }
    assert!(matches!(counter.on_crash(message), CrashDecision::StopPermanently));
}

#[test]
fn different_error_codes_count_separately() {
    let mut counter = ErrorCounter::new();
    let first = "ERROR 1064 (42000): syntax";
    let second = "ERROR 2006 (HY000): server has gone away";
    for _ in 0..3 {
        assert!(matches!(counter.on_crash(first), CrashDecision::RetryAfterDelay));
    }
    // A different code starts from its own count.
    assert!(matches!(counter.on_crash(second), CrashDecision::RetryAfterDelay));
    assert!(matches!(counter.on_crash(first), CrashDecision::StopPermanently));
}

#[test]
fn message_without_code_stops_permanently() {
    let mut counter = ErrorCounter::new();
    let decision = counter.on_crash("No unexplored pages found");
    assert!(matches!(decision, CrashDecision::StopPermanently));
    assert_eq!(counter.counts.len(), 0);
}

#[test]
fn totals_advance_additively() {
    let mut totals = CrawlTotals::new(10, 2, 100, 500);
    totals.advance(5, 1, 7, 30);
    assert_eq!(totals.explored, 15);
    assert_eq!(totals.bugged, 3);
    assert_eq!(totals.pages, 107);
    assert_eq!(totals.links, 530);
}

#[test]
fn totals_saturate_instead_of_wrapping() {
    let mut totals = CrawlTotals::new(usize::MAX - 1, 0, 0, 0);
    totals.advance(5, 0, 0, 0);
    assert_eq!(totals.explored, usize::MAX);
}
