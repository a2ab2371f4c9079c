//! Tests of the atomic-save round-trip guard.

use scribobulate::selfdelete::{SelfDeleteGuard, SwallowReason};


#[test]
fn self_delete_guard_starts_disarmed() {
    let mut g = SelfDeleteGuard::default();
    assert!(!g.consume());
}

#[test]
fn self_delete_guard_arm_then_consume_returns_true_once() {
    let mut g = SelfDeleteGuard::default();
    g.arm();
    assert!(g.consume());
    // Consuming disarms — a second consume without re-arming is a
    // genuine external event, not a swallowed self-write.
    assert!(!g.consume());
}

/// The Windows sequence, MEASURED: one arm, then TWO `Deleted`s during the write.
/// Both must be swallowed. Mutation guard: drop the `|| write_in_flight` and the
/// second assertion fails, which is the shipped bug.
#[test]
fn both_deletes_of_a_two_event_rename_are_swallowed_while_the_write_is_in_flight() {
    let mut g = SelfDeleteGuard::default();
    g.arm();
    assert!(
        g.swallows(true).is_some(),
        "first Deleted: consumed by the one-shot flag"
    );
    assert!(
        g.swallows(true).is_some(),
        "second Deleted of the SAME rename must not read as an external deletion"
    );
}

/// The macOS path: a lone `DELETED` with no write in flight by the time it lands
/// must still consume the flag, or the guard stays armed and eats the next genuine
/// external delete.
#[test]
fn a_lone_delete_consumes_the_flag_even_with_no_write_in_flight() {
    let mut g = SelfDeleteGuard::default();
    g.arm();
    assert!(g.swallows(false).is_some());
    assert!(
        g.swallows(false).is_none(),
        "the flag must not survive the event it explained"
    );
}

/// **QA M23/M67 — the one cell where a GENUINELY EXTERNAL deletion is suppressed.**
///
/// Unarmed guard, write in flight: nothing this application armed explains the event,
/// and it is swallowed anyway on the presumption that it is the Windows surplus. That
/// is the deliberate trade the doc above describes — our own write re-creates the file
/// microseconds later — but it was the only cell of the matrix with no test, and the
/// two arms were indistinguishable from outside because `swallows` returned a bool.
///
/// It now names WHICH arm fired, which is what makes the suppression visible in a log
/// to someone debugging "my file vanished and nothing said so".
#[test]
fn a_write_in_flight_swallows_an_unexplained_delete_and_says_which_arm_did_it() {
    let mut g = SelfDeleteGuard::default();
    assert_eq!(
        g.swallows(true),
        Some(SwallowReason::WriteInFlight),
        "the fallback arm must fire, and be distinguishable from an armed self-delete"
    );

    let mut armed = SelfDeleteGuard::default();
    armed.arm();
    assert_eq!(
        armed.swallows(true),
        Some(SwallowReason::OwnArmedWrite),
        "an armed flag is consumed FIRST — the short-circuit order is load-bearing"
    );
}

/// A genuine external deletion, with nothing armed and nothing being written, still
/// surfaces — the fallback must not become a blanket suppressor.
#[test]
fn an_unarmed_guard_with_no_write_in_flight_surfaces_the_deletion() {
    let mut g = SelfDeleteGuard::default();
    assert!(g.swallows(false).is_none());
}

#[test]
fn self_delete_guard_disarm_after_arm_prevents_consume() {
    let mut g = SelfDeleteGuard::default();
    g.arm();
    g.disarm();
    assert!(!g.consume());
}
