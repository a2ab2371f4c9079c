//! Tests of the snapshot debounce and latency cap.

use scribobulate::swap::{debounce_ms, next_delay_ms, MAX_LATENCY_MS};

const MIB: usize = 1 << 20;


#[test]
fn an_ordinary_document_uses_the_three_second_debounce() {
    assert_eq!(debounce_ms(0), 3_000);
    assert_eq!(debounce_ms(4_000), 3_000);
    assert_eq!(debounce_ms(MIB), 3_000);
}

#[test]
fn a_document_at_the_size_ceiling_uses_the_long_debounce() {
    assert_eq!(debounce_ms(64 * MIB), 30_000);
    assert_eq!(
        debounce_ms(usize::MAX),
        30_000,
        "clamped, never overflowing"
    );
}

#[test]
fn the_debounce_grows_monotonically_with_size() {
    let mut previous = 0;
    for mib in [0usize, 1, 2, 8, 16, 32, 64, 128] {
        let ms = debounce_ms(mib * MIB);
        assert!(
            ms >= previous,
            "debounce fell from {previous} to {ms} at {mib} MiB"
        );
        previous = ms;
    }
}

#[test]
fn with_no_deadline_the_delay_is_just_the_debounce() {
    assert_eq!(next_delay_ms(0, 1_000_000, None), 3_000);
}

#[test]
fn a_far_deadline_does_not_shorten_the_debounce() {
    let now = 1_000_000;
    let deadline = now + (MAX_LATENCY_MS as i64) * 1_000;
    assert_eq!(next_delay_ms(0, now, Some(deadline)), 3_000);
}

#[test]
fn a_near_deadline_shortens_the_debounce() {
    // The continuous-typing case: each keystroke re-arms the 3 s debounce, but the
    // cap must still land on time.
    let now = 1_000_000;
    let deadline = now + 500 * 1_000; // 500 ms away
    assert_eq!(next_delay_ms(0, now, Some(deadline)), 500);
}

#[test]
fn an_expired_deadline_asks_for_an_immediate_snapshot() {
    let now = 10_000_000;
    assert_eq!(next_delay_ms(0, now, Some(now - 5_000_000)), 0);
}

#[test]
fn a_deadline_far_in_the_past_does_not_wrap_or_panic() {
    // Saturating arithmetic: the failure this guards is a negative duration read as
    // an enormous unsigned one, which would silently disable the cap forever.
    assert_eq!(next_delay_ms(0, i64::MAX, Some(i64::MIN)), 0);
}
