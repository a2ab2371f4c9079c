//! The crash-recovery snapshot timing decisions: the idle debounce, which grows
//! with document size, and the maximum-latency cap that bounds what a crash can
//! cost however continuously the user types.

use vstd::prelude::*;

verus! {

/// Debounce at or below [`SMALL_DOCUMENT_BYTES`], in milliseconds.
pub const MIN_DEBOUNCE_MS: u64 = 3000;

/// Debounce at or above [`LARGE_DOCUMENT_BYTES`], in milliseconds.
pub const MAX_DEBOUNCE_MS: u64 = 30000;

/// Below this, a snapshot is cheap enough that only the typing burst matters.
pub const SMALL_DOCUMENT_BYTES: usize = 1048576;

/// At and above this, snapshot cost dominates; the document size ceiling.
pub const LARGE_DOCUMENT_BYTES: usize = 67108864;

/// The longest a document may stay dirty without being snapshotted, in
/// milliseconds.
pub const MAX_LATENCY_MS: u64 = 30000;

/// The idle debounce for a document of `bytes` bytes: linear between the two
/// anchor sizes and clamped at both ends.
pub open spec fn debounce(bytes: nat) -> nat {
    if bytes <= SMALL_DOCUMENT_BYTES {
        MIN_DEBOUNCE_MS as nat
    } else if bytes >= LARGE_DOCUMENT_BYTES {
        MAX_DEBOUNCE_MS as nat
    } else {
        (MIN_DEBOUNCE_MS + (MAX_DEBOUNCE_MS - MIN_DEBOUNCE_MS) * (bytes - SMALL_DOCUMENT_BYTES) / (
        LARGE_DOCUMENT_BYTES - SMALL_DOCUMENT_BYTES) as int) as nat
    }
}

/// `now` subtracted from `deadline`, saturating at the bounds of `i64`.
pub open spec fn saturating_gap(deadline: i64, now: i64) -> int {
    let d = deadline - now;
    if d > i64::MAX {
        i64::MAX as int
    } else if d < i64::MIN {
        i64::MIN as int
    } else {
        d
    }
}

/// Whole milliseconds left before `deadline` (microseconds), never negative.
pub open spec fn remaining_ms(now: i64, deadline: i64) -> nat {
    let gap = saturating_gap(deadline, now);
    if gap <= 0 {
        0
    } else {
        (gap / 1000) as nat
    }
}

/// The idle debounce for a document of `bytes` bytes, in milliseconds: three
/// seconds at ordinary sizes, growing linearly to thirty at the size ceiling.
pub fn debounce_ms(bytes: usize) -> (ms: u64)
    ensures
        ms == debounce(bytes as nat),
        MIN_DEBOUNCE_MS <= ms <= MAX_DEBOUNCE_MS,
{
    if bytes <= SMALL_DOCUMENT_BYTES {
        return MIN_DEBOUNCE_MS;
    }
    if bytes >= LARGE_DOCUMENT_BYTES {
        return MAX_DEBOUNCE_MS;
    }
    let span = (LARGE_DOCUMENT_BYTES - SMALL_DOCUMENT_BYTES) as u64;
    let over = (bytes - SMALL_DOCUMENT_BYTES) as u64;
    assert((MAX_DEBOUNCE_MS - MIN_DEBOUNCE_MS) * over <= 27000 * 66060288) by (nonlinear_arith)
        requires
            over < 66060288,
    ;
    let scaled = (MAX_DEBOUNCE_MS - MIN_DEBOUNCE_MS) * over;
    assert(scaled / span <= 27000) by (nonlinear_arith)
        requires
            scaled <= 27000 * 66060288,
            span == 66060288,
    ;
    MIN_DEBOUNCE_MS + scaled / span
}

/// How long to wait before the next snapshot attempt: the idle debounce,
/// shortened where necessary so the deadline is not overrun, `0` meaning "the
/// cap has already expired, snapshot now". Times are monotonic microseconds;
/// the subtraction saturates, so a deadline far in the past cannot wrap.
pub fn next_delay_ms(bytes: usize, now_us: i64, deadline_us: Option<i64>) -> (ms: u64)
    ensures
        ms == match deadline_us {
            None => debounce(bytes as nat),
            Some(deadline) => if debounce(bytes as nat) <= remaining_ms(now_us, deadline) {
                debounce(bytes as nat)
            } else {
                remaining_ms(now_us, deadline)
            },
        },
{
    let debounce = debounce_ms(bytes);
    match deadline_us {
        None => debounce,
        Some(deadline) => {
            let wide: i128 = deadline as i128 - now_us as i128;
            let gap: i128 = if wide > i64::MAX as i128 {
                i64::MAX as i128
            } else if wide < i64::MIN as i128 {
                i64::MIN as i128
            } else {
                wide
            };
            let remaining: u64 = if gap <= 0 {
                0
            } else {
                (gap / 1000) as u64
            };
            if debounce <= remaining {
                debounce
            } else {
                remaining
            }
        },
    }
}

/// The debounce never shrinks as a document grows.
pub proof fn law_debounce_grows_monotonically(a: nat, b: nat)
    requires
        a <= b,
    ensures
        debounce(a) <= debounce(b),
{
    if a > SMALL_DOCUMENT_BYTES && b < LARGE_DOCUMENT_BYTES {
        let span = (LARGE_DOCUMENT_BYTES - SMALL_DOCUMENT_BYTES) as int;
        let x = a - SMALL_DOCUMENT_BYTES;
        let y = b - SMALL_DOCUMENT_BYTES;
        assert(27000 * x <= 27000 * y) by (nonlinear_arith)
            requires
                x <= y,
        ;
        assert((27000 * x) / span <= (27000 * y) / span) by (nonlinear_arith)
            requires
                27000 * x <= 27000 * y,
                span > 0,
        ;
    } else if a > SMALL_DOCUMENT_BYTES && a < LARGE_DOCUMENT_BYTES {
        let span = (LARGE_DOCUMENT_BYTES - SMALL_DOCUMENT_BYTES) as int;
        let x = a - SMALL_DOCUMENT_BYTES;
        assert((27000 * x) / span <= 27000) by (nonlinear_arith)
            requires
                0 <= x < span,
                span > 0,
        ;
    } else if b > SMALL_DOCUMENT_BYTES && b < LARGE_DOCUMENT_BYTES {
        let span = (LARGE_DOCUMENT_BYTES - SMALL_DOCUMENT_BYTES) as int;
        let y = b - SMALL_DOCUMENT_BYTES;
        assert((27000 * y) / span >= 0) by (nonlinear_arith)
            requires
                0 <= y,
                span > 0,
        ;
    }
}

/// The delay never exceeds the debounce, and never overruns an outstanding
/// deadline.
pub proof fn law_the_cap_bounds_the_delay(bytes: nat, now: i64, deadline: i64)
    ensures
        ({
            let ms = if debounce(bytes) <= remaining_ms(now, deadline) {
                debounce(bytes)
            } else {
                remaining_ms(now, deadline)
            };
            ms <= debounce(bytes) && ms <= remaining_ms(now, deadline)
        }),
        deadline <= now ==> remaining_ms(now, deadline) == 0,
{
}

} // verus!
