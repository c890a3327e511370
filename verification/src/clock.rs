//! The wall clock, read as microseconds since the Unix epoch (UTC).
use vstd::prelude::*;
use std::time::{Duration, SystemTime, UNIX_EPOCH};

verus! {

/// Makes `std::time::SystemTime` known to the verifier, as an opaque type.
#[verifier::external_type_specification]
#[verifier::external_body]
pub struct ExSystemTime(SystemTime);

/// Reads the system clock with `SystemTime::now`. The instant depends on when
/// the call is made, so nothing is stated of it.
#[verifier::external_body]
fn system_now() -> (t: SystemTime) {
    SystemTime::now()
}

/// `SystemTime::duration_since(UNIX_EPOCH)`: the distance of `t` from the
/// epoch, `Ok` when `t` is not before it, and otherwise the distance carried by
/// the error (`SystemTimeError::duration`). It does not panic; nothing is
/// stated of the distance, which depends on the instant read.
#[verifier::external_body]
fn duration_since_epoch(t: &SystemTime) -> (r: Result<Duration, Duration>) {
    t.duration_since(UNIX_EPOCH).map_err(|e| e.duration())
}

/// `Duration::as_secs`: the whole seconds of a duration; nothing is stated of
/// the value, as nothing is known of the duration.
#[verifier::external_body]
fn duration_secs(d: &Duration) -> (r: u64) {
    d.as_secs()
}

/// `Duration::subsec_micros`: the fractional part of a duration in whole
/// microseconds, which the documentation bounds below one second.
#[verifier::external_body]
fn duration_subsec_micros(d: &Duration) -> (r: u32)
    ensures
        r < 1_000_000,
{
    d.subsec_micros()
}

/// `x` limited to the range of `i64`.
pub open spec fn clamp_i64(x: int) -> int {
    if x > i64::MAX {
        i64::MAX as int
    } else if x < i64::MIN {
        i64::MIN as int
    } else {
        x
    }
}

/// The signed offset in microseconds of an instant `secs` seconds and
/// `subsec_micros` microseconds after the epoch (before it when
/// `before_epoch`), limited to the range of `i64`.
pub fn epoch_offset_micros(before_epoch: bool, secs: u64, subsec_micros: u32) -> (r: i64)
    requires
        subsec_micros < 1_000_000,
    ensures
        r == clamp_i64(
            if before_epoch {
                -(secs * 1_000_000 + subsec_micros)
            } else {
                secs * 1_000_000 + subsec_micros
            },
        ),
{
    // 2^63 / 10^6, rounded up: at or above it the offset leaves the range of `i64`.
    if secs >= 9_223_372_036_855 {
        proof {
            assert(secs * 1_000_000 >= 9_223_372_036_855 * 1_000_000) by (nonlinear_arith)
                requires
                    secs >= 9_223_372_036_855,
            ;
        }
        return if before_epoch {
            i64::MIN
        } else {
            i64::MAX
        };
    }
    proof {
        assert(secs * 1_000_000 <= 9_223_372_036_854 * 1_000_000) by (nonlinear_arith)
            requires
                secs <= 9_223_372_036_854,
        ;
    }
    let total: u64 = secs * 1_000_000 + subsec_micros as u64;
    if before_epoch {
        if total >= 9_223_372_036_854_775_808 {
            i64::MIN
        } else {
            -(total as i64)
        }
    } else {
        if total > 9_223_372_036_854_775_807 {
            i64::MAX
        } else {
            total as i64
        }
    }
}

/// The current time in microseconds since the Unix epoch, negative before it
/// and limited to the range of `i64`. What the clock reads is not stated.
pub(crate) fn now_micros() -> (t: i64) {
    let now = system_now();
    match duration_since_epoch(&now) {
        Ok(d) => {
            let secs = duration_secs(&d);
            let micros = duration_subsec_micros(&d);
            epoch_offset_micros(false, secs, micros)
        },
        Err(d) => {
            let secs = duration_secs(&d);
            let micros = duration_subsec_micros(&d);
            epoch_offset_micros(true, secs, micros)
        },
    }
}

} // verus!
