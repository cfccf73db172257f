//! Expiry of cached decisions.
use vstd::prelude::*;

verus! {

/// Smallest time to live, in minutes; a configured zero becomes this.
pub const MIN_TTL_MINUTES: u64 = 1;

/// Seconds an entry lives: at least one minute, `None` when the product
/// does not fit a signed 64-bit number.
pub open spec fn ttl_seconds_spec(ttl_minutes: u64) -> Option<i64> {
    let m = if ttl_minutes == 0 {
        1
    } else {
        ttl_minutes as int
    };
    if m * 60 <= i64::MAX {
        Some((m * 60) as i64)
    } else {
        None
    }
}

pub fn ttl_seconds(ttl_minutes: u64) -> (r: Option<i64>)
    ensures
        r == ttl_seconds_spec(ttl_minutes),
{
    let m: u64 = if ttl_minutes == 0 {
        MIN_TTL_MINUTES
    } else {
        ttl_minutes
    };
    if m > 153722867280912930 {
        return None;
    }
    Some((m * 60) as i64)
}

/// When an entry written at `now` expires; `None` on overflow.
pub fn expiry_for(now: i64, ttl_seconds: i64) -> (r: Option<i64>)
    requires
        ttl_seconds > 0,
    ensures
        match r {
            Some(t) => t == now + ttl_seconds,
            None => now + ttl_seconds > i64::MAX,
        },
{
    if now > i64::MAX - ttl_seconds {
        None
    } else {
        Some(now + ttl_seconds)
    }
}

/// An entry is served while its expiry lies after `now`.
pub open spec fn live_spec(expires_at: i64, now: i64) -> bool {
    now < expires_at
}

pub fn entry_is_live(expires_at: i64, now: i64) -> (r: bool)
    ensures
        r == live_spec(expires_at, now),
{
    now < expires_at
}

} // verus!
