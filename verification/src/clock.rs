//! Wall-clock time and "how long ago" labels.
use vstd::prelude::*;
use std::time::{Duration, SystemTime};
use crate::text::{push_decimal, push_str, spec_decimal};

verus! {

#[verifier::external_type_specification]
#[verifier::external_body]
pub struct ExSystemTime(SystemTime);

/// Reads the system clock (`SystemTime::now`). Nothing is promised of the
/// reading.
#[verifier::external_body]
fn clock_now() -> SystemTime {
    SystemTime::now()
}

/// The time from the Unix epoch to `t` (`SystemTime::duration_since`), or
/// `None` where `t` lies before the epoch. Nothing is promised of the value.
#[verifier::external_body]
fn since_unix_epoch(t: &SystemTime) -> Option<Duration> {
    match t.duration_since(std::time::UNIX_EPOCH) {
        Ok(d) => Some(d),
        Err(_) => None,
    }
}

/// The whole seconds of a duration (`Duration::as_secs`).
#[verifier::external_body]
fn whole_seconds(d: &Duration) -> u64 {
    d.as_secs()
}

/// The timestamp for a clock reading: its whole seconds since the Unix epoch,
/// or 0 for a reading before the epoch (`None`).
pub fn secs_or_zero(since_epoch: Option<u64>) -> (r: u64)
    ensures
        r == match since_epoch {
            Some(s) => s,
            None => 0,
        },
{
    match since_epoch {
        Some(s) => s,
        None => 0,
    }
}

/// Seconds since the Unix epoch by the system clock, or 0 where the clock
/// reads a time before the epoch (see `secs_or_zero`).
pub fn now_secs() -> u64 {
    let since_epoch = match since_unix_epoch(&clock_now()) {
        Some(d) => Some(whole_seconds(&d)),
        None => None,
    };
    secs_or_zero(since_epoch)
}

/// The label for something `elapsed` seconds old: seconds under a minute,
/// minutes under an hour, hours under a day, days beyond.
pub open spec fn spec_elapsed_label(elapsed: u64) -> Seq<char> {
    if elapsed < 60 {
        spec_decimal(elapsed as nat) + " с назад"@
    } else if elapsed < 3600 {
        spec_decimal((elapsed / 60) as nat) + " мин назад"@
    } else if elapsed < 86400 {
        spec_decimal((elapsed / 3600) as nat) + " ч назад"@
    } else {
        spec_decimal((elapsed / 86400) as nat) + " дн назад"@
    }
}

/// Formats an age of `elapsed` seconds ("5 с назад", "3 мин назад", ...).
pub fn format_elapsed(elapsed: u64) -> (r: String)
    ensures
        r@ == spec_elapsed_label(elapsed),
{
    let mut s = String::new();
    if elapsed < 60 {
        push_decimal(&mut s, elapsed);
        push_str(&mut s, " с назад");
    } else if elapsed < 3600 {
        push_decimal(&mut s, elapsed / 60);
        push_str(&mut s, " мин назад");
    } else if elapsed < 86400 {
        push_decimal(&mut s, elapsed / 3600);
        push_str(&mut s, " ч назад");
    } else {
        push_decimal(&mut s, elapsed / 86400);
        push_str(&mut s, " дн назад");
    }
    assert(s@ =~= spec_elapsed_label(elapsed));
    s
}

/// The age label of the moment `ts` as seen at time `now`; a moment in the
/// future counts as 0 seconds old.
pub open spec fn spec_age_label(now: u64, ts: u64) -> Seq<char> {
    spec_elapsed_label(if now >= ts { (now - ts) as u64 } else { 0 })
}

/// The age label of the moment `ts` as seen at time `now`.
pub fn format_ago_at(now: u64, ts: u64) -> (r: String)
    ensures
        r@ == spec_age_label(now, ts),
{
    format_elapsed(now.saturating_sub(ts))
}

/// The age label of the moment `ts` (seconds since the Unix epoch), by the
/// system clock.
pub fn format_ago(ts: u64) -> (r: String)
    ensures
        exists|now: u64| r@ == #[trigger] spec_age_label(now, ts),
{
    let now = now_secs();
    format_ago_at(now, ts)
}

} // verus!
