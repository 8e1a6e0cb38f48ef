//! Clock-of-day text `HH:MM:SS` used to stamp chat messages.

use vstd::prelude::*;
use crate::text::{two_digits, push_two_digits};
use std::time::{Duration, SystemTime};

verus! {

/// `HH:MM:SS` for the given hour, minute and second.
pub open spec fn clock_text(h: int, m: int, s: int) -> Seq<char> {
    two_digits(h) + seq![':'] + two_digits(m) + seq![':'] + two_digits(s)
}

/// The clock of day (UTC) of a count of seconds since the Unix epoch.
pub open spec fn clock_of_day(secs: nat) -> (int, int, int) {
    let in_day: int = (secs % 86_400) as int;
    (in_day / 3_600, (in_day % 3_600) / 60, in_day % 60)
}

/// The text that `timestamp_at(secs)` returns.
pub open spec fn utc_clock_text(secs: nat) -> Seq<char> {
    let (h, m, s) = clock_of_day(secs);
    clock_text(h, m, s)
}

/// The UTC clock text of any second count is a well-formed reading, and the
/// clock repeats every day.
pub proof fn law_utc_clock_is_a_daily_reading(secs: nat)
    ensures
        is_clock_reading(utc_clock_text(secs)),
        utc_clock_text(secs + 86_400) == utc_clock_text(secs),
{
    let (h, m, s) = clock_of_day(secs);
    assert(0 <= h < 24 && 0 <= m < 60 && 0 <= s <= 60);
    assert(utc_clock_text(secs) == clock_text(h, m, s));
    assert((secs + 86_400) % 86_400 == secs % 86_400) by {
        vstd::arithmetic::div_mod::lemma_mod_add_multiples_vanish(secs as int, 86_400);
    }
}

/// Formats a clock of day as `HH:MM:SS`.
pub fn format_clock(h: u64, m: u64, s: u64) -> (res: String)
    requires
        h < 100,
        m < 100,
        s < 100,
    ensures
        res@ == clock_text(h as int, m as int, s as int),
{
    let mut res = String::new();
    push_two_digits(&mut res, h);
    crate::text::push_char(&mut res, ':');
    push_two_digits(&mut res, m);
    crate::text::push_char(&mut res, ':');
    push_two_digits(&mut res, s);
    res
}

/// The UTC clock of day, as `HH:MM:SS`, of `secs` seconds after the Unix epoch.
pub fn timestamp_at(secs: u64) -> (res: String)
    ensures
        res@ == utc_clock_text(secs as nat),
{
    let in_day = secs % 86_400;
    let hours = in_day / 3_600;
    let minutes = (in_day % 3_600) / 60;
    let seconds = in_day % 60;
    format_clock(hours, minutes, seconds)
}

/// `std::time::SystemTime`, carried through opaquely.
#[verifier::external_type_specification]
#[verifier::external_body]
pub struct ExSystemTime(SystemTime);

/// `std::time::SystemTime::now`: the current system time. Nothing is promised
/// of the value, which depends on the machine's clock.
#[verifier::external_body]
fn system_now() -> SystemTime {
    SystemTime::now()
}

/// `SystemTime::duration_since(UNIX_EPOCH)`: the time elapsed since the Unix
/// epoch, or `None` when the clock reads a time before it. Nothing more is
/// promised: the value depends on the clock.
#[verifier::external_body]
fn since_unix_epoch(t: &SystemTime) -> Option<Duration> {
    t.duration_since(SystemTime::UNIX_EPOCH).ok()
}

/// `Duration::as_secs`: the whole seconds of a duration. The duration is
/// opaque here, so nothing is stated of the number.
#[verifier::external_body]
fn whole_seconds(d: &Duration) -> u64 {
    d.as_secs()
}

/// Seconds since the Unix epoch by the system clock, `0` when the clock
/// reads a time before the epoch.
fn unix_seconds() -> u64 {
    let now = system_now();
    match since_unix_epoch(&now) {
        Some(d) => whole_seconds(&d),
        None => 0,
    }
}

/// The current UTC clock of day as `HH:MM:SS`, read from the system clock.
pub fn timestamp() -> (res: String)
    ensures
        exists|secs: u64| res@ == utc_clock_text(secs as nat),
{
    let secs = unix_seconds();
    timestamp_at(secs)
}

/// The current UTC clock of day as `HH:MM:SS`, read from the system clock.
pub fn get_timestamp() -> (res: String)
    ensures
        exists|secs: u64| res@ == utc_clock_text(secs as nat),
{
    let secs = unix_seconds();
    timestamp_at(secs)
}

/// A well-formed `%H:%M:%S` reading: two-digit hour 00-23, minute 00-59 and
/// second 00-60 (60 for a leap second), separated by colons.
pub open spec fn is_clock_reading(t: Seq<char>) -> bool {
    exists|h: int, m: int, s: int|
        0 <= h < 24 && 0 <= m < 60 && 0 <= s <= 60 && t == #[trigger] clock_text(h, m, s)
}

} // verus!
