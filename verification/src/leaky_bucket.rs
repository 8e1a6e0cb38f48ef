//! A leaky-bucket rate limiter. Each admitted request pours one request's
//! worth of water into the bucket; the bucket leaks at a fixed rate since the
//! previous check; a request that would overflow it is refused.
//!
//! Capacity and leak rate are given in billionths of a request (the leak rate
//! per second), so fractional settings such as half a request per second are
//! exact. Water is kept in quintillionths (10^-18) of a request and time in
//! nanoseconds, so a leak rate of `r` billionths per second drains exactly `r`
//! quintillionths per nanosecond.

use vstd::prelude::*;
use std::time::{Duration, Instant};

verus! {

/// Quintillionths of a request in one request: the water one request pours in.
pub open spec fn unit() -> nat {
    1_000_000_000_000_000_000
}

/// Quintillionths per billionth: converts a capacity to water.
pub open spec fn scale() -> nat {
    1_000_000_000
}

/// The mathematical state of a bucket: its capacity (billionths of a
/// request), its leak rate (billionths of a request per second), the water it
/// holds (quintillionths of a request) and the time of its last check
/// (nanoseconds on the bucket's own clock).
pub struct BucketState {
    pub capacity: nat,
    pub leak_rate: nat,
    pub water: nat,
    pub last_check: nat,
}

/// The water left after `elapsed_ns` nanoseconds of leaking, never below zero.
pub open spec fn leak(water: nat, elapsed_ns: nat, leak_rate: nat) -> nat {
    if water >= elapsed_ns * leak_rate {
        (water - elapsed_ns * leak_rate) as nat
    } else {
        0
    }
}

/// One request, `elapsed_ns` after the previous check: the bucket leaks, then
/// the request is admitted (one request's water poured in) when it fits,
/// refused otherwise. The check time is left as it was.
pub open spec fn bucket_step(b: BucketState, elapsed_ns: nat) -> (BucketState, bool) {
    let w = leak(b.water, elapsed_ns, b.leak_rate);
    if w + unit() > b.capacity * scale() {
        (BucketState { water: w, ..b }, false)
    } else {
        (BucketState { water: w + unit(), ..b }, true)
    }
}

/// `a - b`, or 0 when `b` is larger.
pub open spec fn sat_sub(a: nat, b: nat) -> nat {
    if a >= b {
        (a - b) as nat
    } else {
        0
    }
}

/// One request checked at time `now_ns`: the bucket leaks for the time since
/// its last check (none if the clock reads earlier), decides the request, and
/// its last check moves to `now_ns`.
pub open spec fn bucket_check(b: BucketState, now_ns: nat) -> (BucketState, bool) {
    let (after, allowed) = bucket_step(b, sat_sub(now_ns, b.last_check));
    (BucketState { last_check: now_ns, ..after }, allowed)
}

/// The water of a bucket never exceeds its capacity.
pub open spec fn bucket_wf(b: BucketState) -> bool {
    b.water <= b.capacity * scale()
}

/// Requests checked at the given times, in order: the bucket at the end and
/// the number of requests admitted.
pub open spec fn run_checks(b: BucketState, times: Seq<nat>) -> (BucketState, nat)
    decreases times.len(),
{
    if times.len() == 0 {
        (b, 0)
    } else {
        let (b1, admitted) = bucket_check(b, times[0]);
        let (b2, n) = run_checks(b1, times.drop_first());
        (b2, if admitted { n + 1 } else { n })
    }
}

/// Times that never go back, none before `start`.
pub open spec fn ascending_from(start: nat, times: Seq<nat>) -> bool {
    &&& forall|i: int| 0 <= i < times.len() ==> start <= #[trigger] times[i]
    &&& forall|i: int, j: int| 0 <= i <= j < times.len() ==> times[i] <= times[j]
}

/// The whole requests a capacity holds.
pub open spec fn whole_requests(capacity: nat) -> nat {
    capacity / scale()
}

pub open spec fn min(a: nat, b: nat) -> nat {
    if a <= b { a } else { b }
}

/// Every request keeps the water within the capacity and keeps the settings.
pub proof fn law_check_keeps_water_within_capacity(b: BucketState, now_ns: nat)
    requires
        bucket_wf(b),
    ensures
        bucket_wf(bucket_check(b, now_ns).0),
        bucket_check(b, now_ns).0.capacity == b.capacity,
        bucket_check(b, now_ns).0.leak_rate == b.leak_rate,
        bucket_check(b, now_ns).0.last_check == now_ns,
{
}

/// A burst at one instant, into a bucket holding `k` whole requests of water,
/// admits as many as there is room for.
proof fn lemma_burst_from(b: BucketState, k: nat, n: nat)
    requires
        b.water == k * unit(),
        k <= whole_requests(b.capacity),
    ensures
        run_checks(b, Seq::new(n, |i: int| b.last_check)).1 == min(
            n,
            (whole_requests(b.capacity) - k) as nat,
        ),
    decreases n,
{
    if n > 0 {
        let times = Seq::new(n, |i: int| b.last_check);
        let b1 = bucket_check(b, b.last_check).0;
        assert(times.drop_first() =~= Seq::new((n - 1) as nat, |i: int| b1.last_check));
        assert(sat_sub(b.last_check, b.last_check) == 0);
        assert(0nat * b.leak_rate == 0);
        assert(leak(b.water, 0, b.leak_rate) == b.water);
        assert(k * unit() + unit() == (k + 1) * unit());
        assert((k + 1) * unit() <= b.capacity * scale() <==> k + 1 <= whole_requests(b.capacity));
        if k + 1 <= whole_requests(b.capacity) {
            lemma_burst_from(b1, k + 1, (n - 1) as nat);
        } else {
            lemma_burst_from(b1, k, (n - 1) as nat);
        }
    }
}

/// From an empty bucket, a burst of `n` requests at one instant admits
/// exactly as many as the whole requests the capacity holds, or `n` if fewer.
pub proof fn law_burst_admits_capacity(b: BucketState, n: nat)
    requires
        b.water == 0,
    ensures
        run_checks(b, Seq::new(n, |i: int| b.last_check)).1 == min(n, whole_requests(b.capacity)),
{
    assert(0 * unit() == 0);
    lemma_burst_from(b, 0, n);
}

/// Once at least one request's water has leaked out since the last check, the
/// next request is admitted (for a bucket that holds at least one request).
pub proof fn law_leak_makes_room(b: BucketState, now_ns: nat)
    requires
        bucket_wf(b),
        b.capacity >= scale(),
        sat_sub(now_ns, b.last_check) * b.leak_rate >= unit(),
    ensures
        bucket_check(b, now_ns).1,
{
}

/// A bucket that cannot hold one whole request admits nothing.
pub proof fn law_small_capacity_refuses(b: BucketState, now_ns: nat)
    requires
        b.capacity < scale(),
    ensures
        !bucket_check(b, now_ns).1,
{
}

/// Over a run of checks the admitted requests' water, plus the water held at
/// the start, is at most the water held at the end plus what leaked in the
/// time the run spans.
proof fn lemma_run_balance(b: BucketState, times: Seq<nat>)
    requires
        ascending_from(b.last_check, times),
    ensures
        run_checks(b, times).1 * unit() + b.water <= run_checks(b, times).0.water + b.leak_rate * (
        if times.len() == 0 { 0 } else { (times.last() - b.last_check) as nat }),
        bucket_wf(b) ==> bucket_wf(run_checks(b, times).0),
        run_checks(b, times).0.capacity == b.capacity,
        run_checks(b, times).0.leak_rate == b.leak_rate,
    decreases times.len(),
{
    if times.len() > 0 {
        let t0 = times[0];
        let (b1, ok) = bucket_check(b, t0);
        let rest = times.drop_first();
        assert(ascending_from(b1.last_check, rest)) by {
            assert forall|i: int| 0 <= i < rest.len() implies b1.last_check <= #[trigger] rest[i] by {
                assert(rest[i] == times[i + 1]);
            }
            assert forall|i: int, j: int| 0 <= i <= j < rest.len() implies rest[i] <= rest[j] by {
                assert(rest[i] == times[i + 1] && rest[j] == times[j + 1]);
            }
        }
        lemma_run_balance(b1, rest);
        let g = (t0 - b.last_check) as nat;
        let r = b.leak_rate;
        assert(leak(b.water, g, r) + g * r >= b.water);
        let (end, n1) = run_checks(b1, rest);
        let tail: nat = if rest.len() == 0 { 0 } else { (rest.last() - t0) as nat };
        let whole: nat = (times.last() - b.last_check) as nat;
        if rest.len() > 0 {
            assert(rest.last() == times.last());
        }
        assert(whole == g + tail);
        assert(r * whole == r * g + r * tail) by {
            vstd::arithmetic::mul::lemma_mul_is_distributive_add(r as int, g as int, tail as int);
        }
        assert(g * r == r * g) by {
            vstd::arithmetic::mul::lemma_mul_is_commutative(g as int, r as int);
        }
    }
}

/// The rate limit over time: in a run of checks that starts with `water` held
/// and spans `T` nanoseconds (from the bucket's last check to the last request),
/// the requests admitted pour in at most the room left at the start plus what
/// leaks in `T`: `admitted * unit <= capacity * scale - water + leak_rate * T`.
pub proof fn law_admissions_bounded_by_room_and_leak(b: BucketState, times: Seq<nat>)
    requires
        bucket_wf(b),
        ascending_from(b.last_check, times),
    ensures
        run_checks(b, times).1 * unit() + b.water <= b.capacity * scale() + b.leak_rate * (
        if times.len() == 0 { 0 } else { (times.last() - b.last_check) as nat }),
{
    lemma_run_balance(b, times);
}

/// `std::time::Instant`, carried through opaquely.
#[verifier::external_type_specification]
#[verifier::external_body]
pub struct ExInstant(Instant);

/// `Instant::now`: the current instant. Nothing is promised of it: it comes
/// from the machine's monotonic clock.
#[verifier::external_body]
fn instant_now() -> Instant {
    Instant::now()
}

/// `Instant::elapsed`: the time since `since`, by the monotonic clock (zero if
/// the clock reads earlier). Nothing more is promised: it depends on the clock.
#[verifier::external_body]
fn elapsed_since(since: &Instant) -> Duration {
    since.elapsed()
}

/// `Duration::as_nanos`: the whole nanoseconds of a duration. The duration is
/// opaque here, so nothing is stated of the number.
#[verifier::external_body]
fn whole_nanos(d: &Duration) -> u128 {
    d.as_nanos()
}

/// A leaky bucket with its own clock: the instant it was made, and the time
/// of its last check counted in nanoseconds from then.
pub struct LeakyBucket {
    capacity: u64,
    leak_rate: u64,
    water: u128,
    last_check_ns: u128,
    origin: Instant,
}

impl LeakyBucket {
    /// The bucket's settings, water and last check time.
    pub closed spec fn state(&self) -> BucketState {
        BucketState {
            capacity: self.capacity as nat,
            leak_rate: self.leak_rate as nat,
            water: self.water as nat,
            last_check: self.last_check_ns as nat,
        }
    }

    #[verifier::type_invariant]
    spec fn inv(self) -> bool {
        bucket_wf(self.state())
    }

    /// An empty bucket that holds `capacity` billionths of a request and leaks
    /// `leak_rate` billionths of a request per second, its clock started now.
    pub fn new(capacity: u64, leak_rate: u64) -> (res: LeakyBucket)
        ensures
            res.state() == (BucketState {
                capacity: capacity as nat,
                leak_rate: leak_rate as nat,
                water: 0,
                last_check: 0,
            }),
    {
        LeakyBucket { capacity, leak_rate, water: 0, last_check_ns: 0, origin: instant_now() }
    }

    /// The capacity, in billionths of a request.
    pub fn capacity(&self) -> (res: u64)
        ensures
            res as nat == self.state().capacity,
    {
        self.capacity
    }

    /// The leak rate, in billionths of a request per second.
    pub fn leak_rate(&self) -> (res: u64)
        ensures
            res as nat == self.state().leak_rate,
    {
        self.leak_rate
    }

    /// The water held, in quintillionths of a request.
    pub fn water(&self) -> (res: u128)
        ensures
            res as nat == self.state().water,
            bucket_wf(self.state()),
    {
        proof {
            use_type_invariant(self);
        }
        self.water
    }

    /// The time of the last check, in nanoseconds on the bucket's clock.
    pub fn last_check_ns(&self) -> (res: u128)
        ensures
            res as nat == self.state().last_check,
    {
        self.last_check_ns
    }

    /// Decides one request that arrives `elapsed_ns` nanoseconds after the
    /// previous check, leaving the check time as it is (see `bucket_step`).
    pub fn admit_after(&mut self, elapsed_ns: u128) -> (allowed: bool)
        ensures
            (final(self).state(), allowed) == bucket_step(old(self).state(), elapsed_ns as nat),
    {
        proof {
            use_type_invariant(&*self);
        }
        let rate = self.leak_rate as u128;
        let w: u128 = match elapsed_ns.checked_mul(rate) {
            None => 0,
            Some(leaked) => if self.water >= leaked {
                self.water - leaked
            } else {
                0
            },
        };
        assert(w == leak(self.water as nat, elapsed_ns as nat, self.leak_rate as nat));
        let room = (self.capacity as u128) * 1_000_000_000;
        assert(room == self.capacity * scale()) by (nonlinear_arith)
            requires
                room == (self.capacity as u128) * 1_000_000_000,
        ;
        if w + 1_000_000_000_000_000_000 > room {
            self.water = w;
            false
        } else {
            self.water = w + 1_000_000_000_000_000_000;
            true
        }
    }

    /// Decides one request checked at `now_ns` on the bucket's clock (see
    /// `bucket_check`): the bucket leaks for the time since the last check,
    /// the check time moves to `now_ns`, and the request is admitted when one
    /// more request's water fits.
    pub fn allow_at(&mut self, now_ns: u128) -> (allowed: bool)
        ensures
            (final(self).state(), allowed) == bucket_check(old(self).state(), now_ns as nat),
    {
        let elapsed = if now_ns >= self.last_check_ns { now_ns - self.last_check_ns } else { 0 };
        let allowed = self.admit_after(elapsed);
        proof {
            use_type_invariant(&*self);
        }
        self.last_check_ns = now_ns;
        allowed
    }

    /// Decides one request now: `allow_at` with the time elapsed on the
    /// bucket's clock since it was made.
    pub fn allow(&mut self) -> (allowed: bool)
        ensures
            exists|now_ns: nat|
                (final(self).state(), allowed) == #[trigger] bucket_check(old(self).state(), now_ns),
    {
        let elapsed = elapsed_since(&self.origin);
        let now_ns = whole_nanos(&elapsed);
        self.allow_at(now_ns)
    }
}

/// The answer to a request that the limiter refuses.
pub struct Rejection {
    pub status: u16,
    pub message: String,
}

/// `429 Too Many Requests` with the message `Too many requests. Please slow down.`
pub fn too_many_requests() -> (res: Rejection)
    ensures
        res.status == 429,
        res.message@ == "Too many requests. Please slow down."@,
{
    Rejection { status: 429, message: String::from_str("Too many requests. Please slow down.") }
}

/// The rate-limit step in front of every request: the request goes on
/// (`None`) when the bucket admits it, otherwise it is answered with
/// `too_many_requests`.
pub fn rate_limit(limiter: &mut LeakyBucket) -> (res: Option<Rejection>)
    ensures
        exists|now_ns: nat|
            {
                let (after, allowed) = #[trigger] bucket_check(old(limiter).state(), now_ns);
                &&& final(limiter).state() == after
                &&& (res is None <==> allowed)
            },
        res matches Some(r) ==> r.status == 429 && r.message@ == "Too many requests. Please slow down."@,
{
    if limiter.allow() {
        None
    } else {
        Some(too_many_requests())
    }
}

} // verus!
