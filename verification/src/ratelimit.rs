//! Per-connection rate limiting for inbound control streams.
//!
//! Control messages are cheap to send but can be expensive to process, and they carry no
//! authentication of their own, so any peer that shares a network can spam them.
//! [`ControlGate`] guards one connection with a token bucket and a strike counter:
//! over-budget messages are dropped, and a peer that sustains a flood is closed in the end. A
//! peer that only bursts briefly is never penalized: strikes decay on every admitted
//! message.
//!
//! Tokens are counted in billionths, the amount that a rate of one token a second gains in a
//! nanosecond, so the bucket's arithmetic is exact.

use vstd::prelude::*;

use std::time::{Duration, Instant};

verus! {

/// Burst of control messages absorbed instantly before throttling kicks in.
pub const CAPACITY: u64 = 20;

/// Sustained refill rate, in tokens per second.
pub const REFILL_PER_SEC: u64 = 2;

/// Net over-budget messages (drops minus admits) before the connection is closed.
pub const STRIKE_LIMIT: u32 = 100;

/// How many billionths make a token.
pub const TOKEN: u128 = 1_000_000_000;

/// `std::time::Instant`, a reading of the monotonic clock.
#[verifier::external_type_specification]
#[verifier::external_body]
pub struct ExInstant(Instant);

/// Reads the monotonic clock (`Instant::now`); nothing is known of the reading.
pub assume_specification[ Instant::now ]() -> (r: Instant)
;

/// The time from one clock reading to another.
pub uninterp spec fn time_between(earlier: Instant, later: Instant) -> Duration;

/// `Instant::duration_since`: the time from `earlier` to `later`, which the two readings
/// determine.
pub assume_specification[ Instant::duration_since ](later: &Instant, earlier: Instant) -> (r: Duration)
    ensures
        r == time_between(earlier, *later),
;

/// How many whole nanoseconds a span of time holds.
pub uninterp spec fn nanos_of(d: Duration) -> nat;

/// `Duration::as_nanos`: the whole nanoseconds that a span of time holds.
pub assume_specification[ Duration::as_nanos ](d: &Duration) -> (r: u128)
    ensures
        r as nat == nanos_of(*d),
;

/// What to do with one inbound control message.
#[derive(Debug, Clone, Copy, PartialEq, Eq, Structural)]
pub enum Verdict {
    /// A token was available: dispatch the message normally.
    Allow,
    /// Over budget: drop the message; the connection is still healthy.
    Drop,
    /// Sustained flood: drop the message and close the connection.
    Close,
}

/// What a gate amounts to, apart from the clock reading it keeps.
pub struct Gate {
    /// How many tokens the bucket holds at most.
    pub capacity: nat,
    /// How many tokens it gains in a second.
    pub refill_per_sec: nat,
    /// What it holds, in billionths of a token.
    pub level: nat,
    /// Net over-budget messages so far.
    pub strikes: nat,
    /// How many strikes close the connection.
    pub strike_limit: nat,
}

impl Gate {
    /// A gate with a full bucket and no strikes.
    pub open spec fn fresh(capacity: nat, refill_per_sec: nat, strike_limit: nat) -> Gate {
        Gate {
            capacity,
            refill_per_sec,
            level: capacity * TOKEN as nat,
            strikes: 0,
            strike_limit,
        }
    }

    /// What the bucket holds once `nanos` nanoseconds have passed.
    pub open spec fn refilled(self, nanos: nat) -> nat {
        let full = self.capacity * TOKEN as nat;
        let level = self.level + nanos * self.refill_per_sec;
        if level <= full {
            level
        } else {
            full
        }
    }

    /// Whether a message that comes after `nanos` nanoseconds finds a token.
    pub open spec fn admits(self, nanos: nat) -> bool {
        self.refilled(nanos) >= TOKEN
    }

    /// The verdict on a message that comes after `nanos` nanoseconds.
    pub open spec fn verdict(self, nanos: nat) -> Verdict {
        if self.admits(nanos) {
            Verdict::Allow
        } else if self.after(nanos).strikes >= self.strike_limit {
            Verdict::Close
        } else {
            Verdict::Drop
        }
    }

    /// What becomes of the bucket with a message that came after `nanos` nanoseconds. An admitted message
    /// takes a token and a strike; any other adds a strike, up to the most that are counted.
    pub open spec fn after(self, nanos: nat) -> Gate {
        if self.admits(nanos) {
            Gate {
                level: (self.refilled(nanos) - TOKEN) as nat,
                strikes: if self.strikes > 0 {
                    (self.strikes - 1) as nat
                } else {
                    0
                },
                ..self
            }
        } else {
            Gate {
                level: self.refilled(nanos),
                strikes: if self.strikes < u32::MAX {
                    self.strikes + 1
                } else {
                    self.strikes
                },
                ..self
            }
        }
    }

    /// What becomes of the bucket with messages that came at these intervals.
    pub open spec fn after_all(self, nanos: Seq<nat>) -> Gate
        decreases nanos.len(),
    {
        if nanos.len() == 0 {
            self
        } else {
            self.after_all(nanos.drop_last()).after(nanos.last())
        }
    }

    /// How many of the messages that came at these intervals were admitted.
    pub open spec fn admitted(self, nanos: Seq<nat>) -> nat
        decreases nanos.len(),
    {
        if nanos.len() == 0 {
            0
        } else if self.after_all(nanos.drop_last()).admits(nanos.last()) {
            self.admitted(nanos.drop_last()) + 1
        } else {
            self.admitted(nanos.drop_last())
        }
    }

    /// The verdict on the last of the messages that came at these intervals.
    pub open spec fn last_verdict(self, nanos: Seq<nat>) -> Verdict
        recommends
            nanos.len() > 0,
    {
        self.after_all(nanos.drop_last()).verdict(nanos.last())
    }
}

/// The time that intervals add up to.
pub open spec fn total(nanos: Seq<nat>) -> nat
    decreases nanos.len(),
{
    if nanos.len() == 0 {
        0
    } else {
        total(nanos.drop_last()) + nanos.last()
    }
}

/// The bucket of a gate, and the limit on its strikes.
pub struct Bucket {
    capacity: u64,
    refill_per_sec: u64,
    level: u128,
    last_refill: Instant,
    strike_limit: u32,
}

impl Bucket {
    /// What a gate with this bucket and so many strikes amounts to.
    pub closed spec fn with_strikes(&self, strikes: nat) -> Gate {
        Gate {
            capacity: self.capacity as nat,
            refill_per_sec: self.refill_per_sec as nat,
            level: self.level as nat,
            strikes,
            strike_limit: self.strike_limit as nat,
        }
    }

    /// The clock reading up to which tokens have accrued.
    pub closed spec fn refilled_at(&self) -> Instant {
        self.last_refill
    }
}

/// Token-bucket guard over one connection's inbound control messages.
pub struct ControlGate {
    pub bucket: Bucket,
    /// Net over-budget messages so far.
    pub strikes: u32,
}

impl View for ControlGate {
    type V = Gate;

    open spec fn view(&self) -> Gate {
        self.bucket.with_strikes(self.strikes as nat)
    }
}

impl ControlGate {
    /// The clock reading up to which tokens have accrued.
    pub open spec fn refilled_at(&self) -> Instant {
        self.bucket.refilled_at()
    }

    /// A gate with the default capacity, refill rate and strike limit.
    pub fn new() -> (r: Self)
        ensures
            r@ == Gate::fresh(CAPACITY as nat, REFILL_PER_SEC as nat, STRIKE_LIMIT as nat),
            r@.capacity == 20,
            r@.refill_per_sec == 2,
            r@.level == 20_000_000_000,
            r@.strike_limit == 100,
            r.strikes == 0,
    {
        ControlGate::with_params(CAPACITY, REFILL_PER_SEC, STRIKE_LIMIT)
    }

    /// A gate with explicit parameters.
    pub fn with_params(capacity: u64, refill_per_sec: u64, strike_limit: u32) -> (r: Self)
        ensures
            r@ == Gate::fresh(capacity as nat, refill_per_sec as nat, strike_limit as nat),
            r.strikes == 0,
    {
        ControlGate {
            bucket: Bucket {
                capacity,
                refill_per_sec,
                level: capacity as u128 * TOKEN,
                last_refill: Instant::now(),
                strike_limit,
            },
            strikes: 0,
        }
    }

    /// Accrues tokens for `nanos` nanoseconds, clamped to capacity.
    fn refill(&mut self, nanos: u128)
        ensures
            final(self)@ == (Gate { level: old(self)@.refilled(nanos as nat), ..old(self)@ }),
            final(self).refilled_at() == old(self).refilled_at(),
    {
        let full: u128 = self.bucket.capacity as u128 * TOKEN;
        let gained: Option<u128> = nanos.checked_mul(self.bucket.refill_per_sec as u128);
        let level: Option<u128> = match gained {
            Some(g) => self.bucket.level.checked_add(g),
            None => None,
        };
        self.bucket.level = match level {
            Some(l) => if l <= full {
                l
            } else {
                full
            },
            None => full,
        };
    }

    /// Accounts for one inbound control message that comes now, and decides what to do with
    /// it. What the clock reads is not stated; the time counted is the time since the reading
    /// before it, so none is counted twice.
    pub fn check(&mut self) -> (r: Verdict)
        ensures
            ({
                let nanos = nanos_of(
                    time_between(old(self).refilled_at(), final(self).refilled_at()),
                );
                &&& final(self)@ == old(self)@.after(nanos)
                &&& r == old(self)@.verdict(nanos)
            }),
            final(self).strikes == final(self)@.strikes,
    {
        self.check_at(Instant::now())
    }

    /// Accounts for one inbound control message that comes when the clock reads `now`, and
    /// decides what to do with it. Tokens have then accrued up to that reading.
    pub fn check_at(&mut self, now: Instant) -> (r: Verdict)
        ensures
            final(self).refilled_at() == now,
            ({
                let nanos = nanos_of(time_between(old(self).refilled_at(), now));
                &&& final(self)@ == old(self)@.after(nanos)
                &&& r == old(self)@.verdict(nanos)
            }),
            final(self).strikes == final(self)@.strikes,
    {
        let elapsed: Duration = now.duration_since(self.bucket.last_refill);
        self.bucket.last_refill = now;
        self.check_after(elapsed.as_nanos())
    }

    /// Accounts for one inbound control message that comes `nanos` nanoseconds after the one
    /// before it, and decides what to do with it.
    pub fn check_after(&mut self, nanos: u128) -> (r: Verdict)
        ensures
            final(self)@ == old(self)@.after(nanos as nat),
            r == old(self)@.verdict(nanos as nat),
            final(self).strikes == final(self)@.strikes,
            final(self).refilled_at() == old(self).refilled_at(),
    {
        self.refill(nanos);
        if self.bucket.level >= TOKEN {
            self.bucket.level = self.bucket.level - TOKEN;
            self.strikes = self.strikes.saturating_sub(1);
            Verdict::Allow
        } else {
            self.strikes = self.strikes.saturating_add(1);
            if self.strikes >= self.bucket.strike_limit {
                Verdict::Close
            } else {
                Verdict::Drop
            }
        }
    }
}

impl Default for ControlGate {
    fn default() -> (r: Self)
        ensures
            r@ == Gate::fresh(CAPACITY as nat, REFILL_PER_SEC as nat, STRIKE_LIMIT as nat),
            r@.capacity == 20,
            r@.refill_per_sec == 2,
            r@.level == 20_000_000_000,
            r@.strike_limit == 100,
            r.strikes == 0,
    {
        ControlGate::new()
    }
}

/// The strikes that a gate shows are those it counts, whoever set them, and setting them
/// changes nothing else.
pub proof fn strikes_are_the_ones_counted(bucket: Bucket, strikes: nat, others: nat)
    ensures
        bucket.with_strikes(strikes).strikes == strikes,
        bucket.with_strikes(others) == (Gate { strikes: others, ..bucket.with_strikes(strikes) }),
{
}

/// Messages change neither a gate's parameters nor what they bound: the bucket never holds
/// more than its capacity.
pub proof fn bucket_stays_within_capacity(g: Gate, nanos: Seq<nat>)
    requires
        g.level <= g.capacity * TOKEN,
    ensures
        g.after_all(nanos).level <= g.capacity * TOKEN,
        g.after_all(nanos).capacity == g.capacity,
        g.after_all(nanos).refill_per_sec == g.refill_per_sec,
        g.after_all(nanos).strike_limit == g.strike_limit,
    decreases nanos.len(),
{
    if nanos.len() > 0 {
        bucket_stays_within_capacity(g, nanos.drop_last());
    }
}

/// In any window, however the messages in it are spaced and whatever came before, a gate
/// admits no more of them than its capacity plus what was refilled between the first and the
/// last.
pub proof fn admits_no_more_than_capacity_and_refill(g: Gate, nanos: Seq<nat>)
    requires
        g.level <= g.capacity * TOKEN,
    ensures
        g.admitted(nanos) * TOKEN <= g.capacity * TOKEN + total(nanos.skip(1)) * g.refill_per_sec,
{
    assert(total(nanos.skip(1)) * g.refill_per_sec >= 0) by (nonlinear_arith);
    if nanos.len() > 0 {
        lemma_spent(g, nanos);
    }
}

proof fn lemma_spent(g: Gate, nanos: Seq<nat>)
    requires
        nanos.len() > 0,
    ensures
        g.admitted(nanos) * TOKEN + g.after_all(nanos).level <= g.capacity * TOKEN + total(
            nanos.skip(1),
        ) * g.refill_per_sec,
        g.after_all(nanos).refill_per_sec == g.refill_per_sec,
        g.after_all(nanos).capacity == g.capacity,
    decreases nanos.len(),
{
    let init = nanos.drop_last();
    let n = nanos.last();
    if init.len() > 0 {
        lemma_spent(g, init);
        let between = total(init.skip(1));
        assert(nanos.skip(1).drop_last() =~= init.skip(1));
        assert((between + n) * g.refill_per_sec == between * g.refill_per_sec + n
            * g.refill_per_sec) by (nonlinear_arith);
    } else {
        assert(g.after_all(init) == g);
        assert(g.admitted(init) == 0);
        assert(nanos.skip(1).len() == 0);
        assert(0 * g.refill_per_sec == 0) by (nonlinear_arith);
    }
}

/// A fresh gate admits a burst of as many messages as its capacity, at whatever intervals
/// they come.
pub proof fn burst_up_to_capacity_is_admitted(
    capacity: nat,
    refill_per_sec: nat,
    strike_limit: nat,
    nanos: Seq<nat>,
)
    requires
        0 < nanos.len() <= capacity,
    ensures
        Gate::fresh(capacity, refill_per_sec, strike_limit).last_verdict(nanos) == Verdict::Allow,
        Gate::fresh(capacity, refill_per_sec, strike_limit).after_all(nanos).level >= (capacity
            - nanos.len()) * TOKEN,
    decreases nanos.len(),
{
    let g = Gate::fresh(capacity, refill_per_sec, strike_limit);
    let init = nanos.drop_last();
    let h = g.after_all(init);
    bucket_stays_within_capacity(g, init);
    if init.len() > 0 {
        burst_up_to_capacity_is_admitted(capacity, refill_per_sec, strike_limit, init);
    }
    assert(nanos.last() * h.refill_per_sec >= 0) by (nonlinear_arith);
    assert(h.level >= (capacity - init.len()) * TOKEN);
    assert(h.refilled(nanos.last()) >= h.level);
}

/// Messages that come all at once to a gate without a token.
pub open spec fn at_once(n: nat) -> Seq<nat> {
    Seq::new(n, |i: int| 0nat)
}

/// A flood is closed, and closed as soon as the strikes reach the limit: of messages that
/// come all at once to a gate without a token, the `n`th is answered with `Close` exactly
/// when the strikes it had and `n` more reach the limit, and with `Drop` before that.
pub proof fn flood_is_closed_at_the_limit(g: Gate, n: nat)
    requires
        n > 0,
        g.level < TOKEN,
        g.level <= g.capacity * TOKEN,
        g.strikes <= u32::MAX,
        g.strike_limit <= u32::MAX,
    ensures
        g.last_verdict(at_once(n)) == (if g.strikes + n >= g.strike_limit {
            Verdict::Close
        } else {
            Verdict::Drop
        }),
{
    let init = at_once(n).drop_last();
    assert(init =~= at_once((n - 1) as nat));
    lemma_flood(g, (n - 1) as nat);
    let h = g.after_all(init);
    assert(0 * h.refill_per_sec == 0) by (nonlinear_arith);
}

proof fn lemma_flood(g: Gate, n: nat)
    requires
        g.level < TOKEN,
        g.level <= g.capacity * TOKEN,
        g.strikes <= u32::MAX,
    ensures
        g.after_all(at_once(n)) == (Gate {
            strikes: if g.strikes + n <= u32::MAX {
                g.strikes + n
            } else {
                u32::MAX as nat
            },
            ..g
        }),
    decreases n,
{
    if n > 0 {
        assert(at_once(n).drop_last() =~= at_once((n - 1) as nat));
        lemma_flood(g, (n - 1) as nat);
        assert(0 * g.refill_per_sec == 0) by (nonlinear_arith);
    }
}

/// A peer is closed only once it sent as many over-budget messages as the limit: fewer than
/// that, however they are spread, never close the connection.
pub proof fn few_drops_never_close(g: Gate, nanos: Seq<nat>)
    requires
        nanos.len() > 0,
        g.strikes + (nanos.len() - g.admitted(nanos)) < g.strike_limit,
    ensures
        g.last_verdict(nanos) != Verdict::Close,
{
    lemma_strikes(g, nanos);
    lemma_strikes(g, nanos.drop_last());
}

proof fn lemma_strikes(g: Gate, nanos: Seq<nat>)
    ensures
        g.admitted(nanos) <= nanos.len(),
        g.after_all(nanos).strikes <= g.strikes + (nanos.len() - g.admitted(nanos)),
        g.after_all(nanos).strike_limit == g.strike_limit,
    decreases nanos.len(),
{
    if nanos.len() > 0 {
        lemma_strikes(g, nanos.drop_last());
    }
}

/// Every admitted message takes a strike off, down to none: a run of admitted messages
/// clears the strikes that an earlier burst left.
pub proof fn admitted_messages_clear_strikes(g: Gate, nanos: Seq<nat>)
    requires
        g.admitted(nanos) == nanos.len(),
    ensures
        g.after_all(nanos).strikes == (if g.strikes >= nanos.len() {
            g.strikes - nanos.len()
        } else {
            0
        }),
    decreases nanos.len(),
{
    if nanos.len() > 0 {
        lemma_strikes(g, nanos.drop_last());
        admitted_messages_clear_strikes(g, nanos.drop_last());
    }
}

} // verus!
