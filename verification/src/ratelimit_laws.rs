//! What a peer can count on from its gate.

use vstd::prelude::*;

use crate::ratelimit::{
    admitted_messages_clear_strikes, at_once, bucket_stays_within_capacity,
    flood_is_closed_at_the_limit, Gate, Verdict, CAPACITY, REFILL_PER_SEC, STRIKE_LIMIT,
};

verus! {

/// `n` messages of which the first comes after `nanos` nanoseconds without any, and the others
/// right behind it.
pub open spec fn after_silence(nanos: nat, n: nat) -> Seq<nat>
    recommends
        n > 0,
{
    Seq::new(n, |i: int|
        if i == 0 {
            nanos
        } else {
            0
        })
}

/// What time and capacity allow a bucket to hold, in billionths of a token: what it held and what
/// the time brought, or all it can hold.
pub open spec fn earned(g: Gate, nanos: nat) -> nat {
    if g.level + nanos * g.refill_per_sec <= g.capacity * 1_000_000_000 {
        g.level + nanos * g.refill_per_sec
    } else {
        g.capacity * 1_000_000_000
    }
}

proof fn lemma_burst(g: Gate, nanos: nat, n: nat)
    requires
        n > 0,
        g.level <= g.capacity * 1_000_000_000,
        n * 1_000_000_000 <= earned(g, nanos),
    ensures
        g.admitted(after_silence(nanos, n)) == n,
        g.after_all(after_silence(nanos, n)).level == earned(g, nanos) - n * 1_000_000_000,
        g.after_all(after_silence(nanos, n)).capacity == g.capacity,
        g.after_all(after_silence(nanos, n)).refill_per_sec == g.refill_per_sec,
    decreases n,
{
    let all = after_silence(nanos, n);
    let init = all.drop_last();
    if n == 1 {
        assert(init =~= seq![]);
        assert(g.after_all(init) == g);
        assert(g.admitted(init) == 0);
    } else {
        assert(init =~= after_silence(nanos, (n - 1) as nat));
        lemma_burst(g, nanos, (n - 1) as nat);
        let h = g.after_all(init);
        assert(all.last() == 0);
        assert(0 * h.refill_per_sec == 0) by (nonlinear_arith);
    }
}

/// A silence pays back what it is worth: after so many nanoseconds without a message a gate
/// admits at once as many messages as the tokens that it held and that the time brought, up to
/// its capacity, and not one more.
pub proof fn silence_refills_the_bucket(g: Gate, nanos: nat, n: nat)
    requires
        n > 0,
        g.level <= g.capacity * 1_000_000_000,
    ensures
        n <= g.capacity && n * 1_000_000_000 <= g.level + nanos * g.refill_per_sec ==> g.admitted(
            after_silence(nanos, n),
        ) == n,
        n <= g.capacity && n * 1_000_000_000 <= g.level + nanos * g.refill_per_sec
            ==> g.last_verdict(after_silence(nanos, n)) == Verdict::Allow,
        (n - 1) * 1_000_000_000 <= earned(g, nanos) < n * 1_000_000_000 ==> g.last_verdict(
            after_silence(nanos, n),
        ) != Verdict::Allow,
{
    let all = after_silence(nanos, n);
    let init = all.drop_last();
    assert(nanos * g.refill_per_sec >= 0) by (nonlinear_arith);
    if n * 1_000_000_000 <= earned(g, nanos) {
        lemma_burst(g, nanos, n);
    }
    if n == 1 {
        assert(init =~= seq![]);
        assert(g.after_all(init) == g);
    } else {
        assert(init =~= after_silence(nanos, (n - 1) as nat));
        if (n - 1) * 1_000_000_000 <= earned(g, nanos) {
            lemma_burst(g, nanos, (n - 1) as nat);
            let h = g.after_all(init);
            assert(all.last() == 0);
            assert(0 * h.refill_per_sec == 0) by (nonlinear_arith);
        }
    }
}

/// A silence long enough to refill every token fills the bucket, however many strikes and
/// whatever level it had: a whole burst is then admitted.
pub proof fn a_long_silence_fills_the_bucket(g: Gate, nanos: nat)
    requires
        g.capacity > 0,
        g.level <= g.capacity * 1_000_000_000,
        nanos * g.refill_per_sec >= g.capacity * 1_000_000_000,
    ensures
        g.admitted(after_silence(nanos, g.capacity)) == g.capacity,
{
    silence_refills_the_bucket(g, nanos, g.capacity);
}

/// Time counts the same however it is cut: to wait, and to wait again, brings what one wait of
/// both lengths brings.
pub proof fn time_adds_up(g: Gate, first: nat, second: nat)
    requires
        g.level <= g.capacity * 1_000_000_000,
    ensures
        (Gate { level: g.refilled(first), ..g }).refilled(second) == g.refilled(first + second),
        g.refilled(0) == g.level,
{
    let r = g.refill_per_sec;
    assert((first + second) * r == first * r + second * r) by (nonlinear_arith);
    assert(second * r >= 0) by (nonlinear_arith);
    assert(0 * r == 0) by (nonlinear_arith);
}

/// What one message costs: an admitted one takes exactly one token and one strike, if there is
/// one; any other takes no token and adds one strike, up to the most that are counted. It closes
/// the connection exactly where the strikes then reach the limit.
pub proof fn a_message_costs_a_token_or_a_strike(g: Gate, nanos: nat)
    requires
        g.level <= g.capacity * 1_000_000_000,
        g.strikes <= u32::MAX,
    ensures
        ({
            let after = g.after(nanos);
            let v = g.verdict(nanos);
            &&& v == Verdict::Allow <==> earned(g, nanos) >= 1_000_000_000
            &&& v == Verdict::Allow ==> after.level + 1_000_000_000 == earned(g, nanos)
            &&& v != Verdict::Allow ==> after.level == earned(g, nanos)
            &&& v == Verdict::Allow && g.strikes > 0 ==> after.strikes == g.strikes - 1
            &&& v == Verdict::Allow && g.strikes == 0 ==> after.strikes == 0
            &&& v != Verdict::Allow && g.strikes < u32::MAX ==> after.strikes == g.strikes + 1
            &&& v != Verdict::Allow && g.strikes == u32::MAX ==> after.strikes == u32::MAX
            &&& v == Verdict::Close <==> v != Verdict::Allow && after.strikes >= g.strike_limit
            &&& after.capacity == g.capacity
            &&& after.refill_per_sec == g.refill_per_sec
            &&& after.strike_limit == g.strike_limit
        }),
{
}

/// Messages that find no token and come at any intervals each add a strike, and the one that
/// brings the strikes to the limit closes the connection; none before it does.
pub proof fn strikes_lead_to_the_close_and_nothing_else_does(g: Gate, nanos: Seq<nat>)
    requires
        nanos.len() > 0,
        g.admitted(nanos) == 0,
        g.strikes + nanos.len() <= u32::MAX,
    ensures
        g.after_all(nanos).strikes == g.strikes + nanos.len(),
        g.last_verdict(nanos) == (if g.strikes + nanos.len() >= g.strike_limit {
            Verdict::Close
        } else {
            Verdict::Drop
        }),
    decreases nanos.len(),
{
    let init = nanos.drop_last();
    if init.len() > 0 {
        strikes_lead_to_the_close_and_nothing_else_does(g, init);
    } else {
        assert(g.after_all(init) == g);
    }
    lemma_limit_stays(g, init);
}

proof fn lemma_limit_stays(g: Gate, nanos: Seq<nat>)
    ensures
        g.after_all(nanos).strike_limit == g.strike_limit,
    decreases nanos.len(),
{
    if nanos.len() > 0 {
        lemma_limit_stays(g, nanos.drop_last());
    }
}

/// What a connection gets by default: twenty messages at once and no more, two further ones for
/// every second, and a close once a hundred messages in a row were too many.
pub proof fn the_default_gate_takes_twenty_at_once_and_two_a_second(seconds: nat, n: nat)
    requires
        n > 0,
    ensures
        ({
            let g = Gate::fresh(CAPACITY as nat, REFILL_PER_SEC as nat, STRIKE_LIMIT as nat);
            let spent = g.after_all(at_once(20));
            &&& g.admitted(at_once(20)) == 20
            &&& g.last_verdict(at_once(21)) == Verdict::Drop
            &&& n <= 20 && n <= 2 * seconds ==> spent.admitted(
                after_silence(seconds * 1_000_000_000, n),
            ) == n
            &&& n == 2 * seconds + 1 && n <= 20 ==> spent.last_verdict(
                after_silence(seconds * 1_000_000_000, n),
            ) == Verdict::Drop
            &&& spent.last_verdict(at_once(99)) == Verdict::Drop
            &&& spent.last_verdict(at_once(100)) == Verdict::Close
        }),
{
    let g = Gate::fresh(CAPACITY as nat, REFILL_PER_SEC as nat, STRIKE_LIMIT as nat);
    let spent = g.after_all(at_once(20));
    assert(at_once(20) =~= after_silence(0, 20));
    assert(at_once(21) =~= after_silence(0, 21));
    lemma_burst(g, 0, 20);
    silence_refills_the_bucket(g, 0, 21);
    lemma_fresh_spent(g, 20);
    assert(at_once(21).drop_last() =~= at_once(20));
    assert(spent.level == 0);
    bucket_stays_within_capacity(g, at_once(20));
    silence_refills_the_bucket(spent, seconds * 1_000_000_000, n);
    if n == 2 * seconds + 1 && n <= 20 {
        let all = after_silence(seconds * 1_000_000_000, n);
        let init = all.drop_last();
        if n > 1 {
            assert(init =~= after_silence(seconds * 1_000_000_000, (n - 1) as nat));
            lemma_burst(spent, seconds * 1_000_000_000, (n - 1) as nat);
            lemma_admitted_strikes(spent, init);
        } else {
            assert(init =~= seq![]);
            assert(spent.after_all(init) == spent);
        }
    }
    flood_is_closed_at_the_limit(spent, 99);
    flood_is_closed_at_the_limit(spent, 100);
}

proof fn lemma_admitted_strikes(g: Gate, nanos: Seq<nat>)
    requires
        g.admitted(nanos) == nanos.len(),
        g.strikes == 0,
    ensures
        g.after_all(nanos).strikes == 0,
        g.after_all(nanos).strike_limit == g.strike_limit,
{
    admitted_messages_clear_strikes(g, nanos);
    lemma_limit_stays(g, nanos);
}

proof fn lemma_fresh_spent(g: Gate, n: nat)
    requires
        g.admitted(at_once(n)) == n,
        g.strikes == 0,
    ensures
        g.after_all(at_once(n)).strikes == 0,
        g.after_all(at_once(n)).strike_limit == g.strike_limit,
{
    lemma_admitted_strikes(g, at_once(n));
}

/// A fresh gate is full and without strikes, whatever it is made for.
pub proof fn a_fresh_gate_is_full(capacity: nat, refill_per_sec: nat, strike_limit: nat, n: nat)
    requires
        0 < n,
    ensures
        ({
            let g = Gate::fresh(capacity, refill_per_sec, strike_limit);
            &&& n <= capacity ==> g.admitted(at_once(n)) == n
            &&& n == capacity + 1 ==> g.last_verdict(at_once(n)) != Verdict::Allow
            &&& g.strikes == 0
        }),
{
    let g = Gate::fresh(capacity, refill_per_sec, strike_limit);
    assert(at_once(n) =~= after_silence(0, n));
    assert(0 * g.refill_per_sec == 0) by (nonlinear_arith);
    silence_refills_the_bucket(g, 0, n);
}

} // verus!
