//! The trading calendar: ticks make days, days make weeks, and the
//! exchanges trade on the first days of each week only.

use vstd::prelude::*;
use crate::values::{DAYS_TRADING, LENGTH_WEEK, TICKS_DAY};

verus! {

/// Whether the exchanges trade during tick `tick`.
pub open spec fn is_open(tick: nat) -> bool {
    ((tick / TICKS_DAY as nat) % LENGTH_WEEK as nat) < DAYS_TRADING
}

/// The day that tick `tick` falls on.
pub fn day(tick: u64) -> (d: u64)
    ensures
        d == tick / TICKS_DAY,
{
    tick / TICKS_DAY
}

/// Whether the exchanges trade during tick `tick`.
pub fn market_open(tick: u64) -> (r: bool)
    ensures
        r == is_open(tick as nat),
        r == ((tick / TICKS_DAY) % LENGTH_WEEK < DAYS_TRADING),
{
    (day(tick) % LENGTH_WEEK) < DAYS_TRADING
}

/// Moves the clock one tick on; says whether the new tick starts a day.
pub fn next_tick(tick: u64) -> (r: (u64, bool))
    requires
        tick < u64::MAX,
    ensures
        r.0 == tick + 1,
        r.1 == ((tick + 1) % TICKS_DAY as int == 0),
{
    let t = tick + 1;
    (t, t % TICKS_DAY == 0)
}

/// All ticks of one day share the day's trading status.
pub proof fn lemma_open_within_day(t1: nat, t2: nat)
    requires
        t1 / TICKS_DAY as nat == t2 / TICKS_DAY as nat,
    ensures
        is_open(t1) == is_open(t2),
{
}

/// The trading status repeats every week.
pub proof fn lemma_open_weekly(t: nat)
    ensures
        is_open(t) == is_open(t + TICKS_DAY as nat * LENGTH_WEEK as nat),
{
    let d = t / TICKS_DAY as nat;
    assert((t + TICKS_DAY as nat * LENGTH_WEEK as nat) / TICKS_DAY as nat == d + LENGTH_WEEK as nat);
    assert((d + LENGTH_WEEK as nat) % LENGTH_WEEK as nat == d % LENGTH_WEEK as nat);
}

/// In week `w`, day `k` of the week is a trading day exactly when it is one
/// of the first [`DAYS_TRADING`] days.
pub proof fn lemma_week_pattern(w: nat, k: nat)
    requires
        k < LENGTH_WEEK,
    ensures
        is_open((w * LENGTH_WEEK as nat + k) * TICKS_DAY as nat) == (k < DAYS_TRADING),
{
    let d = w * LENGTH_WEEK as nat + k;
    assert((d * TICKS_DAY as nat) / TICKS_DAY as nat == d);
    assert(d as int == LENGTH_WEEK as int * w as int + k as int) by (nonlinear_arith)
        requires
            d == w * LENGTH_WEEK as nat + k,
    ;
    vstd::arithmetic::div_mod::lemma_mod_multiples_vanish(w as int, k as int, LENGTH_WEEK as int);
    vstd::arithmetic::div_mod::lemma_small_mod(k, LENGTH_WEEK as nat);
    assert(d % LENGTH_WEEK as nat == k);
}

} // verus!
