//! How listings are spread over the exchanges and how the brokers'
//! strategies are handed out.

use vstd::prelude::*;
use crate::values::{EVALUATED, EXCHANGES};

verus! {

/// The exchange of stock slot `i`: slots are dealt round-robin.
pub fn market_of(i: usize) -> (m: u16)
    ensures
        m == i % EXCHANGES,
{
    (i % EXCHANGES) as u16
}

/// How many of the first `n` slots are dealt to exchange `m`.
pub open spec fn member_count(m: nat, n: nat) -> nat {
    if n + EXCHANGES - 1 >= m {
        ((n + EXCHANGES - 1 - m) / EXCHANGES as int) as nat
    } else {
        0
    }
}

/// The slots of exchange `m`, in increasing order: `m`, `m + 4`, `m + 8`, ...
pub open spec fn members_of(m: nat) -> Seq<u32> {
    Seq::new(member_count(m, EVALUATED as nat), |k: int| (m + EXCHANGES * k) as u32)
}

/// The stock slots listed on exchange `m`.
pub fn market_members(m: usize) -> (r: Vec<u32>)
    requires
        m < EXCHANGES,
    ensures
        r@ == members_of(m as nat),
{
    let mut r: Vec<u32> = Vec::new();
    let mut i: u32 = 0;
    while i < EVALUATED as u32
        invariant
            m < EXCHANGES,
            i <= EVALUATED,
            r@ =~= Seq::new(member_count(m as nat, i as nat), |k: int| (m + EXCHANGES * k) as u32),
        decreases EVALUATED - i,
    {
        if (i as usize % EXCHANGES) == m {
            r.push(i);
            assert(r@ =~= Seq::new(
                member_count(m as nat, (i + 1) as nat),
                |k: int| (m + EXCHANGES * k) as u32,
            ));
        } else {
            assert(member_count(m as nat, (i + 1) as nat) == member_count(m as nat, i as nat));
        }
        i += 1;
    }
    r
}

/// The exchange a slot is dealt to.
pub open spec fn slot_market(i: nat) -> nat {
    i % (EXCHANGES as nat)
}

/// The position of a slot in its exchange's member list.
pub open spec fn slot_position(i: nat) -> nat {
    i / (EXCHANGES as nat)
}

/// Every slot is listed on exactly one exchange, the one [`market_of`]
/// names, at position `i / 4` of its member list.
pub proof fn lemma_members_partition(i: nat, m: nat, k: int)
    requires
        i < EVALUATED,
        m < EXCHANGES,
    ensures
        slot_position(i) < members_of(slot_market(i)).len(),
        members_of(slot_market(i))[slot_position(i) as int] == i,
        (0 <= k < members_of(m).len() && members_of(m)[k] == i) ==> (m == slot_market(i) && k
            == slot_position(i)),
{
}

/// The trading styles of the simulated brokers.
#[derive(Clone, Copy, Debug, PartialEq, Eq, Structural)]
pub enum Strategy {
    Momentum,
    Value,
    Index,
    Panic,
    Whale,
    Random,
}

/// The style dealt to broker `i`: the six styles in turn.
pub open spec fn strategy_at(i: nat) -> Strategy {
    let r = i % 6;
    if r == 0 {
        Strategy::Momentum
    } else if r == 1 {
        Strategy::Value
    } else if r == 2 {
        Strategy::Index
    } else if r == 3 {
        Strategy::Panic
    } else if r == 4 {
        Strategy::Whale
    } else {
        Strategy::Random
    }
}

/// The style of broker `i`.
pub fn strategy_for(i: usize) -> (s: Strategy)
    ensures
        s == strategy_at(i as nat),
{
    let strategies = [
        Strategy::Momentum,
        Strategy::Value,
        Strategy::Index,
        Strategy::Panic,
        Strategy::Whale,
        Strategy::Random,
    ];
    strategies[i % strategies.len()]
}

/// The stock shown in detail after asking for slot `ix`: the request
/// stands when the slot exists, and is ignored otherwise.
pub fn select(current: usize, ix: usize, len: usize) -> (r: usize)
    ensures
        r == if ix < len {
            ix
        } else {
            current
        },
{
    if ix < len {
        ix
    } else {
        current
    }
}

} // verus!
