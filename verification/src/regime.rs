//! The market regime: the hidden state that sets the mood of every tick.

use vstd::prelude::*;

verus! {

/// The four regimes a market moves through.
#[derive(Clone, Copy, Debug, PartialEq, Eq, Structural)]
pub enum FlowStates {
    Zen,
    Bliss,
    Tumult,
    Chaos,
}

/// The word shown for each regime.
pub open spec fn flow_label(f: FlowStates) -> Seq<char> {
    match f {
        FlowStates::Zen => "calm"@,
        FlowStates::Bliss => "bullish"@,
        FlowStates::Tumult => "bearish"@,
        FlowStates::Chaos => "crash"@,
    }
}

impl FlowStates {
    /// The word shown for the regime.
    pub fn label(self) -> (r: &'static str)
        ensures
            r@ == flow_label(self),
    {
        match self {
            FlowStates::Zen => "calm",
            FlowStates::Bliss => "bullish",
            FlowStates::Tumult => "bearish",
            FlowStates::Chaos => "crash",
        }
    }
}

/// Each regime has a word of its own.
pub proof fn lemma_labels_distinct(a: FlowStates, b: FlowStates)
    requires
        a != b,
    ensures
        flow_label(a) != flow_label(b),
{
    reveal_strlit("calm");
    reveal_strlit("bullish");
    reveal_strlit("bearish");
    reveal_strlit("crash");
    assert("calm"@[1] != "bullish"@[1]);
    assert("calm"@[1] != "bearish"@[1]);
    assert("calm"@[1] != "crash"@[1]);
    assert("bullish"@[1] != "bearish"@[1]);
    assert("bullish"@[1] != "crash"@[1]);
    assert("bearish"@[1] != "crash"@[1]);
}

} // verus!
