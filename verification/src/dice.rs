//! Numbers drawn by chance. Each draw keeps the range it was drawn from,
//! and a draw can only be made by `draw`, so a contract that speaks of
//! draws says from which ranges the numbers came.

use vstd::prelude::*;

verus! {

/// A number drawn at random, with the range it was drawn from. Its fields
/// are private: outside this module a draw comes only from `draw`.
pub struct Draw {
    low: usize,
    high: usize,
    value: usize,
}

impl Draw {
    /// The lowest number the draw could give.
    pub closed spec fn low(self) -> usize {
        self.low
    }

    /// The number just above the highest one the draw could give.
    pub closed spec fn high(self) -> usize {
        self.high
    }

    /// The number drawn.
    pub closed spec fn spec_value(&self) -> usize {
        self.value
    }

    /// The number drawn.
    #[verifier::when_used_as_spec(spec_value)]
    pub fn value(&self) -> (r: usize)
        ensures
            r == self.spec_value(),
    {
        self.value
    }
}

/// Whether `d` was drawn from `low` up to, but not including, `high`.
pub open spec fn drawn_in(d: Draw, low: usize, high: usize) -> bool {
    &&& d.low() == low
    &&& d.high() == high
    &&& low <= d.value() < high
}

/// A number drawn at random from `low` up to, but not including, `high`
/// (`rand::thread_rng` and `Rng::gen_range`, which panics unless
/// `low < high`). Which number comes out is left to chance.
#[verifier::external_body]
fn roll(low: usize, high: usize) -> (r: usize)
    requires
        low < high,
    ensures
        low <= r < high,
{
    rand::Rng::gen_range(&mut rand::thread_rng(), low, high)
}

/// Draws a number from `low` up to, but not including, `high`.
pub fn draw(low: usize, high: usize) -> (d: Draw)
    requires
        low < high,
    ensures
        drawn_in(d, low, high),
{
    let value = roll(low, high);
    Draw { low, high, value }
}

} // verus!
