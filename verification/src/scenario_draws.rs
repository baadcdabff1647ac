//! The values the scenario random source hands out for ranged draws.
//!
//! The simulation's random source itself lives with the caller; the library
//! is verified for every value it may hand out. Each stored value is what
//! one `next_range_u32_inclusive(0, span)` call returned, in call order.
use vstd::prelude::*;

verus! {

/// Ranged-draw results in the order the scenario source produced them, and
/// how many of them have been spent.
pub struct ScenarioDraws {
    pub values: Vec<u32>,
    pub cursor: usize,
}

/// The distance between the two bounds of a ranged draw.
pub open spec fn ranged_span(low: i32, high: i32) -> int {
    if low <= high {
        high - low
    } else {
        low - high
    }
}

/// The smaller bound of a ranged draw.
pub open spec fn ranged_low(low: i32, high: i32) -> i32 {
    if low <= high {
        low
    } else {
        high
    }
}

impl ScenarioDraws {
    /// A source that hands out `values` in order.
    pub fn new(values: Vec<u32>) -> (draws: ScenarioDraws)
        ensures
            draws.values@ == values@,
            draws.cursor == 0,
    {
        ScenarioDraws { values, cursor: 0 }
    }

    /// How many values have been spent.
    pub fn consumed(&self) -> (n: usize)
        ensures
            n == self.cursor,
    {
        self.cursor
    }

    /// The `k`-th value after the cursor exists and lies in `0..=span`.
    pub open spec fn can_draw(self, k: int, span: int) -> bool {
        &&& 0 <= k
        &&& self.cursor + k < self.values.len()
        &&& self.values@[self.cursor + k] <= span
    }

    /// The result of a ranged draw between `low` and `high` that spends the
    /// `k`-th value after the cursor.
    pub open spec fn drawn(self, k: int, low: i32, high: i32) -> i32 {
        (ranged_low(low, high) + self.values@[self.cursor + k]) as i32
    }

    /// The same source with `n` more values spent.
    pub open spec fn advanced_by(self, n: int) -> ScenarioDraws {
        ScenarioDraws { values: self.values, cursor: (self.cursor + n) as usize }
    }

    /// Spend the next value, which the scenario source drew in `0..=span`.
    pub fn next_in(&mut self, span: u32) -> (value: u32)
        requires
            old(self).can_draw(0, span as int),
        ensures
            value == old(self).values@[old(self).cursor as int],
            value <= span,
            *final(self) == old(self).advanced_by(1),
    {
        assert(self.cursor < self.values.len());
        let value = self.values[self.cursor];
        self.cursor = self.cursor + 1;
        value
    }
}

/// A ranged draw between `low` and `high` in either order: equal bounds
/// answer `low` without spending a value; otherwise the smaller bound plus
/// one drawn value in `0..=span`.
pub fn random_ranged_i32(draws: &mut ScenarioDraws, low: i32, high: i32) -> (value: i32)
    requires
        low != high ==> old(draws).can_draw(0, ranged_span(low, high)),
    ensures
        low == high ==> value == low && *final(draws) == *old(draws),
        low != high ==> value == old(draws).drawn(0, low, high) && *final(draws) == old(draws).advanced_by(1),
        ranged_low(low, high) <= value <= ranged_low(low, high) + ranged_span(low, high),
{
    let (lo, hi) = if low <= high {
        (low, high)
    } else {
        (high, low)
    };
    let span: i64 = hi as i64 - lo as i64;
    if span == 0 {
        return lo;
    }
    let raw = draws.next_in(span as u32);
    (lo as i64 + raw as i64) as i32
}

/// A ranged draw does not depend on the order of its bounds: both orders
/// have the same smaller bound and span, ask the same of the source and,
/// from the same source, answer the same value; equal bounds answer the
/// bound itself.
pub proof fn law_ranged_draw_is_symmetric(draws: ScenarioDraws, k: int, low: i32, high: i32)
    ensures
        ranged_low(low, high) == ranged_low(high, low),
        ranged_span(low, high) == ranged_span(high, low),
        draws.can_draw(k, ranged_span(low, high)) == draws.can_draw(k, ranged_span(high, low)),
        draws.drawn(k, low, high) == draws.drawn(k, high, low),
        low == high ==> ranged_low(low, high) == low && ranged_span(low, high) == 0,
{
}

} // verus!
