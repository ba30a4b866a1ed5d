//! Delta gauges: pairs of a previous and a current sample of a counter that
//! only grows, from which a rate is taken once both samples exist.

use vstd::prelude::*;

verus! {

/// Two samples of one counter. `current` is the sample taken last, `previous`
/// the one before it. A pair whose `previous` is zero is cold: no sample came
/// before the current one, and it gives no rate.
#[derive(Clone, Copy, Debug, PartialEq, Eq, Structural)]
pub struct CounterPair {
    pub previous: u64,
    pub current: u64,
}

/// A part of a whole, kept as two integers so that nothing is rounded.
#[derive(Clone, Copy, Debug, PartialEq, Eq, Structural)]
pub struct Ratio {
    pub numerator: u64,
    pub denominator: u64,
}

/// `a - b`, or zero where `b` is the greater.
pub open spec fn saturating_difference(a: u64, b: u64) -> u64 {
    if a >= b {
        (a - b) as u64
    } else {
        0
    }
}

impl CounterPair {
    /// A pair that has seen no sample.
    pub fn new() -> (pair: CounterPair)
        ensures
            pair == (CounterPair { previous: 0, current: 0 }),
            pair.is_cold(),
    {
        CounterPair { previous: 0, current: 0 }
    }

    /// Whether no sample came before the current one.
    pub open spec fn is_cold(&self) -> bool {
        self.previous == 0
    }

    /// The growth from the previous sample to the current one, for a pair
    /// that is not cold. A counter that fell back gives zero, never a
    /// negative growth.
    pub open spec fn growth(&self) -> Option<u64> {
        if self.is_cold() {
            None
        } else {
            Some(saturating_difference(self.current, self.previous))
        }
    }

    /// Takes a new sample: the current sample becomes the previous one.
    pub fn record(&mut self, sample: u64)
        ensures
            *final(self) == (CounterPair { previous: old(self).current, current: sample }),
    {
        self.previous = self.current;
        self.current = sample;
    }

    /// The growth from the previous sample to the current one; `None` for a
    /// cold pair.
    pub fn delta(&self) -> (delta: Option<u64>)
        ensures
            delta == self.growth(),
    {
        if self.previous > 0 {
            Some(self.current.saturating_sub(self.previous))
        } else {
            None
        }
    }
}

/// A cold pair has no rate: its delta is absent, which is not the same as a
/// delta of zero.
pub proof fn lemma_cold_pair_has_no_rate(pair: CounterPair)
    requires
        pair.is_cold(),
    ensures
        pair.growth() is None,
        pair.growth() != Some(0u64),
{
}

impl Ratio {
    /// The whole part of `numerator * factor / denominator`; nothing where
    /// the denominator is zero.
    pub open spec fn scaled_value(&self, factor: u64) -> Option<u128> {
        if self.denominator == 0 {
            None
        } else {
            Some((self.numerator as int * factor as int / self.denominator as int) as u128)
        }
    }

    /// The ratio times `factor`, rounded down: with 100 a percentage, with 8
    /// the bits in a ratio of bytes. `None` where the denominator is zero.
    pub fn scaled(&self, factor: u64) -> (value: Option<u128>)
        ensures
            value == self.scaled_value(factor),
    {
        if self.denominator == 0 {
            None
        } else {
            assert(self.numerator as int * factor as int <= 0xffff_ffff_ffff_ffff
                * 0xffff_ffff_ffff_ffff) by (nonlinear_arith)
                requires
                    0 <= self.numerator as int <= 0xffff_ffff_ffff_ffff,
                    0 <= factor as int <= 0xffff_ffff_ffff_ffff,
            ;
            let product: u128 = self.numerator as u128 * factor as u128;
            Some(product / self.denominator as u128)
        }
    }
}

} // verus!
