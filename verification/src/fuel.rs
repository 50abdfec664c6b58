//! The fuel tank: burning, refilling, and the signal that it ran empty.

use vstd::prelude::*;
use crate::ieee::facts::lemma_whole;
use crate::ieee::model::{equal_bits, less_bits};
use crate::ieee::single::Single;

verus! {

/// A fuel tank with its level, its capacity and its burn rate per second.
#[derive(Debug, Clone, Copy, PartialEq)]
pub struct Fuel {
    pub current: Single,
    pub max: Single,
    pub burn_rate: Single,
}

impl Fuel {
    /// Whether the tank is empty.
    pub open spec fn empty(self) -> bool {
        self.current.at_most(Single::whole(0))
    }

    /// The tank after burning for `dt` seconds: the level never falls below
    /// zero.
    pub open spec fn burned(self, dt: Single) -> Fuel {
        Fuel {
            current: self.current.minus(self.burn_rate.times(dt)).maximum(Single::whole(0)),
            max: self.max,
            burn_rate: self.burn_rate,
        }
    }

    /// The tank after adding `amount`: the level never exceeds the capacity.
    pub open spec fn refilled(self, amount: Single) -> Fuel {
        Fuel {
            current: self.current.plus(amount).minimum(self.max),
            max: self.max,
            burn_rate: self.burn_rate,
        }
    }

    /// A full tank.
    pub fn new(max: Single, burn_rate: Single) -> (r: Self)
        ensures
            r == (Fuel { current: max, max, burn_rate }),
    {
        Self { current: max, max, burn_rate }
    }

    /// Burns fuel for `dt` seconds while `consuming`. Returns true on the one
    /// call on which the tank runs empty, not on later calls.
    pub fn burn(&mut self, dt: Single, consuming: bool) -> (emptied: bool)
        ensures
            !consuming ==> *final(self) == *old(self) && !emptied,
            consuming ==> *final(self) == old(self).burned(dt),
            consuming ==> emptied == (!old(self).empty() && final(self).empty()),
    {
        if !consuming {
            return false;
        }
        let burn_amount = self.burn_rate.mul(dt);
        let was_empty = self.current.le(Single::from_int(0));
        self.current = self.current.sub(burn_amount).max(Single::from_int(0));
        !was_empty && self.current.le(Single::from_int(0))
    }

    /// Adds fuel, up to the capacity.
    pub fn refill(&mut self, amount: Single)
        ensures
            *final(self) == old(self).refilled(amount),
    {
        self.current = self.current.add(amount).min(self.max);
    }

    /// Whether the tank is empty.
    pub fn is_empty(&self) -> (r: bool)
        ensures
            r == self.empty(),
    {
        self.current.le(Single::from_int(0))
    }

    /// The level as a part of the capacity; zero where the capacity is not
    /// positive.
    pub fn ratio(&self) -> (r: Single)
        ensures
            r == if self.max.at_most(Single::whole(0)) {
                Single::whole(0)
            } else {
                self.current.over(self.max)
            },
    {
        if self.max.le(Single::from_int(0)) {
            Single::from_int(0)
        } else {
            self.current.div(self.max)
        }
    }
}

/// Burning never leaves a level below zero, whatever the tank held and
/// however long it burned.
pub proof fn lemma_burned_level(fuel: Fuel, dt: Single)
    ensures
        fuel.burned(dt).current.at_least(Single::whole(0)),
{
    reveal(less_bits);
    reveal(equal_bits);
    lemma_whole(0);
}

/// Refilling never leaves a level above the capacity.
pub proof fn lemma_refilled_level(fuel: Fuel, amount: Single)
    requires
        !fuel.max.is_nan(),
    ensures
        fuel.refilled(amount).current.at_most(fuel.max),
{
    reveal(less_bits);
    reveal(equal_bits);
}

/// A tank that is empty stays empty while it burns, and gives no signal
/// again: the signal comes once, when the tank runs empty.
pub proof fn lemma_empty_stays_empty(fuel: Fuel, dt: Single)
    requires
        fuel.empty(),
        fuel.current.is_finite(),
        fuel.burn_rate.at_least(Single::whole(0)),
        dt.at_least(Single::whole(0)),
    ensures
        fuel.burned(dt).empty(),
{
    reveal(less_bits);
    reveal(equal_bits);
    lemma_whole(0);
    crate::ieee::facts::lemma_burn_after_empty(fuel.current.bits, fuel.burn_rate.bits, dt.bits);
}

} // verus!
