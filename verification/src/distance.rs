//! The distance travelled.

use vstd::prelude::*;
use vstd::string::StringExecFns;
use crate::ieee::single::Single;
use crate::text::{decimal, decimal_text};

verus! {

/// Accumulates the distance that the world has scrolled.
#[derive(Debug, Clone, Copy, PartialEq)]
pub struct DistanceTracker {
    pub distance: Single,
}

impl DistanceTracker {
    /// A tracker at zero.
    pub fn new() -> (r: Self)
        ensures
            r.distance == Single::whole(0),
    {
        Self { distance: Single::from_int(0) }
    }

    /// Adds the distance scrolled in `dt` seconds.
    pub fn update(&mut self, scroll_speed: Single, dt: Single)
        ensures
            final(self).distance == old(self).distance.plus(scroll_speed.times(dt)),
    {
        self.distance = self.distance.add(scroll_speed.mul(dt));
    }

    /// Back to zero.
    pub fn reset(&mut self)
        ensures
            final(self).distance == Single::whole(0),
    {
        self.distance = Single::from_int(0);
    }

    /// The whole part of the distance.
    pub fn distance_as_int(&self) -> (r: u32)
        ensures
            r == self.distance.truncated(),
    {
        self.distance.to_u32()
    }

    /// The whole part of the distance as text, with the unit.
    pub fn distance_formatted(&self) -> (r: String)
        ensures
            r@ == decimal(self.distance.truncated() as nat) + "m"@,
    {
        decimal_text(self.distance_as_int() as u64).concat("m")
    }
}

impl Default for DistanceTracker {
    fn default() -> (r: Self)
        ensures
            r.distance == Single::whole(0),
    {
        Self::new()
    }
}

} // verus!
