//! The numbers that tune the game, grouped by subsystem.

use vstd::prelude::*;
use crate::ieee::single::Single;

verus! {

/// Pickup system constants.
pub struct PickupConstants;

impl PickupConstants {
    /// Seed offset that sets the pickup stream apart from the cave's.
    pub const RNG_SEED_OFFSET: u32 = 42;

    /// Size of a pickup, in pixels.
    pub fn size() -> (r: Single)
        ensures
            r == Single::whole(20),
    {
        Single::from_int(20)
    }

    /// Clearance between a pickup and the wall it sits on.
    pub fn wall_offset() -> (r: Single)
        ensures
            r == Single::whole(5),
    {
        Single::from_int(5)
    }

    /// The fraction by which the distance between spawns varies.
    pub fn spawn_distance_variation() -> (r: Single)
        ensures
            r == Single::ratio(3, 10),
    {
        Single::from_ratio(3, 10)
    }

    /// Distance before the first pickup may appear.
    pub fn initial_spawn_delay() -> (r: Single)
        ensures
            r == Single::whole(800),
    {
        Single::from_int(800)
    }

    /// Fuel spawn distance where no level gives one.
    pub fn default_fuel_spawn_distance() -> (r: Single)
        ensures
            r == Single::whole(300),
    {
        Single::from_int(300)
    }
}

/// Fuel refill constants.
pub struct FuelConstants;

impl FuelConstants {
    /// The part of the tank that a fuel pickup restores.
    pub fn refill_percentage() -> (r: Single)
        ensures
            r == Single::ratio(275, 1000),
    {
        Single::from_ratio(275, 1000)
    }
}

/// Cave generation constants.
pub struct CaveConstants;

impl CaveConstants {
    /// Fuel spawn distance for cave operations where no level gives one.
    pub fn default_fuel_spawn_distance() -> (r: Single)
        ensures
            r == Single::whole(1000),
    {
        Single::from_int(1000)
    }
}

/// Tractor beam constants.
pub struct TractorBeamConstants;

impl TractorBeamConstants {
    /// How far the beam reaches, in pixels.
    pub fn max_range() -> (r: Single)
        ensures
            r == Single::whole(300),
    {
        Single::from_int(300)
    }

    /// Width of the beam in which attraction starts.
    pub fn beam_width() -> (r: Single)
        ensures
            r == Single::whole(32),
    {
        Single::from_int(32)
    }

    /// Width of the wider band in which attraction, once started, goes on.
    pub fn attraction_hold_width() -> (r: Single)
        ensures
            r == Single::whole(48),
    {
        Single::from_int(48)
    }

    /// Speed at which pickups move toward the player, in pixels per second.
    pub fn attraction_speed() -> (r: Single)
        ensures
            r == Single::whole(200),
    {
        Single::from_int(200)
    }

    /// How long the beam stays active, in seconds.
    pub fn max_duration() -> (r: Single)
        ensures
            r == Single::whole(2),
    {
        Single::from_int(2)
    }
}

} // verus!
