//! The tractor beam: activation, direction, timed expiry, and the geometry
//! of what it reaches.

use vstd::prelude::*;
use crate::constants::TractorBeamConstants;
use crate::ieee::facts::{
    lemma_negated, lemma_sum_at_most, lemma_sum_sign, lemma_whole, lemma_whole_order,
    lemma_whole_over,
};
use crate::ieee::model::{equal_bits, less_bits};
use crate::ieee::single::Single;

verus! {

/// Direction of the tractor beam.
#[derive(Debug, Clone, Copy, PartialEq, Eq, Structural)]
pub enum BeamDir {
    Up,
    Down,
}

/// A tractor beam: inactive, or active in a direction that is fixed until
/// its timer runs out.
#[derive(Debug, Clone, Copy, PartialEq)]
pub struct TractorBeam {
    pub active: bool,
    pub dir: BeamDir,
    pub timer: Single,
}

/// The vector that nothing pulls along.
pub open spec fn zero_vector() -> (Single, Single) {
    (Single::whole(0), Single::whole(0))
}

impl TractorBeam {
    /// The timer is never negative, and it is zero while the beam is
    /// inactive.
    pub open spec fn well_formed(self) -> bool {
        &&& self.timer.at_least(Single::whole(0))
        &&& !self.active ==> self.timer == Single::whole(0)
    }

    /// An inactive beam.
    pub open spec fn idle(dir: BeamDir) -> TractorBeam {
        TractorBeam { active: false, dir, timer: Single::whole(0) }
    }

    /// The beam after `activate(dir)`: a fresh activation where it was
    /// inactive, unchanged where it was active.
    pub open spec fn activated(self, dir: BeamDir) -> TractorBeam {
        if self.active {
            self
        } else {
            TractorBeam { active: true, dir, timer: Single::whole(2) }
        }
    }

    /// The beam after `tick(dt)`.
    pub open spec fn ticked(self, dt: Single) -> TractorBeam {
        if !self.active {
            self
        } else if self.timer.minus(dt).at_most(Single::whole(0)) {
            TractorBeam::idle(self.dir)
        } else {
            TractorBeam { active: true, dir: self.dir, timer: self.timer.minus(dt) }
        }
    }

    /// Whether `target` lies in the beam's direction from `player`, within
    /// half of `width` to either side and within the beam's range.
    pub open spec fn reaches(
        self,
        player: (Single, Single),
        target: (Single, Single),
        width: Single,
    ) -> bool {
        let dx = target.0.minus(player.0);
        let dy = target.1.minus(player.1);
        &&& self.active
        &&& match self.dir {
            BeamDir::Up => dy.less_than(Single::whole(0)),
            BeamDir::Down => dy.greater_than(Single::whole(0)),
        }
        &&& dx.absolute().at_most(width.over(Single::whole(2)))
        &&& dy.absolute().at_most(Single::whole(300))
    }

    /// Whether attraction of `target` may start.
    pub open spec fn in_beam(self, player: (Single, Single), target: (Single, Single)) -> bool {
        self.reaches(player, target, Single::whole(32))
    }

    /// Whether attraction of `target`, once started, goes on.
    pub open spec fn holds(self, player: (Single, Single), target: (Single, Single)) -> bool {
        self.reaches(player, target, Single::whole(48))
    }

    /// The unit vector from `target` toward `player` where the beam reaches
    /// the target and the two differ, the zero vector elsewhere.
    pub open spec fn force(self, player: (Single, Single), target: (Single, Single)) -> (
        Single,
        Single,
    ) {
        let dx = player.0.minus(target.0);
        let dy = player.1.minus(target.1);
        let distance = dx.times(dx).plus(dy.times(dy)).root();
        if self.in_beam(player, target) && distance.greater_than(Single::whole(0)) {
            (dx.over(distance), dy.over(distance))
        } else {
            zero_vector()
        }
    }

    /// How long an activation lasts, in seconds.
    pub fn max_duration() -> (r: Single)
        ensures
            r == Single::whole(2),
    {
        TractorBeamConstants::max_duration()
    }

    /// How far the beam reaches, in pixels.
    pub fn max_range() -> (r: Single)
        ensures
            r == Single::whole(300),
    {
        TractorBeamConstants::max_range()
    }

    /// An inactive beam.
    pub fn new() -> (r: Self)
        ensures
            r == TractorBeam::idle(BeamDir::Up),
    {
        Self { active: false, dir: BeamDir::Up, timer: Single::from_int(0) }
    }

    /// Activates the beam in a direction, unless it is active already: an
    /// active beam keeps its direction and its timer.
    pub fn activate(&mut self, dir: BeamDir)
        ensures
            *final(self) == old(self).activated(dir),
    {
        if !self.active {
            self.active = true;
            self.dir = dir;
            self.timer = Self::max_duration();
        }
    }

    /// Counts the timer down by `dt` and deactivates the beam when it has
    /// run out.
    pub fn tick(&mut self, dt: Single)
        ensures
            *final(self) == old(self).ticked(dt),
    {
        if self.active {
            self.timer = self.timer.sub(dt);
            if self.timer.le(Single::from_int(0)) {
                self.active = false;
                self.timer = Single::from_int(0);
            }
        }
    }

    /// Whether the beam is active.
    pub fn is_active(&self) -> (r: bool)
        ensures
            r == self.active,
    {
        self.active
    }

    /// The time left of the activation; zero for an inactive beam.
    pub fn remaining_time(&self) -> (r: Single)
        ensures
            r == if self.active {
                self.timer.maximum(Single::whole(0))
            } else {
                Single::whole(0)
            },
    {
        if self.active {
            self.timer.max(Single::from_int(0))
        } else {
            Single::from_int(0)
        }
    }

    /// Whether attraction of the target may start: the narrow band.
    pub fn is_point_in_beam(
        &self,
        player_pos: (Single, Single),
        target_pos: (Single, Single),
    ) -> (r: bool)
        ensures
            r == self.in_beam(player_pos, target_pos),
    {
        self.is_point_in_beam_area(player_pos, target_pos, TractorBeamConstants::beam_width())
    }

    /// Whether attraction of the target goes on: the wider band.
    pub fn should_maintain_attraction(
        &self,
        player_pos: (Single, Single),
        target_pos: (Single, Single),
    ) -> (r: bool)
        ensures
            r == self.holds(player_pos, target_pos),
    {
        self.is_point_in_beam_area(
            player_pos,
            target_pos,
            TractorBeamConstants::attraction_hold_width(),
        )
    }

    fn is_point_in_beam_area(
        &self,
        player_pos: (Single, Single),
        target_pos: (Single, Single),
        beam_width: Single,
    ) -> (r: bool)
        ensures
            r == self.reaches(player_pos, target_pos, beam_width),
    {
        if !self.active {
            return false;
        }
        let dx = target_pos.0.sub(player_pos.0);
        let dy = target_pos.1.sub(player_pos.1);
        let in_direction = match self.dir {
            BeamDir::Up => dy.lt(Single::from_int(0)),
            BeamDir::Down => dy.gt(Single::from_int(0)),
        };
        if !in_direction {
            return false;
        }
        let beam_half_width = beam_width.div(Single::from_int(2));
        let horizontal_distance = dx.abs();
        let vertical_distance = dy.abs();
        horizontal_distance.le(beam_half_width) && vertical_distance.le(Self::max_range())
    }

    /// The pull on a target: a unit vector toward the player.
    pub fn get_attraction_force(
        &self,
        player_pos: (Single, Single),
        target_pos: (Single, Single),
    ) -> (r: (Single, Single))
        ensures
            r == self.force(player_pos, target_pos),
    {
        if !self.is_point_in_beam(player_pos, target_pos) {
            return (Single::from_int(0), Single::from_int(0));
        }
        let dx = player_pos.0.sub(target_pos.0);
        let dy = player_pos.1.sub(target_pos.1);
        let distance = dx.mul(dx).add(dy.mul(dy)).sqrt();
        if distance.gt(Single::from_int(0)) {
            (dx.div(distance), dy.div(distance))
        } else {
            (Single::from_int(0), Single::from_int(0))
        }
    }
}

/// Activating a beam that is active changes nothing: neither its direction
/// nor its timer.
pub proof fn lemma_activation_is_locked(beam: TractorBeam, dir: BeamDir)
    requires
        beam.active,
    ensures
        beam.activated(dir) == beam,
{
}

/// A tick of at least the time that is left deactivates the beam and sets
/// its timer to zero.
pub proof fn lemma_beam_expires(beam: TractorBeam, dt: Single)
    requires
        beam.active,
        beam.timer.is_finite(),
        dt.is_finite(),
        beam.timer.at_most(dt),
    ensures
        beam.ticked(dt) == TractorBeam::idle(beam.dir),
{
    reveal(less_bits);
    reveal(equal_bits);
    lemma_whole(0);
    lemma_negated(dt.bits);
    lemma_sum_at_most(beam.timer.bits, dt.negation().bits, Single::whole(0).bits);
}

/// A new beam is well formed, and activation and ticks by a finite time
/// keep a beam with a finite timer well formed: the timer never turns
/// negative.
pub proof fn lemma_beam_well_formed(beam: TractorBeam, dir: BeamDir, dt: Single)
    requires
        beam.well_formed(),
        beam.timer.is_finite(),
        dt.is_finite(),
    ensures
        TractorBeam::idle(dir).well_formed(),
        beam.activated(dir).well_formed(),
        beam.ticked(dt).well_formed(),
{
    reveal(less_bits);
    reveal(equal_bits);
    lemma_whole(0);
    lemma_whole(2);
    lemma_whole_order(0, 2);
    lemma_negated(dt.bits);
    lemma_sum_sign(beam.timer.bits, dt.negation().bits);
}

/// The band in which attraction starts lies within the band in which it
/// goes on: what the beam may begin to draw, it goes on drawing.
pub proof fn lemma_narrow_band_within_wide(
    beam: TractorBeam,
    player: (Single, Single),
    target: (Single, Single),
)
    requires
        beam.in_beam(player, target),
    ensures
        beam.holds(player, target),
{
    reveal(less_bits);
    reveal(equal_bits);
    lemma_whole_over(32, 2);
    lemma_whole_over(48, 2);
    lemma_whole(16);
    lemma_whole(24);
    crate::ieee::facts::lemma_one_positive();
}

impl Default for TractorBeam {
    fn default() -> (r: Self)
        ensures
            r == TractorBeam::idle(BeamDir::Up),
    {
        Self::new()
    }
}

} // verus!
