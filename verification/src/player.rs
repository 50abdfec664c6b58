//! The player's craft: thrust, horizontal movement within the screen, and
//! the step from velocity to position.

use vstd::prelude::*;
use crate::ieee::single::Single;

verus! {

/// A point or a velocity in the plane.
#[derive(Debug, Clone, Copy, PartialEq)]
pub struct Vec2 {
    pub x: Single,
    pub y: Single,
}

impl Vec2 {
    /// The vector with these coordinates.
    pub fn new(x: Single, y: Single) -> (r: Self)
        ensures
            r == (Vec2 { x, y }),
    {
        Self { x, y }
    }

    /// The zero vector.
    pub fn zero() -> (r: Self)
        ensures
            r == (Vec2 { x: Single::whole(0), y: Single::whole(0) }),
    {
        Self { x: Single::from_int(0), y: Single::from_int(0) }
    }
}

/// What the player asks for in one frame. The tractor flags are set on the
/// frame on which the key goes down only.
#[derive(Debug, Clone, Copy)]
pub struct PlayerInput {
    pub up: bool,
    pub down: bool,
    pub left: bool,
    pub right: bool,
    pub tractor_up: bool,
    pub tractor_down: bool,
}

impl Default for PlayerInput {
    fn default() -> (r: Self)
        ensures
            r == (PlayerInput {
                up: false,
                down: false,
                left: false,
                right: false,
                tractor_up: false,
                tractor_down: false,
            }),
    {
        Self {
            up: false,
            down: false,
            left: false,
            right: false,
            tractor_up: false,
            tractor_down: false,
        }
    }
}

/// Player physics constants.
pub struct PlayerConstants;

impl PlayerConstants {
    /// Downward acceleration, in pixels per second squared: none.
    pub fn gravity() -> (r: Single)
        ensures
            r == Single::whole(0),
    {
        Single::from_int(0)
    }

    /// Acceleration of the thrusters; negative is upward.
    pub fn thrust() -> (r: Single)
        ensures
            r == Single::whole(-400),
    {
        Single::from_int(-400)
    }

    /// The greatest horizontal speed, in pixels per second.
    pub fn max_horizontal_speed() -> (r: Single)
        ensures
            r == Single::whole(200),
    {
        Single::from_int(200)
    }

    /// The part of the thrust that pushes downward.
    pub fn down_thrust_multiplier() -> (r: Single)
        ensures
            r == Single::ratio(1, 2),
    {
        Single::from_ratio(1, 2)
    }
}

/// The player's craft.
#[derive(Debug, Clone, Copy)]
pub struct Player {
    pub pos: Vec2,
    pub vel: Vec2,
}

impl Player {
    /// The player after gravity has acted for `dt` seconds.
    pub open spec fn fallen(self, dt: Single) -> Player {
        Player {
            vel: Vec2 { y: self.vel.y.plus(Single::whole(0).times(dt)), ..self.vel },
            ..self
        }
    }

    /// The player after the thrusters have fired for `dt` seconds: upward by
    /// the full thrust, downward by half of it.
    pub open spec fn thrusted(self, dt: Single, input: PlayerInput) -> Player {
        let up = if input.up {
            self.vel.y.plus(Single::whole(-400).times(dt))
        } else {
            self.vel.y
        };
        let down = if input.down {
            up.plus(Single::whole(-400).negation().times(Single::ratio(1, 2)).times(dt))
        } else {
            up
        };
        Player { vel: Vec2 { y: down, ..self.vel }, ..self }
    }

    /// The player after horizontal movement. The craft is carried along with
    /// the scrolling world. It accelerates to the left and to the right at
    /// 800, but not against the edge of the screen at which it stands; its
    /// speed is held within 200. At an edge, still moving outward, it is put
    /// on the edge and stopped.
    pub open spec fn steered(
        self,
        dt: Single,
        input: PlayerInput,
        scroll_speed: Single,
        camera_offset_x: Single,
    ) -> Player {
        let carried = self.pos.x.plus(scroll_speed.times(dt));
        let screen_x = carried.minus(camera_offset_x);
        let at_left = screen_x.at_most(Single::whole(15));
        let at_right = screen_x.at_least(Single::whole(785));
        let push = Single::whole(800).times(dt);
        let leftward = if input.left && (!at_left || self.vel.x.greater_than(Single::whole(0))) {
            self.vel.x.minus(push)
        } else {
            self.vel.x
        };
        let rightward = if input.right && (!at_right || leftward.less_than(Single::whole(0))) {
            leftward.plus(push)
        } else {
            leftward
        };
        let speed = rightward.clamped(Single::whole(200).negation(), Single::whole(200));
        if at_left && speed.less_than(Single::whole(0)) {
            Player {
                pos: Vec2 { x: camera_offset_x.plus(Single::whole(15)), ..self.pos },
                vel: Vec2 { x: Single::whole(0), ..self.vel },
            }
        } else if at_right && speed.greater_than(Single::whole(0)) {
            Player {
                pos: Vec2 { x: camera_offset_x.plus(Single::whole(785)), ..self.pos },
                vel: Vec2 { x: Single::whole(0), ..self.vel },
            }
        } else {
            Player { pos: Vec2 { x: carried, ..self.pos }, vel: Vec2 { x: speed, ..self.vel } }
        }
    }

    /// The player moved by its velocity for `dt` seconds.
    pub open spec fn moved(self, dt: Single) -> Player {
        Player {
            pos: Vec2 {
                x: self.pos.x.plus(self.vel.x.times(dt)),
                y: self.pos.y.plus(self.vel.y.times(dt)),
            },
            ..self
        }
    }

    /// The player after one frame of `dt` seconds.
    pub open spec fn ticked(
        self,
        dt: Single,
        input: PlayerInput,
        scroll_speed: Single,
        camera_offset_x: Single,
    ) -> Player {
        self.fallen(dt).thrusted(dt, input).steered(dt, input, scroll_speed, camera_offset_x).moved(
            dt,
        )
    }

    /// A player at rest.
    pub fn new(pos: Vec2) -> (r: Self)
        ensures
            r == (Player { pos, vel: Vec2 { x: Single::whole(0), y: Single::whole(0) } }),
    {
        Self { pos, vel: Vec2::zero() }
    }

    /// Advances the player by one frame: gravity, thrust, horizontal
    /// movement, then the step from velocity to position.
    pub fn tick(
        &mut self,
        dt: Single,
        input: PlayerInput,
        scroll_speed: Single,
        camera_offset_x: Single,
    )
        ensures
            *final(self) == old(self).ticked(dt, input, scroll_speed, camera_offset_x),
    {
        self.apply_gravity(dt);
        self.apply_thrust(dt, input);
        self.apply_horizontal_movement(dt, input, scroll_speed, camera_offset_x);
        self.update_position(dt);
    }

    fn apply_gravity(&mut self, dt: Single)
        ensures
            *final(self) == old(self).fallen(dt),
    {
        self.vel.y = self.vel.y.add(PlayerConstants::gravity().mul(dt));
    }

    fn apply_thrust(&mut self, dt: Single, input: PlayerInput)
        ensures
            *final(self) == old(self).thrusted(dt, input),
    {
        if input.up {
            self.vel.y = self.vel.y.add(PlayerConstants::thrust().mul(dt));
        }
        if input.down {
            self.vel.y = self.vel.y.add(
                PlayerConstants::thrust().neg().mul(PlayerConstants::down_thrust_multiplier()).mul(
                    dt,
                ),
            );
        }
    }

    fn apply_horizontal_movement(
        &mut self,
        dt: Single,
        input: PlayerInput,
        scroll_speed: Single,
        camera_offset_x: Single,
    )
        ensures
            *final(self) == old(self).steered(dt, input, scroll_speed, camera_offset_x),
    {
        let horizontal_acceleration = Single::from_int(800);
        let min_screen_x = Single::from_int(15);
        let max_screen_x = Single::from_int(785);
        let zero = Single::from_int(0);

        self.pos.x = self.pos.x.add(scroll_speed.mul(dt));

        let screen_x = self.pos.x.sub(camera_offset_x);
        let at_left_boundary = screen_x.le(min_screen_x);
        let at_right_boundary = screen_x.ge(max_screen_x);

        if input.left && (!at_left_boundary || self.vel.x.gt(zero)) {
            self.vel.x = self.vel.x.sub(horizontal_acceleration.mul(dt));
        }
        if input.right && (!at_right_boundary || self.vel.x.lt(zero)) {
            self.vel.x = self.vel.x.add(horizontal_acceleration.mul(dt));
        }
        self.vel.x = self.vel.x.clamp(
            PlayerConstants::max_horizontal_speed().neg(),
            PlayerConstants::max_horizontal_speed(),
        );

        if at_left_boundary && self.vel.x.lt(zero) {
            self.pos.x = camera_offset_x.add(min_screen_x);
            self.vel.x = zero;
        } else if at_right_boundary && self.vel.x.gt(zero) {
            self.pos.x = camera_offset_x.add(max_screen_x);
            self.vel.x = zero;
        }
    }

    fn update_position(&mut self, dt: Single)
        ensures
            *final(self) == old(self).moved(dt),
    {
        self.pos.x = self.pos.x.add(self.vel.x.mul(dt));
        self.pos.y = self.pos.y.add(self.vel.y.mul(dt));
    }
}

} // verus!
