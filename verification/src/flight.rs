//! The rules of a frame in flight: what burns fuel, what a pickup gives,
//! when the craft touches a wall, and where the beam meets one.

use vstd::prelude::*;
use crate::audio::{AudioEvent, AudioEventQueue, AudioState};
use crate::cave::{coverable, lemma_pickups_apart, Cave, CaveSegment, CaveState};
use crate::collision::{aabb_overlap, Aabb};
use crate::constants::{FuelConstants, PickupConstants};
use crate::distance::DistanceTracker;
use crate::fuel::Fuel;
use crate::game_state::{GameEvent, StateMachine};
use crate::ieee::single::Single;
use crate::pickup::{PickupState, PickupType};
use crate::player::{Player, PlayerInput};
use crate::tractor::{BeamDir, TractorBeam};

verus! {

/// The measures of the game world.
pub struct WorldConstants;

impl WorldConstants {
    /// The speed at which the world scrolls, in pixels per second.
    pub fn scroll_speed() -> (r: Single)
        ensures
            r == Single::whole(120),
    {
        Single::from_int(120)
    }

    /// Width and height of the player's craft.
    pub fn player_size() -> (r: (Single, Single))
        ensures
            r == (Single::whole(30), Single::whole(18)),
    {
        (Single::from_int(30), Single::from_int(18))
    }

    /// The fuel in a full tank.
    pub fn initial_fuel() -> (r: Single)
        ensures
            r == Single::whole(100),
    {
        Single::from_int(100)
    }

    /// The fuel that burns in a second of thrust.
    pub fn fuel_burn_rate() -> (r: Single)
        ensures
            r == Single::whole(20),
    {
        Single::from_int(20)
    }

    /// How long the screen flashes after a crash, in seconds.
    pub fn collision_flash_duration() -> (r: Single)
        ensures
            r == Single::ratio(3, 10),
    {
        Single::from_ratio(3, 10)
    }

    /// The width of the window.
    pub fn window_width() -> (r: Single)
        ensures
            r == Single::whole(800),
    {
        Single::from_int(800)
    }

    /// The height of the window.
    pub fn window_height() -> (r: Single)
        ensures
            r == Single::whole(600),
    {
        Single::from_int(600)
    }
}

/// The box that the player's craft fills: the position is its centre.
pub open spec fn player_box(player: Player) -> Aabb {
    Aabb {
        x: player.pos.x.minus(Single::whole(30).over(Single::whole(2))),
        y: player.pos.y.minus(Single::whole(18).over(Single::whole(2))),
        width: Single::whole(30),
        height: Single::whole(18),
    }
}

/// The rock above a segment's passage.
pub open spec fn ceiling_box(segment: CaveSegment) -> Aabb {
    Aabb { x: segment.x_start, y: Single::whole(0), width: segment.width, height: segment.ceiling }
}

/// The rock below a segment's passage, down to the lower edge of the
/// window.
pub open spec fn floor_box(segment: CaveSegment) -> Aabb {
    Aabb {
        x: segment.x_start,
        y: segment.floor,
        width: segment.width,
        height: Single::whole(600).minus(segment.floor),
    }
}

/// Whether the craft touches the ceiling or the floor of a segment.
pub open spec fn crashes_into(player: Player, segment: CaveSegment) -> bool {
    player_box(player).overlaps(ceiling_box(segment)) || player_box(player).overlaps(
        floor_box(segment),
    )
}

/// Whether `x` lies within a segment.
pub open spec fn spans(segment: CaveSegment, x: Single) -> bool {
    x.at_least(segment.x_start) && x.less_than(segment.end())
}

/// The height at which a beam from `x` meets the wall: the ceiling, for a
/// beam upward, or the floor of the first of the segments that spans `x`;
/// the edge of the window where none does.
pub open spec fn wall_height(segments: Seq<CaveSegment>, x: Single, beam_dir: BeamDir) -> Single
    decreases segments.len(),
{
    if segments.len() == 0 {
        match beam_dir {
            BeamDir::Up => Single::whole(0),
            BeamDir::Down => Single::whole(600),
        }
    } else if spans(segments[0], x) {
        match beam_dir {
            BeamDir::Up => segments[0].ceiling,
            BeamDir::Down => segments[0].floor,
        }
    } else {
        wall_height(segments.skip(1), x, beam_dir)
    }
}

/// The level of the flash timer after `dt` seconds: it counts down to zero.
pub open spec fn flash_after(timer: Single, dt: Single) -> Single {
    if !timer.greater_than(Single::whole(0)) {
        timer
    } else if timer.minus(dt).less_than(Single::whole(0)) {
        Single::whole(0)
    } else {
        timer.minus(dt)
    }
}

/// Whether the input of a frame burns fuel: thrust upward, downward or to
/// the right does.
pub fn is_consuming_fuel(input: PlayerInput) -> (r: bool)
    ensures
        r == (input.up || input.down || input.right),
{
    input.up || input.down || input.right
}

/// Counts the flash timer down by `dt`.
pub fn update_collision_flash(timer: Single, dt: Single) -> (r: Single)
    ensures
        r == flash_after(timer, dt),
{
    let zero = Single::from_int(0);
    if timer.gt(zero) {
        let left = timer.sub(dt);
        if left.lt(zero) {
            zero
        } else {
            left
        }
    } else {
        timer
    }
}

/// Gives the player what a pickup holds: a fuel pickup refills the tank by
/// the refill part of its capacity.
pub fn handle_pickup_collection(fuel: &mut Fuel, pickup_type: PickupType)
    ensures
        *final(fuel) == old(fuel).refilled(old(fuel).max.times(Single::ratio(275, 1000))),
{
    match pickup_type {
        PickupType::Fuel => {
            let refill_amount = fuel.max.mul(FuelConstants::refill_percentage());
            fuel.refill(refill_amount);
        },
    }
}

/// Whether the craft touches a wall of the cave in the window that begins
/// at `camera_offset_x`. The cave grows as far as that view asks.
pub fn check_player_collision(
    player: &Player,
    cave: &mut Cave,
    camera_offset_x: Single,
) -> (hit: bool)
    requires
        old(cave)@.well_formed(),
        coverable(camera_offset_x.plus(Single::whole(800))),
    ensures
        final(cave)@.well_formed(),
        final(cave)@ == old(cave)@.viewed(
            camera_offset_x.plus(Single::whole(800)),
            Single::whole(300),
        ),
        hit == exists|i: int|
            0 <= i < final(cave)@.visible(
                camera_offset_x,
                camera_offset_x.plus(Single::whole(800)),
            ).len() && crashes_into(
                *player,
                #[trigger] final(cave)@.visible(
                    camera_offset_x,
                    camera_offset_x.plus(Single::whole(800)),
                )[i],
            ),
{
    let size = WorldConstants::player_size();
    let player_pos = (
        player.pos.x.sub(size.0.div(Single::from_int(2))),
        player.pos.y.sub(size.1.div(Single::from_int(2))),
    );
    let view_start = camera_offset_x;
    let view_end = camera_offset_x.add(WorldConstants::window_width());
    let segments = cave.segments_in_view(
        view_start,
        view_end,
        PickupConstants::default_fuel_spawn_distance(),
    );
    let mut i: usize = 0;
    while i < segments.len()
        invariant
            i <= segments.len(),
            size == (Single::whole(30), Single::whole(18)),
            player_pos == (player_box(*player).x, player_box(*player).y),
            cave@.well_formed(),
            cave@ == old(cave)@.viewed(
                camera_offset_x.plus(Single::whole(800)),
                Single::whole(300),
            ),
            segments@ == cave@.visible(camera_offset_x, camera_offset_x.plus(Single::whole(800))),
            forall|j: int| 0 <= j < i ==> !crashes_into(*player, #[trigger] segments@[j]),
        decreases segments.len() - i,
    {
        let segment = segments[i];
        let ceiling_pos = (segment.x_start, Single::from_int(0));
        let ceiling_size = (segment.width, segment.ceiling);
        if aabb_overlap(player_pos, size, ceiling_pos, ceiling_size) {
            return true;
        }
        let floor_pos = (segment.x_start, segment.floor);
        let floor_size = (segment.width, WorldConstants::window_height().sub(segment.floor));
        if aabb_overlap(player_pos, size, floor_pos, floor_size) {
            return true;
        }
        i = i + 1;
    }
    false
}

/// The height at which a beam from `x_pos` meets the wall of the cave. The
/// cave grows as far as a view around that place asks.
pub fn get_cave_wall_height_at_position(
    x_pos: Single,
    beam_dir: BeamDir,
    cave: &mut Cave,
) -> (r: Single)
    requires
        old(cave)@.well_formed(),
        coverable(x_pos.plus(Single::whole(50))),
    ensures
        final(cave)@.well_formed(),
        final(cave)@ == old(cave)@.viewed(x_pos.plus(Single::whole(50)), Single::whole(300)),
        r == wall_height(
            final(cave)@.visible(
                x_pos.minus(Single::whole(50)),
                x_pos.plus(Single::whole(50)),
            ),
            x_pos,
            beam_dir,
        ),
{
    let view_start = x_pos.sub(Single::from_int(50));
    let view_end = x_pos.add(Single::from_int(50));
    let segments = cave.segments_in_view(
        view_start,
        view_end,
        PickupConstants::default_fuel_spawn_distance(),
    );
    proof {
        assert(segments@.skip(0) =~= segments@);
    }
    let mut i: usize = 0;
    while i < segments.len()
        invariant
            i <= segments.len(),
            cave@.well_formed(),
            cave@ == old(cave)@.viewed(x_pos.plus(Single::whole(50)), Single::whole(300)),
            segments@ == cave@.visible(
                x_pos.minus(Single::whole(50)),
                x_pos.plus(Single::whole(50)),
            ),
            wall_height(segments@, x_pos, beam_dir) == wall_height(
                segments@.skip(i as int),
                x_pos,
                beam_dir,
            ),
        decreases segments.len() - i,
    {
        let segment = segments[i];
        proof {
            assert(segments@.skip(i as int)[0] == segment);
            assert(segments@.skip(i as int).skip(1) =~= segments@.skip(i + 1));
        }
        if x_pos.ge(segment.x_start) && x_pos.lt(segment.x_end()) {
            return match beam_dir {
                BeamDir::Up => segment.ceiling,
                BeamDir::Down => segment.floor,
            };
        }
        i = i + 1;
    }
    match beam_dir {
        BeamDir::Up => Single::from_int(0),
        BeamDir::Down => WorldConstants::window_height(),
    }
}

/// Lets the beam draw the pickups of the cave for a frame.
pub fn update_tractor_beam_pickup_attraction(
    cave: &mut Cave,
    tractor_beam: &TractorBeam,
    player: &Player,
    dt: Single,
)
    ensures
        final(cave)@ == drawn_cave(old(cave)@, *tractor_beam, *player, dt),
{
    let player_pos = (player.pos.x, player.pos.y);
    cave.pickup_manager_mut().update_tractor_beam_attraction(tractor_beam, player_pos, dt);
}

/// The cave after the beam has drawn its pickups for a frame.
pub open spec fn drawn_cave(
    cave: CaveState,
    tractor_beam: TractorBeam,
    player: Player,
    dt: Single,
) -> CaveState {
    CaveState {
        pickups: cave.pickups.attracted(tractor_beam, (player.pos.x, player.pos.y), dt),
        ..cave
    }
}

/// Whether the craft touches a wall in the window that begins at
/// `camera_offset_x`.
pub open spec fn crashed_in(cave: CaveState, player: Player, camera_offset_x: Single) -> bool {
    let visible = cave.visible(camera_offset_x, camera_offset_x.plus(Single::whole(800)));
    exists|i: int| 0 <= i < visible.len() && crashes_into(player, #[trigger] visible[i])
}

/// The pickups after the craft has met them: the first one that it touches
/// is collected, and the collected ones far behind the camera go.
pub open spec fn pickups_after_flight(
    pickups: PickupState,
    player: Player,
    camera_offset_x: Single,
) -> PickupState {
    match pickups.first_hit(player_box(player)) {
        Some(index) => pickups.collected(index).cleaned(camera_offset_x),
        None => pickups.cleaned(camera_offset_x),
    }
}

/// Moves the camera and the distance by what the world scrolls in `dt`
/// seconds, and returns the place of the camera.
pub fn update_camera_and_distance(
    camera_offset_x: Single,
    distance_tracker: &mut DistanceTracker,
    dt: Single,
) -> (r: Single)
    ensures
        r == camera_offset_x.plus(Single::whole(120).times(dt)),
        final(distance_tracker).distance == old(distance_tracker).distance.plus(
            Single::whole(120).times(dt),
        ),
{
    distance_tracker.update(WorldConstants::scroll_speed(), dt);
    camera_offset_x.add(WorldConstants::scroll_speed().mul(dt))
}

/// Ends the game in flight: the crash sounds, the game is over, every
/// looping sound stops. Returns the time for which the screen flashes.
pub fn trigger_death(
    state_machine: &mut StateMachine,
    audio_queue: &mut AudioEventQueue,
    audio_state: &mut AudioState,
) -> (flash: Single)
    ensures
        final(audio_queue)@ == old(audio_queue)@.push(AudioEvent::Death),
        final(state_machine)@ == old(state_machine)@.successor(GameEvent::Dead),
        !final(audio_state).thruster_playing,
        flash == Single::ratio(3, 10),
{
    audio_queue.push(AudioEvent::Death);
    state_machine.handle_event(GameEvent::Dead);
    audio_state.stop_all();
    WorldConstants::collision_flash_duration()
}

/// The beam after the input of a frame: each beam key asks for an
/// activation, upward before downward, and the timer counts down.
pub open spec fn beam_after_input(beam: TractorBeam, input: PlayerInput, dt: Single) -> TractorBeam {
    let up = if input.tractor_up {
        beam.activated(BeamDir::Up)
    } else {
        beam
    };
    let down = if input.tractor_down {
        up.activated(BeamDir::Down)
    } else {
        up
    };
    down.ticked(dt)
}

/// The sounds of the input of a frame: one for each beam key, and the
/// thruster's loop where thrust begins.
pub open spec fn input_sounds(input: PlayerInput, thruster_playing: bool) -> Seq<AudioEvent> {
    let up = if input.tractor_up {
        seq![AudioEvent::BeamActivation]
    } else {
        Seq::<AudioEvent>::empty()
    };
    let down = if input.tractor_down {
        up.push(AudioEvent::BeamActivation)
    } else {
        up
    };
    if (input.up || input.down || input.right) && !thruster_playing {
        down.push(AudioEvent::ThrusterLoop)
    } else {
        down
    }
}

/// Applies the input of a frame: the beam is activated and counts down,
/// thrust burns fuel, and the craft moves unless the tank is empty. Returns
/// whether the tank ran empty in this frame; the craft does not move then.
pub fn handle_player_input_and_physics(
    input: PlayerInput,
    dt: Single,
    camera_offset_x: Single,
    player: &mut Player,
    fuel: &mut Fuel,
    tractor_beam: &mut TractorBeam,
    audio_state: &mut AudioState,
    audio_queue: &mut AudioEventQueue,
) -> (fuel_became_empty: bool)
    ensures
        *final(tractor_beam) == beam_after_input(*old(tractor_beam), input, dt),
        final(audio_state).thruster_playing == (input.up || input.down || input.right),
        final(audio_queue)@ == old(audio_queue)@ + input_sounds(
            input,
            old(audio_state).thruster_playing,
        ),
        *final(fuel) == if input.up || input.down || input.right {
            old(fuel).burned(dt)
        } else {
            *old(fuel)
        },
        fuel_became_empty == ((input.up || input.down || input.right) && !old(fuel).empty()
            && final(fuel).empty()),
        *final(player) == if final(fuel).empty() {
            *old(player)
        } else {
            old(player).ticked(dt, input, Single::whole(120), camera_offset_x)
        },
{
    if input.tractor_up {
        tractor_beam.activate(BeamDir::Up);
        audio_queue.push(AudioEvent::BeamActivation);
    }
    if input.tractor_down {
        tractor_beam.activate(BeamDir::Down);
        audio_queue.push(AudioEvent::BeamActivation);
    }
    tractor_beam.tick(dt);

    let consuming = is_consuming_fuel(input);
    let thruster_event = audio_state.thruster_event(consuming);
    match thruster_event {
        Some(event) => {
            audio_queue.push(event);
        },
        None => {},
    }
    let fuel_became_empty = fuel.burn(dt, consuming);
    if fuel_became_empty {
        return true;
    }
    if !fuel.is_empty() {
        player.tick(dt, input, WorldConstants::scroll_speed(), camera_offset_x);
    }
    false
}

/// Lets the craft meet the cave for a frame. The beam draws the pickups;
/// the cave grows as far as the window asks. A craft that touches a wall
/// has crashed, and nothing else happens to it. Else the first pickup that
/// it touches is collected and gives what it holds, and the collected
/// pickups far behind the camera go. Returns whether the craft crashed.
pub fn check_collisions_and_pickups(
    player: &Player,
    cave: &mut Cave,
    tractor_beam: &TractorBeam,
    fuel: &mut Fuel,
    audio_queue: &mut AudioEventQueue,
    camera_offset_x: Single,
    dt: Single,
) -> (crashed: bool)
    requires
        old(cave)@.well_formed(),
        coverable(camera_offset_x.plus(Single::whole(800))),
    ensures
        final(cave)@.well_formed(),
        ({
            let seen = drawn_cave(old(cave)@, *tractor_beam, *player, dt).viewed(
                camera_offset_x.plus(Single::whole(800)),
                Single::whole(300),
            );
            let hit = seen.pickups.first_hit(player_box(*player));
            &&& crashed == crashed_in(seen, *player, camera_offset_x)
            &&& crashed ==> final(cave)@ == seen
            &&& crashed ==> *final(fuel) == *old(fuel)
            &&& crashed ==> final(audio_queue)@ == old(audio_queue)@
            &&& !crashed ==> final(cave)@ == (CaveState {
                pickups: pickups_after_flight(seen.pickups, *player, camera_offset_x),
                ..seen
            })
            &&& !crashed && hit is Some ==> *final(fuel) == old(fuel).refilled(
                old(fuel).max.times(Single::ratio(275, 1000)),
            )
            &&& !crashed && hit is Some ==> final(audio_queue)@ == old(audio_queue)@.push(
                AudioEvent::FuelPickup,
            )
            &&& !crashed && hit is None ==> *final(fuel) == *old(fuel)
            &&& !crashed && hit is None ==> final(audio_queue)@ == old(audio_queue)@
        }),
{
    update_tractor_beam_pickup_attraction(cave, tractor_beam, player, dt);
    proof {
        lemma_pickups_apart(
            old(cave)@,
            old(cave)@.pickups.attracted(*tractor_beam, (player.pos.x, player.pos.y), dt),
        );
    }
    if check_player_collision(player, cave, camera_offset_x) {
        return true;
    }
    let ghost seen = cave@;
    let size = WorldConstants::player_size();
    let player_pos = (
        player.pos.x.sub(size.0.div(Single::from_int(2))),
        player.pos.y.sub(size.1.div(Single::from_int(2))),
    );
    let hit = cave.pickup_manager().check_collision(player_pos, size);
    match hit {
        Some(pickup_index) => {
            let collected = cave.pickup_manager_mut().collect_pickup(pickup_index);
            match collected {
                Some(pickup_type) => {
                    handle_pickup_collection(fuel, pickup_type);
                    match pickup_type {
                        PickupType::Fuel => {
                            audio_queue.push(AudioEvent::FuelPickup);
                        },
                    }
                },
                None => {},
            }
        },
        None => {},
    }
    cave.pickup_manager_mut().cleanup_old_pickups(camera_offset_x);
    proof {
        lemma_pickups_apart(seen, pickups_after_flight(seen.pickups, *player, camera_offset_x));
    }
    false
}

} // verus!
