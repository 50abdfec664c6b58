use fuel_drift::audio::{AudioEvent, AudioEventQueue, AudioState};
use fuel_drift::cave::Cave;
use fuel_drift::distance::DistanceTracker;
use fuel_drift::flight::{
    check_collisions_and_pickups, check_player_collision, get_cave_wall_height_at_position,
    handle_pickup_collection, handle_player_input_and_physics, is_consuming_fuel, trigger_death,
    update_camera_and_distance, update_collision_flash, update_tractor_beam_pickup_attraction,
    WorldConstants,
};
use fuel_drift::fuel::Fuel;
use fuel_drift::game_state::{GameEvent, GameState, StateMachine};
use fuel_drift::ieee::single::Single;
use fuel_drift::pickup::{Pickup, PickupType};
use fuel_drift::player::{Player, PlayerInput, Vec2};
use fuel_drift::tractor::{BeamDir, TractorBeam};

fn s(x: f32) -> Single {
    Single::from_bits(x.to_bits())
}

fn n(x: Single) -> f32 {
    f32::from_bits(x.to_bits())
}

fn player_at(x: f32, y: f32) -> Player {
    Player::new(Vec2::new(s(x), s(y)))
}

#[test]
fn world_has_its_measures() {
    assert_eq!(n(WorldConstants::scroll_speed()), 120.0);
    assert_eq!(n(WorldConstants::player_size().0), 30.0);
    assert_eq!(n(WorldConstants::player_size().1), 18.0);
    assert_eq!(n(WorldConstants::initial_fuel()), 100.0);
    assert_eq!(n(WorldConstants::fuel_burn_rate()), 20.0);
    assert_eq!(n(WorldConstants::collision_flash_duration()), 0.3);
    assert_eq!(n(WorldConstants::window_width()), 800.0);
    assert_eq!(n(WorldConstants::window_height()), 600.0);
}

#[test]
fn thrust_burns_fuel_but_braking_does_not() {
    let idle = PlayerInput::default();
    assert!(!is_consuming_fuel(idle));
    assert!(is_consuming_fuel(PlayerInput { up: true, ..idle }));
    assert!(is_consuming_fuel(PlayerInput { down: true, ..idle }));
    assert!(is_consuming_fuel(PlayerInput { right: true, ..idle }));
    assert!(!is_consuming_fuel(PlayerInput { left: true, ..idle }));
    assert!(!is_consuming_fuel(PlayerInput { tractor_up: true, tractor_down: true, ..idle }));
}

#[test]
fn flash_counts_down_to_zero() {
    assert_eq!(n(update_collision_flash(s(0.3), s(0.1))), 0.3 - 0.1);
    assert_eq!(n(update_collision_flash(s(0.05), s(0.1))), 0.0);
    assert_eq!(n(update_collision_flash(s(0.1), s(0.1))), 0.0);
    assert_eq!(n(update_collision_flash(s(0.0), s(0.1))), 0.0);
    assert_eq!(n(update_collision_flash(s(-1.0), s(0.1))), -1.0);
}

#[test]
fn fuel_pickup_refills_a_part_of_the_tank() {
    let mut fuel = Fuel::new(s(100.0), s(20.0));
    fuel.current = s(10.0);
    handle_pickup_collection(&mut fuel, PickupType::Fuel);
    assert_eq!(n(fuel.current), 10.0 + 100.0 * 0.275);
    fuel.current = s(90.0);
    handle_pickup_collection(&mut fuel, PickupType::Fuel);
    assert_eq!(n(fuel.current), 100.0);
}

#[test]
fn craft_crashes_where_it_touches_a_wall() {
    let mut cave = Cave::new(11);
    cave.configure_for_level(1);
    assert!(!check_player_collision(&player_at(100.0, 300.0), &mut cave, s(0.0)));
    assert_eq!(cave.segments().len(), 17);
    assert!(check_player_collision(&player_at(100.0, 90.0), &mut cave, s(0.0)));
    assert!(check_player_collision(&player_at(100.0, 510.0), &mut cave, s(0.0)));
    assert!(!check_player_collision(&player_at(-200.0, 90.0), &mut cave, s(0.0)));
    assert!(!check_player_collision(&player_at(100.0, 90.0), &mut cave, s(200.0)));
    assert_eq!(cave.segments().len(), 21);
}

#[test]
fn beam_meets_the_wall_of_the_segment_at_its_place() {
    let mut cave = Cave::new(11);
    cave.configure_for_level(2);
    let ceiling = get_cave_wall_height_at_position(s(25.0), BeamDir::Up, &mut cave);
    let floor = get_cave_wall_height_at_position(s(25.0), BeamDir::Down, &mut cave);
    assert_eq!(n(ceiling), 125.0);
    assert_eq!(n(floor), 475.0);
    let ceiling = get_cave_wall_height_at_position(s(130.0), BeamDir::Up, &mut cave);
    assert_eq!(ceiling.to_bits(), cave.segments()[2].ceiling.to_bits());
    let floor = get_cave_wall_height_at_position(s(150.0), BeamDir::Down, &mut cave);
    assert_eq!(floor.to_bits(), cave.segments()[3].floor.to_bits());
    assert_eq!(n(get_cave_wall_height_at_position(s(-80.0), BeamDir::Up, &mut cave)), 0.0);
    assert_eq!(n(get_cave_wall_height_at_position(s(-80.0), BeamDir::Down, &mut cave)), 600.0);
}

#[test]
fn camera_and_distance_scroll_together() {
    let mut tracker = DistanceTracker::new();
    let camera = update_camera_and_distance(s(40.0), &mut tracker, s(0.5));
    assert_eq!(n(camera), 100.0);
    assert_eq!(n(tracker.distance), 60.0);
}

#[test]
fn death_ends_the_game_and_the_sounds() {
    let mut machine = StateMachine::new();
    machine.handle_event(GameEvent::Start);
    let mut queue = AudioEventQueue::new();
    let mut audio = AudioState::new();
    audio.update_thruster(true);
    let flash = trigger_death(&mut machine, &mut queue, &mut audio);
    assert_eq!(n(flash), 0.3);
    assert_eq!(machine.current(), GameState::GameOver);
    assert!(!audio.thruster_playing);
    assert_eq!(queue.drain(), vec![AudioEvent::Death]);
}

#[test]
fn input_moves_the_craft_and_burns_fuel() {
    let mut player = player_at(400.0, 300.0);
    let mut fuel = Fuel::new(s(100.0), s(20.0));
    let mut beam = TractorBeam::new();
    let mut audio = AudioState::new();
    let mut queue = AudioEventQueue::new();
    let input = PlayerInput { up: true, tractor_down: true, tractor_up: true, ..PlayerInput::default() };
    let dt = 1.0f32 / 60.0;
    let emptied = handle_player_input_and_physics(
        input, s(dt), s(0.0), &mut player, &mut fuel, &mut beam, &mut audio, &mut queue,
    );
    assert!(!emptied);
    assert!(beam.active);
    assert_eq!(beam.dir, BeamDir::Up);
    assert_eq!(n(beam.timer), 2.0 - dt);
    assert_eq!(n(fuel.current), 100.0 - 20.0 * dt);
    assert_eq!(n(player.vel.y), -400.0 * dt);
    assert_eq!(n(player.pos.x), 400.0 + 120.0 * dt);
    assert!(audio.thruster_playing);
    assert_eq!(
        queue.drain(),
        vec![AudioEvent::BeamActivation, AudioEvent::BeamActivation, AudioEvent::ThrusterLoop]
    );
    let idle = PlayerInput::default();
    handle_player_input_and_physics(
        idle, s(dt), s(0.0), &mut player, &mut fuel, &mut beam, &mut audio, &mut queue,
    );
    assert!(!audio.thruster_playing);
    assert!(queue.is_empty());
    assert_eq!(n(fuel.current), 100.0 - 20.0 * dt);
}

#[test]
fn craft_stays_where_it_is_once_the_tank_is_empty() {
    let mut player = player_at(400.0, 300.0);
    let mut fuel = Fuel::new(s(0.1), s(20.0));
    let mut beam = TractorBeam::new();
    let mut audio = AudioState::new();
    let mut queue = AudioEventQueue::new();
    let input = PlayerInput { right: true, ..PlayerInput::default() };
    let emptied = handle_player_input_and_physics(
        input, s(0.1), s(0.0), &mut player, &mut fuel, &mut beam, &mut audio, &mut queue,
    );
    assert!(emptied);
    assert_eq!(n(fuel.current), 0.0);
    assert_eq!(n(player.pos.x), 400.0);
    let emptied = handle_player_input_and_physics(
        input, s(0.1), s(0.0), &mut player, &mut fuel, &mut beam, &mut audio, &mut queue,
    );
    assert!(!emptied);
    assert_eq!(n(player.pos.x), 400.0);
}

#[test]
fn flight_collects_the_pickup_that_the_craft_touches() {
    let mut cave = Cave::new(21);
    cave.configure_for_level(1);
    cave.pickup_manager_mut().insert_pickup(Pickup::new((s(110.0), s(300.0)), PickupType::Fuel, false));
    cave.pickup_manager_mut().insert_pickup(Pickup::new((s(112.0), s(300.0)), PickupType::Fuel, false));
    let player = player_at(100.0, 300.0);
    let beam = TractorBeam::new();
    let mut fuel = Fuel::new(s(100.0), s(20.0));
    fuel.current = s(50.0);
    let mut queue = AudioEventQueue::new();
    let crashed = check_collisions_and_pickups(
        &player, &mut cave, &beam, &mut fuel, &mut queue, s(0.0), s(0.016),
    );
    assert!(!crashed);
    assert_eq!(n(fuel.current), 50.0 + 100.0 * 0.275);
    assert_eq!(queue.drain(), vec![AudioEvent::FuelPickup]);
    assert!(cave.pickup_manager().pickups()[0].collected);
    assert!(!cave.pickup_manager().pickups()[1].collected);
    let crashed = check_collisions_and_pickups(
        &player, &mut cave, &beam, &mut fuel, &mut queue, s(1200.0), s(0.016),
    );
    assert!(!crashed);
    assert_eq!(n(fuel.current), 100.0);
    assert_eq!(queue.drain(), vec![AudioEvent::FuelPickup]);
    assert!(cave.pickup_manager().pickups().iter().all(|pickup| !pickup.collected));
    assert!(cave.pickup_manager().pickups().iter().all(|pickup| n(pickup.position.0) > 200.0));
}

#[test]
fn a_crash_leaves_the_pickups_alone() {
    let mut cave = Cave::new(21);
    cave.configure_for_level(1);
    cave.pickup_manager_mut().insert_pickup(Pickup::new((s(100.0), s(85.0)), PickupType::Fuel, true));
    let player = player_at(100.0, 92.0);
    let beam = TractorBeam::new();
    let mut fuel = Fuel::new(s(100.0), s(20.0));
    fuel.current = s(50.0);
    let mut queue = AudioEventQueue::new();
    let crashed = check_collisions_and_pickups(
        &player, &mut cave, &beam, &mut fuel, &mut queue, s(0.0), s(0.016),
    );
    assert!(crashed);
    assert_eq!(n(fuel.current), 50.0);
    assert!(queue.is_empty());
    assert!(!cave.pickup_manager().pickups()[0].collected);
}

#[test]
fn beam_draws_the_pickups_of_the_cave() {
    let mut cave = Cave::new(21);
    cave.pickup_manager_mut().insert_pickup(Pickup::new((s(100.0), s(100.0)), PickupType::Fuel, true));
    let player = player_at(100.0, 200.0);
    let mut beam = TractorBeam::new();
    beam.activate(BeamDir::Up);
    update_tractor_beam_pickup_attraction(&mut cave, &beam, &player, s(0.5));
    let pickup = cave.pickup_manager().pickups()[0];
    assert!(pickup.being_attracted);
    assert_eq!(n(pickup.position.1), 200.0);
    assert_eq!(cave.segments().len(), 1);
}
