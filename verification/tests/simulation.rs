use fuel_drift::cave::{Cave, CaveConstants, SimpleRng};
use fuel_drift::fuel::Fuel;
use fuel_drift::ieee::single::Single;
use fuel_drift::pickup::{Pickup, PickupManager, PickupType};
use fuel_drift::tractor::{BeamDir, TractorBeam};

fn s(x: f32) -> Single {
    Single::from_bits(x.to_bits())
}

fn n(x: Single) -> f32 {
    f32::from_bits(x.to_bits())
}

fn p(v: (f32, f32)) -> (Single, Single) {
    (s(v.0), s(v.1))
}

/// The stream in native arithmetic.
struct NativeRng {
    seed: u32,
}

impl NativeRng {
    fn next(&mut self) -> f32 {
        self.seed = self.seed.wrapping_mul(1103515245).wrapping_add(12345);
        (self.seed as f32) / (u32::MAX as f32)
    }

    fn range(&mut self, min: f32, max: f32) -> f32 {
        min + self.next() * (max - min)
    }
}

#[test]
fn streams_with_one_seed_agree_bit_for_bit() {
    for seed in [0u32, 1, 42, 12345, 0xdead_beef, u32::MAX] {
        let mut first = SimpleRng::new(seed);
        let mut second = SimpleRng::new(seed);
        for _ in 0..1000 {
            assert_eq!(first.next_f32().to_bits(), second.next_f32().to_bits());
        }
    }
}

#[test]
fn stream_draws_what_the_recurrence_gives() {
    let mut rng = SimpleRng::new(42);
    let mut native = NativeRng { seed: 42 };
    assert_eq!(n(rng.next_f32()), 0.7911538);
    native.next();
    for _ in 0..10_000 {
        assert_eq!(rng.next_f32().to_bits(), native.next().to_bits());
    }
    let mut rng = SimpleRng::new(7);
    let mut native = NativeRng { seed: 7 };
    for _ in 0..10_000 {
        assert_eq!(rng.range(s(-5.0), s(5.0)).to_bits(), native.range(-5.0, 5.0).to_bits());
    }
}

#[test]
fn draws_stay_between_the_bounds() {
    let mut rng = SimpleRng::new(2024);
    for _ in 0..10_000 {
        let unit = n(rng.next_f32());
        assert!((0.0..=1.0).contains(&unit));
        let value = n(rng.range(s(-5.0), s(5.0)));
        assert!((-5.0..=5.0).contains(&value));
        let value = n(rng.range(s(210.0), s(390.0)));
        assert!((210.0..=390.0).contains(&value));
    }
}

#[test]
fn a_draw_can_reach_the_upper_bound() {
    let mut rng = SimpleRng::new(230538014);
    assert_eq!(n(rng.next_f32()), 1.0);
    let mut rng = SimpleRng::new(2676093955);
    assert_eq!(n(rng.next_f32()), 1.0);
    let mut rng = SimpleRng::new(2965899422);
    assert_eq!(n(rng.next_f32()), 0.99999994);
    let mut rng = SimpleRng::new(230538014);
    assert_eq!(n(rng.range(s(10.0), s(20.0))), 20.0);
}

#[test]
fn cave_segments_join_exactly() {
    let mut cave = Cave::new(99);
    for _ in 0..400 {
        cave.generate_next(s(300.0));
    }
    let segments = cave.segments();
    assert_eq!(segments.len(), 100);
    for i in 1..segments.len() {
        assert_eq!(segments[i].x_start.to_bits(), segments[i - 1].x_end().to_bits());
    }
    assert_eq!(n(segments[0].x_start), 301.0 * 50.0);
    assert_eq!(n(segments[99].x_end()), 401.0 * 50.0);
}

#[test]
fn cave_keeps_the_least_passage_on_every_level() {
    for level in 1..=8u32 {
        let mut cave = Cave::new(1000 + level);
        cave.configure_for_level(level);
        for _ in 0..300 {
            cave.generate_next(s(300.0));
        }
        for segment in cave.segments() {
            assert!(n(segment.gap_height()) >= n(CaveConstants::min_gap()));
            assert_eq!(n(segment.width), 50.0);
        }
    }
}

#[test]
fn cave_retains_at_most_a_hundred_segments() {
    let mut cave = Cave::new(5);
    for count in 2..=150usize {
        cave.generate_next(s(300.0));
        assert_eq!(cave.segments().len(), count.min(100));
    }
    assert_eq!(n(cave.segments()[0].x_start), 50.0 * 50.0);
}

#[test]
fn level_gap_follows_the_formula() {
    let mut cave = Cave::new(3);
    let expected = [400.0, 350.0, 300.0, 250.0, 200.0, 150.0, 150.0, 150.0];
    for (index, gap) in expected.iter().enumerate() {
        cave.configure_for_level(index as u32 + 1);
        assert_eq!(cave.segments().len(), 1);
        let segment = cave.segments()[0];
        assert_eq!(n(segment.gap_height()), *gap);
        assert_eq!(n(segment.ceiling), 300.0 - gap / 2.0);
        assert_eq!(n(segment.floor), 300.0 + gap / 2.0);
        assert_eq!(n(segment.x_start), 0.0);
    }
    cave.configure_for_level(u32::MAX);
    assert_eq!(n(cave.segments()[0].gap_height()), 150.0);
}

#[test]
fn configuring_a_level_clears_the_cave() {
    let mut cave = Cave::new(8);
    for _ in 0..60 {
        cave.generate_next(s(200.0));
    }
    assert!(!cave.pickup_manager().pickups().is_empty());
    cave.configure_for_level(2);
    assert_eq!(cave.segments().len(), 1);
    assert!(cave.pickup_manager().pickups().is_empty());
    assert_eq!(n(cave.pickup_manager().next_pickup_distance()), 800.0);
    cave.generate_next(s(200.0));
    assert_eq!(n(cave.segments()[1].x_start), 50.0);
    for _ in 0..14 {
        cave.generate_next(s(200.0));
    }
    assert!(cave.pickup_manager().pickups().is_empty());
    cave.generate_next(s(200.0));
    assert_eq!(cave.pickup_manager().pickups().len(), 1);
    assert_eq!(n(cave.pickup_manager().pickups()[0].position.0), 825.0);
}

/// The cave in native arithmetic: heights of the segments that follow the
/// first one.
fn native_heights(seed: u32, base: (f32, f32), count: usize) -> Vec<(f32, f32)> {
    let mut rng = NativeRng { seed };
    let mut heights = Vec::new();
    for _ in 0..count {
        let mut ceiling = base.0 + rng.range(-5.0, 5.0);
        let mut floor = base.1 + rng.range(-5.0, 5.0);
        if floor - ceiling < 150.0 {
            let center = (ceiling + floor) / 2.0;
            ceiling = center - 150.0 / 2.0;
            floor = center + 150.0 / 2.0;
        }
        heights.push((ceiling, floor));
    }
    heights
}

#[test]
fn cave_heights_are_those_of_native_arithmetic() {
    let mut cave = Cave::new(31337);
    let heights = native_heights(31337, (50.0, 450.0), 90);
    for _ in 0..90 {
        cave.generate_next(s(300.0));
    }
    for (index, (ceiling, floor)) in heights.iter().enumerate() {
        let segment = cave.segments()[index + 1];
        assert_eq!(segment.ceiling.to_bits(), ceiling.to_bits());
        assert_eq!(segment.floor.to_bits(), floor.to_bits());
    }
    let mut cave = Cave::new(4242);
    cave.configure_for_level(6);
    let heights = native_heights(4242, (225.0, 375.0), 90);
    for _ in 0..90 {
        cave.generate_next(s(300.0));
    }
    let mut recentred = 0;
    for (index, (ceiling, floor)) in heights.iter().enumerate() {
        let segment = cave.segments()[index + 1];
        assert_eq!(segment.ceiling.to_bits(), ceiling.to_bits());
        assert_eq!(segment.floor.to_bits(), floor.to_bits());
        if n(segment.gap_height()) == 150.0 {
            recentred += 1;
        }
    }
    assert!(recentred > 10);
}

#[test]
fn view_grows_the_cave_one_width_beyond_it() {
    let mut cave = Cave::new(17);
    let segments = cave.segments_in_view(s(120.0), s(500.0), s(300.0));
    assert_eq!(cave.segments().len(), 11);
    assert_eq!(n(cave.segments()[10].x_end()), 550.0);
    assert_eq!(segments.len(), 8);
    assert_eq!(n(segments[0].x_start), 100.0);
    assert_eq!(n(segments[7].x_start), 450.0);
    let again = cave.segments_in_view(s(120.0), s(500.0), s(300.0));
    assert_eq!(cave.segments().len(), 11);
    assert_eq!(again.len(), 8);
    let touching = cave.segments_in_view(s(150.0), s(200.0), s(300.0));
    assert_eq!(touching.len(), 1);
    assert_eq!(n(touching[0].x_start), 150.0);
}

#[test]
fn view_without_an_end_leaves_the_cave_as_it_is() {
    let mut cave = Cave::new(17);
    let segments = cave.segments_in_view(s(0.0), s(f32::NAN), s(300.0));
    assert!(segments.is_empty());
    assert_eq!(cave.segments().len(), 1);
    let segments = cave.segments_in_view(s(f32::NAN), s(40.0), s(300.0));
    assert!(segments.is_empty());
    assert_eq!(cave.segments().len(), 2);
}

#[test]
fn fuel_signals_empty_once() {
    let mut fuel = Fuel::new(s(1.0), s(60.0));
    assert!(fuel.burn(s(1.0 / 60.0), true));
    assert_eq!(n(fuel.current), 0.0);
    assert!(!fuel.burn(s(1.0 / 60.0), true));
    assert_eq!(n(fuel.current), 0.0);
    fuel.refill(s(0.5));
    assert!(!fuel.burn(s(0.001), true));
    assert_eq!(n(fuel.current), 0.5 - 60.0 * 0.001);
    assert!(fuel.burn(s(1.0), true));
}

#[test]
fn fuel_ratio_guards_a_tank_without_capacity() {
    assert_eq!(n(Fuel::new(s(0.0), s(1.0)).ratio()), 0.0);
    assert_eq!(n(Fuel::new(s(-3.0), s(1.0)).ratio()), 0.0);
    let mut fuel = Fuel::new(s(80.0), s(1.0));
    fuel.current = s(20.0);
    assert_eq!(n(fuel.ratio()), 0.25);
}

#[test]
fn active_beam_keeps_direction_and_timer() {
    let mut beam = TractorBeam::new();
    beam.activate(BeamDir::Down);
    beam.tick(s(0.75));
    let before = beam;
    beam.activate(BeamDir::Up);
    assert_eq!(beam.dir, BeamDir::Down);
    assert_eq!(beam.timer.to_bits(), before.timer.to_bits());
    assert_eq!(n(beam.timer), 1.25);
    assert!(beam.active);
}

#[test]
fn beam_expires_with_its_timer_at_zero() {
    for dt in [2.0f32, 2.0000002, 2.5, 1.0e30, f32::INFINITY] {
        let mut beam = TractorBeam::new();
        beam.activate(BeamDir::Up);
        beam.tick(s(dt));
        assert!(!beam.active);
        assert_eq!(beam.timer.to_bits(), 0);
        assert_eq!(n(beam.remaining_time()), 0.0);
    }
    let mut beam = TractorBeam::new();
    beam.activate(BeamDir::Up);
    beam.tick(s(1.9999999));
    assert!(beam.active);
    assert_eq!(n(beam.remaining_time()), 2.0 - 1.9999999);
}

#[test]
fn beam_bands_have_closed_edges() {
    let mut beam = TractorBeam::new();
    beam.activate(BeamDir::Up);
    let player = p((100.0, 400.0));
    assert!(beam.is_point_in_beam(player, p((116.0, 100.0))));
    assert!(!beam.is_point_in_beam(player, p((116.00001, 100.0))));
    assert!(beam.is_point_in_beam(player, p((100.0, 100.0))));
    assert!(!beam.is_point_in_beam(player, p((100.0, 99.9999))));
    assert!(!beam.is_point_in_beam(player, p((100.0, 400.0))));
    assert!(beam.should_maintain_attraction(player, p((124.0, 100.0))));
    assert!(beam.should_maintain_attraction(player, p((76.0, 399.0))));
    assert!(!beam.should_maintain_attraction(player, p((124.00001, 399.0))));
    beam.tick(s(3.0));
    assert!(!beam.should_maintain_attraction(player, p((100.0, 399.0))));
    let force = beam.get_attraction_force(player, p((100.0, 399.0)));
    assert_eq!((n(force.0), n(force.1)), (0.0, 0.0));
}

#[test]
fn attraction_force_is_a_unit_vector() {
    let mut beam = TractorBeam::new();
    beam.activate(BeamDir::Down);
    let force = beam.get_attraction_force(p((100.0, 200.0)), p((103.0, 204.0)));
    assert_eq!((n(force.0), n(force.1)), (-3.0 / 5.0, -4.0 / 5.0));
    let force = beam.get_attraction_force(p((100.0, 200.0)), p((110.0, 240.0)));
    let (dx, dy) = (-10.0f32, -40.0f32);
    let distance = (dx * dx + dy * dy).sqrt();
    assert_eq!((n(force.0), n(force.1)), (dx / distance, dy / distance));
}

#[test]
fn attraction_starts_narrow_and_holds_wide() {
    let mut manager = PickupManager::new(0);
    let mut beam = TractorBeam::new();
    beam.activate(BeamDir::Up);
    let player = p((100.0, 200.0));
    let dt = s(0.016);
    manager.insert_pickup(Pickup::new(p((120.0, 150.0)), PickupType::Fuel, true));
    manager.insert_pickup(Pickup::new(p((115.9, 150.0)), PickupType::Fuel, true));
    manager.update_tractor_beam_attraction(&beam, player, dt);
    assert!(!manager.pickups()[0].being_attracted);
    assert!(manager.pickups()[1].being_attracted);
    let start = manager.pickups()[1].original_position;
    let native_dx = 100.0f32 - 115.9;
    let native_dy = 200.0f32 - 150.0;
    let distance = (native_dx * native_dx + native_dy * native_dy).sqrt();
    assert_eq!(n(manager.pickups()[1].position.0), 115.9 + native_dx / distance * 200.0 * 0.016);
    assert_eq!(n(manager.pickups()[1].position.1), 150.0 + native_dy / distance * 200.0 * 0.016);
    manager.move_pickup(1, p((123.9, 150.0)));
    let held = manager.pickups()[1].position;
    manager.update_tractor_beam_attraction(&beam, player, dt);
    assert!(manager.pickups()[1].being_attracted);
    assert_eq!(manager.pickups()[1].position, held);
    manager.move_pickup(1, p((124.1, 150.0)));
    manager.update_tractor_beam_attraction(&beam, player, dt);
    assert!(!manager.pickups()[1].being_attracted);
    assert_eq!(manager.pickups()[1].position, start);
    assert_eq!(manager.get_attracted_pickups().len(), 0);
}

#[test]
fn spawns_keep_the_configured_cadence() {
    let mut counts = Vec::new();
    for average in [200.0f32, 400.0, 800.0] {
        let mut manager = PickupManager::new(77);
        let mut spawns = Vec::new();
        let mut x = 0.0f32;
        while x < 200_000.0 {
            if manager.should_spawn_pickup(s(x), s(average)) {
                spawns.push(x);
                let next = n(manager.next_pickup_distance());
                assert!(next >= average * 0.7 && next <= average * 1.3);
            }
            x += 10.0;
        }
        let mean = (spawns[spawns.len() - 1] - spawns[0]) / (spawns.len() - 1) as f32;
        assert!(mean >= average * 0.7 && mean <= average * 1.3 + 10.0, "mean {}", mean);
        counts.push(spawns.len());
    }
    assert!(counts[0] > counts[1] && counts[1] > counts[2]);
}

#[test]
fn spawn_check_moves_the_cursor_only_when_due() {
    let mut manager = PickupManager::new(5);
    assert!(!manager.should_spawn_pickup(s(799.99), s(300.0)));
    assert_eq!(n(manager.next_pickup_distance()), 800.0);
    assert!(manager.should_spawn_pickup(s(800.0), s(300.0)));
    let gap = n(manager.next_pickup_distance());
    let mut native = NativeRng { seed: 5 + 42 };
    let variation = 300.0f32 * 0.3;
    assert_eq!(gap, native.range(300.0 - variation, 300.0 + variation));
    assert!(!manager.should_spawn_pickup(s(800.0 + gap - 0.01), s(300.0)));
    assert_eq!(n(manager.next_pickup_distance()), gap);
    assert!(manager.should_spawn_pickup(s(800.0 + gap), s(300.0)));
}

#[test]
fn first_pickup_waits_for_the_initial_delay() {
    for seed in [0u32, 7, 12345, u32::MAX] {
        let mut manager = PickupManager::new(seed);
        let mut x = 0.0f32;
        while x < 800.0 {
            assert!(!manager.should_spawn_pickup(s(x), s(300.0)));
            assert_eq!(n(manager.next_pickup_distance()), 800.0);
            x += 12.5;
        }
        assert!(manager.should_spawn_pickup(s(800.0), s(300.0)));
        manager.clear_all_pickups();
        assert!(!manager.should_spawn_pickup(s(0.0), s(300.0)));
        assert!(!manager.should_spawn_pickup(s(799.0), s(300.0)));
        assert!(manager.should_spawn_pickup(s(800.0), s(300.0)));
    }
    let mut cave = Cave::new(456);
    for _ in 0..15 {
        cave.generate_next(s(300.0));
    }
    assert!(cave.pickup_manager().pickups().is_empty());
    cave.generate_next(s(300.0));
    assert_eq!(cave.pickup_manager().pickups().len(), 1);
    assert_eq!(n(cave.pickup_manager().pickups()[0].position.0), 825.0);
}

#[test]
fn spawns_after_a_spawn_keep_to_the_band() {
    for (seed, average) in [(1u32, 300.0f32), (2, 200.0), (3, 1000.0), (99, 0.5), (5, 1.0e-40)] {
        let variation = average * 0.3;
        let mut at = 800.0f32;
        for round in 0..200u32 {
            let mut manager = PickupManager::new(seed.wrapping_add(round));
            assert!(manager.should_spawn_pickup(s(at), s(average)));
            let low = at + (average - variation);
            let high = at + (average + variation);
            let mut late = manager_after(seed.wrapping_add(round), at, average);
            assert!(late.should_spawn_pickup(s(high), s(average)));
            if low > at {
                let before = f32::from_bits(low.to_bits() - 1);
                assert!(!manager.should_spawn_pickup(s(before), s(average)));
                assert!(!manager.should_spawn_pickup(s(at), s(average)));
            }
            at += 37.5;
        }
    }
}

/// A manager on which a spawn at `at` has just been found due.
fn manager_after(seed: u32, at: f32, average: f32) -> PickupManager {
    let mut manager = PickupManager::new(seed);
    assert!(manager.should_spawn_pickup(s(at), s(average)));
    manager
}

#[test]
fn pickups_spawn_clear_of_the_walls() {
    let mut manager = PickupManager::new(3);
    let mut native = NativeRng { seed: 3 + 42 };
    let (mut on_ceiling, mut on_floor) = (0, 0);
    for index in 0..200 {
        manager.spawn_fuel_pickup(s(index as f32), s(100.0), s(400.0));
        let pickup = manager.pickups()[index];
        let expected = native.next() < 0.5;
        assert_eq!(pickup.is_on_ceiling, expected);
        assert_eq!(pickup.pickup_type, PickupType::Fuel);
        assert!(!pickup.collected && !pickup.being_attracted);
        assert_eq!(pickup.position, pickup.original_position);
        if pickup.is_on_ceiling {
            assert_eq!(n(pickup.position.1), 105.0);
            on_ceiling += 1;
        } else {
            assert_eq!(n(pickup.position.1), 375.0);
            on_floor += 1;
        }
    }
    assert!(on_ceiling > 60 && on_floor > 60);
}

#[test]
fn collecting_works_once_and_within_bounds() {
    let mut manager = PickupManager::new(0);
    manager.insert_pickup(Pickup::new(p((10.0, 10.0)), PickupType::Fuel, true));
    manager.insert_pickup(Pickup::new(p((15.0, 10.0)), PickupType::Fuel, true));
    assert_eq!(manager.check_collision(p((0.0, 0.0)), p((30.0, 30.0))), Some(0));
    assert_eq!(manager.collect_pickup(0), Some(PickupType::Fuel));
    assert_eq!(manager.collect_pickup(0), None);
    assert_eq!(manager.collect_pickup(2), None);
    assert_eq!(manager.check_collision(p((0.0, 0.0)), p((30.0, 30.0))), Some(1));
    assert_eq!(manager.check_collision(p((35.0, 0.0)), p((30.0, 30.0))), None);
    assert_eq!(manager.check_collision(p((34.999, 0.0)), p((30.0, 30.0))), Some(1));
    assert_eq!(manager.active_pickup_count(), 1);
    assert_eq!(manager.get_pickups_in_range(s(0.0), s(15.0)).len(), 1);
    assert_eq!(manager.get_pickups_in_range(s(15.1), s(100.0)).len(), 0);
}

#[test]
fn cleanup_keeps_what_is_not_collected() {
    let mut manager = PickupManager::new(0);
    for x in [0.0f32, 100.0, 200.0, 300.0] {
        manager.insert_pickup(Pickup::new(p((x, 10.0)), PickupType::Fuel, false));
    }
    manager.collect_pickup(1);
    manager.collect_pickup(2);
    manager.cleanup_old_pickups(s(1200.0));
    let left: Vec<f32> = manager.pickups().iter().map(|pickup| n(pickup.position.0)).collect();
    assert_eq!(left, vec![0.0, 300.0]);
    manager.cleanup_old_pickups(s(1.0e9));
    assert_eq!(manager.pickups().len(), 2);
    manager.collect_pickup(1);
    manager.cleanup_old_pickups(s(1300.0));
    assert_eq!(manager.pickups().len(), 1);
    manager.clear_all_pickups();
    assert_eq!(manager.pickups().len(), 0);
    assert_eq!(n(manager.next_pickup_distance()), 800.0);
}
