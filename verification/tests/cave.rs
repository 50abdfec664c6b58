use fuel_drift::cave::{Cave, CaveConstants, CaveSegment, SimpleRng};
use fuel_drift::ieee::single::Single;

fn s(x: f32) -> Single {
    Single::from_bits(x.to_bits())
}

fn n(x: Single) -> f32 {
    f32::from_bits(x.to_bits())
}


const EPSILON: f32 = 0.001;

/// Helper function to assert floating point equality.
fn assert_float_eq(a: f32, b: f32) {
    assert!((a - b).abs() < EPSILON, "Expected {}, got {}", b, a);
}

/// Tests that SimpleRng produces deterministic sequences.
#[test]
fn simple_rng_deterministic() {
    let mut rng1 = SimpleRng::new(42);
    let mut rng2 = SimpleRng::new(42);

    for _ in 0..10 {
        assert_float_eq(n(rng1.next_f32()), n(rng2.next_f32()));
    }
}

/// Tests that SimpleRng range function works correctly.
#[test]
fn simple_rng_range() {
    let mut rng = SimpleRng::new(123);

    for _ in 0..100 {
        let value = n(rng.range(s(10.0), s(20.0)));
        assert!(
            value >= 10.0 && value < 20.0,
            "Value {} not in range [10, 20)",
            value
        );
    }
}

/// Tests CaveSegment basic functionality.
#[test]
fn cave_segment_properties() {
    let segment = CaveSegment::new(s(100.0), s(250.0), s(50.0), s(25.0));

    assert_float_eq(n(segment.ceiling), 100.0);
    assert_float_eq(n(segment.floor), 250.0);
    assert_float_eq(n(segment.x_start), 50.0);
    assert_float_eq(n(segment.width), 25.0);
    assert_float_eq(n(segment.x_end()), 75.0);
    assert_float_eq(n(segment.gap_height()), 150.0);
}

/// Tests that cave generator never violates minimum gap requirement.
#[test]
fn generator_maintains_minimum_gap() {
    let mut cave = Cave::new(12345);

    // Generate many segments and check gap constraint
    for _ in 0..50 {
        cave.generate_next(s(300.0));
    }

    for segment in cave.segments() {
        let gap = n(segment.gap_height());
        assert!(
            gap >= n(CaveConstants::min_gap()),
            "Gap {} is less than minimum {}",
            gap,
            n(CaveConstants::min_gap())
        );
    }
}

/// Tests that segments are contiguous (no gaps or overlaps).
#[test]
fn segments_are_contiguous() {
    let mut cave = Cave::new(54321);

    // Generate several segments
    for _ in 0..10 {
        cave.generate_next(s(300.0));
    }

    let segments: Vec<_> = cave.segments().iter().collect();

    // Check that each segment starts where the previous one ends
    for i in 1..segments.len() {
        let prev_end = n(segments[i - 1].x_end());
        let current_start = n(segments[i].x_start);

        assert_float_eq(current_start, prev_end);
    }
}

/// Tests the initial cave setup.
#[test]
fn initial_cave_setup() {
    let mut cave = Cave::new(999);
    cave.configure_for_level(1);

    assert_eq!(cave.segments().len(), 1);

    let first_segment = &cave.segments()[0];
    // Level 1 should have a 400px gap
    assert_float_eq(n(first_segment.ceiling), 100.0);
    assert_float_eq(n(first_segment.floor), 500.0);
    assert_float_eq(n(first_segment.x_start), 0.0);
    assert_float_eq(n(first_segment.width), n(CaveConstants::segment_width()));
}

/// Tests segments_in_view functionality.
#[test]
fn segments_in_view_generates_as_needed() {
    let mut cave = Cave::new(777);

    // Initially should have only one segment
    let initial_count = cave.segments().len();
    assert_eq!(initial_count, 1);

    // Request view that extends beyond current segments
    let segments = cave.segments_in_view(s(0.0), s(500.0), s(300.0));

    // Check after the method completes
    let final_count = cave.segments().len();

    // Should have generated more segments
    assert!(final_count > initial_count);
    assert!(segments.len() > 1);
}

/// Tests that segments_in_view filters correctly.
#[test]
fn segments_in_view_filters_correctly() {
    let mut cave = Cave::new(888);

    // Generate several segments
    for _ in 0..10 {
        cave.generate_next(s(300.0));
    }

    // Request a specific view range
    let view_start = 100.0;
    let view_end = 200.0;
    let segments = cave.segments_in_view(s(view_start), s(view_end), s(300.0));

    // All returned segments should intersect with the view range
    for segment in segments {
        let intersects = n(segment.x_start) < view_end && n(segment.x_end()) > view_start;
        assert!(
            intersects,
            "Segment {:?} doesn't intersect view range [{}, {}]",
            segment, view_start, view_end
        );
    }
}

/// Tests height variation stays within reasonable bounds.
#[test]
fn height_variation_is_reasonable() {
    let mut cave = Cave::new(456);
    cave.configure_for_level(1);

    let initial_ceiling = n(cave.segments()[0].ceiling);
    let initial_floor = n(cave.segments()[0].floor);

    // Generate many segments
    for _ in 0..20 {
        cave.generate_next(s(300.0));
    }

    // With new horizontal cave generation, heights should stay very close to base values
    for segment in cave.segments() {
        let max_variation = n(CaveConstants::max_height_change());

        assert!(
            (n(segment.ceiling) - initial_ceiling).abs() <= max_variation,
            "Ceiling varied too much: {} vs initial {} (max variation: {})",
            n(segment.ceiling),
            initial_ceiling,
            max_variation
        );

        assert!(
            (n(segment.floor) - initial_floor).abs() <= max_variation,
            "Floor varied too much: {} vs initial {} (max variation: {})",
            n(segment.floor),
            initial_floor,
            max_variation
        );
    }
}

/// Tests cave memory management (segment removal).
#[test]
fn cave_limits_segment_count() {
    let mut cave = Cave::new(321);

    // Generate many more segments than the max
    for _ in 0..150 {
        cave.generate_next(s(300.0));
    }

    // Should not exceed reasonable memory usage
    assert!(
        cave.segments().len() <= 100,
        "Too many segments retained: {}",
        cave.segments().len()
    );
}

/// Tests level-based cave configuration.
#[test]
fn cave_level_configuration() {
    let mut cave = Cave::new(111);
    
    // Test level 1 - should have 400px gap
    cave.configure_for_level(1);
    let level1_segment = &cave.segments()[0];
    assert_float_eq(n(level1_segment.gap_height()), 400.0);
    
    // Test level 2 - should have 350px gap
    cave.configure_for_level(2);
    let level2_segment = &cave.segments()[0];
    assert_float_eq(n(level2_segment.gap_height()), 350.0);
    
    // Test level 3 - should have 300px gap
    cave.configure_for_level(3);
    let level3_segment = &cave.segments()[0];
    assert_float_eq(n(level3_segment.gap_height()), 300.0);
    
    // Test level 6 - should have minimum gap (140px)
    cave.configure_for_level(6);
    let level6_segment = &cave.segments()[0];
    assert_float_eq(n(level6_segment.gap_height()), n(CaveConstants::min_gap()));
    
    // Test level 10 - should still have minimum gap
    cave.configure_for_level(10);
    let level10_segment = &cave.segments()[0];
    assert_float_eq(n(level10_segment.gap_height()), n(CaveConstants::min_gap()));
}

/// Tests that cave remains horizontal with small variations.
#[test]
fn cave_remains_horizontal() {
    let mut cave = Cave::new(222);
    cave.configure_for_level(1);
    
    // Generate many segments
    for _ in 0..50 {
        cave.generate_next(s(300.0));
    }
    
    // All segments should be very close to the base heights
    let base_ceiling = 100.0;
    let base_floor = 500.0;
    
    for segment in cave.segments() {
        assert!(
            (n(segment.ceiling) - base_ceiling).abs() <= n(CaveConstants::max_height_change()),
            "Ceiling deviated too much from horizontal"
        );
        assert!(
            (n(segment.floor) - base_floor).abs() <= n(CaveConstants::max_height_change()),
            "Floor deviated too much from horizontal"
        );
    }
}

