//! Simulation core of a side-scrolling cave-flight game, verified with Verus.
//!
//! A craft flies through an endless tunnel that is generated from a seed,
//! burns fuel, draws pickups toward itself with a tractor beam, and must not
//! touch the walls. The library advances this world frame by frame; drawing
//! it, reading the keys and playing sounds is left to its caller.
//!
//! Every quantity of the simulation is an IEEE 754 binary32 number. The
//! library carries such numbers as bit patterns and computes on them with
//! integer arithmetic (module `ieee`), so that contracts state each result
//! exactly, and the simulation runs the same on every machine.

/// Audio triggers and the queue of events for the audio layer.
pub mod audio;

/// The seeded stream of numbers and the cave generated from it.
pub mod cave;

/// Overlap of axis-aligned boxes.
pub mod collision;

/// The numbers that tune the game.
pub mod constants;

/// The distance travelled.
pub mod distance;

/// The rules of a frame in flight.
pub mod flight;

/// The fuel tank.
pub mod fuel;

/// The states of the game and the events between them.
pub mod game_state;

/// Binary32 arithmetic on bit patterns.
pub mod ieee;

/// Levels and the progression through them.
pub mod level;

/// The menus and what the keys make of them.
pub mod menu;

/// Pickups: spawning, collection and attraction.
pub mod pickup;

/// The player's craft and its physics.
pub mod player;

/// Numbers as text.
pub mod text;

/// The tractor beam.
pub mod tractor;
