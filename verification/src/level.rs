//! Levels: how long each lasts, how far apart its fuel spawns, and the
//! progression from one to the next.

use vstd::prelude::*;
use vstd::string::StringExecFns;
use crate::ieee::facts::{lemma_whole, lemma_whole_order};
use crate::ieee::model::{equal_bits, less_bits};
use crate::ieee::single::Single;
use crate::text::{decimal, decimal_text};

verus! {

/// What can go wrong in the level system.
#[derive(Debug, Clone, PartialEq)]
pub enum LevelError {
    /// No level has the index asked for
    InvalidLevelIndex(usize),
    /// A level manager needs at least one level
    EmptyLevelList,
}

impl LevelError {
    /// The text that describes the error.
    pub open spec fn text(self) -> Seq<char> {
        match self {
            LevelError::InvalidLevelIndex(index) => "Invalid level index: "@ + decimal(
                index as nat,
            ),
            LevelError::EmptyLevelList => "No levels configured in level manager"@,
        }
    }

    /// The text that describes the error.
    pub fn to_string(&self) -> (r: String)
        ensures
            r@ == self.text(),
    {
        match self {
            LevelError::InvalidLevelIndex(index) => {
                let digits = decimal_text(*index as u64);
                "Invalid level index: ".to_owned().concat(digits.as_str())
            },
            LevelError::EmptyLevelList => "No levels configured in level manager".to_owned(),
        }
    }
}

/// What the operations of the level system return.
pub type LevelResult<T> = Result<T, LevelError>;

/// The configuration of a level.
#[derive(Debug, Clone, Copy, PartialEq)]
pub struct Level {
    /// Level number (1, 2, 3, ...)
    pub number: u32,
    /// Duration of the level in seconds
    pub duration_seconds: Single,
    /// Average distance between fuel spawns in pixels
    pub fuel_spawn_distance: Single,
    /// Width of the cave passage in pixels
    pub cave_width: Single,
}

impl Level {
    /// The level with these whole numbers as its parameters.
    pub open spec fn of(number: u32, duration: int, spawn_distance: int, width: int) -> Level {
        Level {
            number,
            duration_seconds: Single::whole(duration),
            fuel_spawn_distance: Single::whole(spawn_distance),
            cave_width: Single::whole(width),
        }
    }

    /// A level with these parameters.
    pub fn new(
        number: u32,
        duration_seconds: Single,
        fuel_spawn_distance: Single,
        cave_width: Single,
    ) -> (r: Self)
        ensures
            r == (Level { number, duration_seconds, fuel_spawn_distance, cave_width }),
    {
        Self { number, duration_seconds, fuel_spawn_distance, cave_width }
    }
}

/// The six levels of the game; the last one repeats.
pub open spec fn default_levels() -> Seq<Level> {
    seq![
        Level::of(1, 60, 300, 200),
        Level::of(2, 90, 400, 180),
        Level::of(3, 120, 500, 160),
        Level::of(4, 120, 600, 140),
        Level::of(5, 150, 700, 120),
        Level::of(6, 180, 800, 100),
    ]
}

/// What a level manager holds: the levels, the index of the current one,
/// and the time at which it began.
pub struct LevelState {
    pub levels: Seq<Level>,
    pub index: nat,
    pub start_time: Single,
}

impl LevelState {
    /// There is a current level.
    pub open spec fn well_formed(self) -> bool {
        self.index < self.levels.len()
    }

    /// The current level.
    pub open spec fn current(self) -> Level {
        self.levels[self.index as int]
    }

    /// The time spent on the current level at `current_time`.
    pub open spec fn elapsed(self, current_time: Single) -> Single {
        current_time.minus(self.start_time)
    }

    /// Whether the current level is over at `current_time`: the time spent
    /// on it exceeds its duration.
    pub open spec fn due(self, current_time: Single) -> bool {
        self.elapsed(current_time).greater_than(self.current().duration_seconds)
    }

    /// The manager on the next level, begun at `current_time`; on the last
    /// level it stays there.
    pub open spec fn advanced(self, current_time: Single) -> LevelState {
        LevelState {
            index: if self.index + 1 < self.levels.len() {
                self.index + 1
            } else {
                self.index
            },
            start_time: current_time,
            ..self
        }
    }

    /// The part of the current level that is over at `current_time`, held
    /// between 0 and 1.
    pub open spec fn progress(self, current_time: Single) -> Single {
        self.elapsed(current_time).over(self.current().duration_seconds).minimum(
            Single::whole(1),
        ).maximum(Single::whole(0))
    }
}

/// The progress through a level lies between 0 and 1, whatever the time
/// and however long the level.
pub proof fn lemma_progress_bounds(state: LevelState, current_time: Single)
    ensures
        state.progress(current_time).at_least(Single::whole(0)),
        state.progress(current_time).at_most(Single::whole(1)),
{
    reveal(less_bits);
    reveal(equal_bits);
    lemma_whole(0);
    lemma_whole(1);
    lemma_whole_order(0, 1);
}

/// A level goes on while the time spent on it is at most its duration: at
/// exactly the duration it is not over yet.
pub proof fn lemma_level_goes_on(state: LevelState, current_time: Single)
    requires
        state.elapsed(current_time).at_most(state.current().duration_seconds),
    ensures
        !state.due(current_time),
{
    reveal(less_bits);
    reveal(equal_bits);
}

/// Leads through the levels as time goes on.
pub struct LevelManager {
    levels: Vec<Level>,
    current_level_index: usize,
    level_start_time: Single,
}

impl View for LevelManager {
    type V = LevelState;

    closed spec fn view(&self) -> LevelState {
        LevelState {
            levels: self.levels@,
            index: self.current_level_index as nat,
            start_time: self.level_start_time,
        }
    }
}

impl LevelManager {
    #[verifier::type_invariant]
    spec fn has_current_level(self) -> bool {
        self.current_level_index < self.levels@.len()
    }

    /// A manager of the six levels of the game, on the first of them.
    pub fn new() -> (r: Self)
        ensures
            r@ == (LevelState { levels: default_levels(), index: 0, start_time: Single::whole(0) }),
    {
        let mut levels: Vec<Level> = Vec::new();
        levels.push(
            Level::new(1, Single::from_int(60), Single::from_int(300), Single::from_int(200)),
        );
        levels.push(
            Level::new(2, Single::from_int(90), Single::from_int(400), Single::from_int(180)),
        );
        levels.push(
            Level::new(3, Single::from_int(120), Single::from_int(500), Single::from_int(160)),
        );
        levels.push(
            Level::new(4, Single::from_int(120), Single::from_int(600), Single::from_int(140)),
        );
        levels.push(
            Level::new(5, Single::from_int(150), Single::from_int(700), Single::from_int(120)),
        );
        levels.push(
            Level::new(6, Single::from_int(180), Single::from_int(800), Single::from_int(100)),
        );
        proof {
            assert(levels@ =~= default_levels());
        }
        Self { levels, current_level_index: 0, level_start_time: Single::from_int(0) }
    }

    /// A manager of the given levels, on the first of them. An empty list is
    /// refused.
    pub fn with_levels(levels: Vec<Level>) -> (r: LevelResult<Self>)
        ensures
            levels@.len() == 0 ==> r == Err::<Self, LevelError>(LevelError::EmptyLevelList),
            levels@.len() > 0 ==> r is Ok && r->Ok_0@ == (LevelState {
                levels: levels@,
                index: 0,
                start_time: Single::whole(0),
            }),
    {
        if levels.len() == 0 {
            return Err(LevelError::EmptyLevelList);
        }
        Ok(Self { levels, current_level_index: 0, level_start_time: Single::from_int(0) })
    }

    /// The index of the current level.
    pub fn current_level_index(&self) -> (r: usize)
        ensures
            r == self@.index,
    {
        self.current_level_index
    }

    /// The time at which the current level began.
    pub fn level_start_time(&self) -> (r: Single)
        ensures
            r == self@.start_time,
    {
        self.level_start_time
    }

    /// The current level. There always is one.
    pub fn current_level(&self) -> (r: LevelResult<&Level>)
        ensures
            self@.well_formed(),
            r is Ok,
            *r->Ok_0 == self@.current(),
    {
        proof {
            use_type_invariant(self);
        }
        if self.current_level_index < self.levels.len() {
            Ok(&self.levels[self.current_level_index])
        } else {
            Err(LevelError::InvalidLevelIndex(self.current_level_index))
        }
    }

    /// Moves to the next level once the current one has lasted longer than
    /// its duration, and says whether it did. At exactly the duration the
    /// level goes on.
    pub fn update(&mut self, current_time: Single) -> (r: LevelResult<bool>)
        ensures
            r == Ok::<bool, LevelError>(old(self)@.due(current_time)),
            final(self)@ == if old(self)@.due(current_time) {
                old(self)@.advanced(current_time)
            } else {
                old(self)@
            },
    {
        proof {
            use_type_invariant(&*self);
        }
        let elapsed = current_time.sub(self.level_start_time);
        if self.current_level_index >= self.levels.len() {
            return Err(LevelError::InvalidLevelIndex(self.current_level_index));
        }
        let duration = self.levels[self.current_level_index].duration_seconds;
        if elapsed.gt(duration) {
            Ok(self.advance_level(current_time))
        } else {
            Ok(false)
        }
    }

    fn advance_level(&mut self, current_time: Single) -> (r: bool)
        ensures
            r,
            final(self)@ == old(self)@.advanced(current_time),
    {
        proof {
            use_type_invariant(&*self);
        }
        if self.current_level_index < self.levels.len() - 1 {
            self.current_level_index = self.current_level_index + 1;
        }
        self.level_start_time = current_time;
        true
    }

    /// The part of the current level that is over, between 0 and 1.
    pub fn level_progress(&self, current_time: Single) -> (r: LevelResult<Single>)
        ensures
            r == Ok::<Single, LevelError>(self@.progress(current_time)),
    {
        proof {
            use_type_invariant(self);
        }
        let elapsed = current_time.sub(self.level_start_time);
        if self.current_level_index >= self.levels.len() {
            return Err(LevelError::InvalidLevelIndex(self.current_level_index));
        }
        let duration = self.levels[self.current_level_index].duration_seconds;
        Ok(elapsed.div(duration).min(Single::from_int(1)).max(Single::from_int(0)))
    }

    /// Back to the first level, begun at time 0.
    pub fn reset(&mut self)
        ensures
            final(self)@ == (LevelState { index: 0, start_time: Single::whole(0), ..old(self)@ }),
    {
        proof {
            use_type_invariant(&*self);
        }
        self.current_level_index = 0;
        self.level_start_time = Single::from_int(0);
    }
}

impl Default for LevelManager {
    fn default() -> (r: Self)
        ensures
            r@ == (LevelState { levels: default_levels(), index: 0, start_time: Single::whole(0) }),
    {
        Self::new()
    }
}

} // verus!
