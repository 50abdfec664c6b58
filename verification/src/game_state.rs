//! The states of the game and the events that move it between them.

use vstd::prelude::*;

verus! {

/// The states of the game.
#[derive(Debug, Clone, Copy, PartialEq, Eq, Structural)]
pub enum GameState {
    Menu,
    Playing,
    Paused,
    GameOver,
}

/// A user action or game condition that may change the state.
#[derive(Debug, Clone, Copy, PartialEq, Eq, Structural)]
pub enum GameEvent {
    Start,
    PauseToggle,
    Dead,
    Reset,
    BackToMenu,
}

impl GameState {
    /// Whether `event` leads from this state to another one, or back to
    /// this one by a transition of its own.
    pub open spec fn accepts(self, event: GameEvent) -> bool {
        match self {
            GameState::Menu => event is Start || event is Reset,
            GameState::Playing => event is PauseToggle || event is Dead,
            GameState::Paused => event is PauseToggle || event is Reset || event is BackToMenu,
            GameState::GameOver => event is Start || event is Reset || event is BackToMenu,
        }
    }

    /// The state in which an accepted event ends.
    pub open spec fn target(self, event: GameEvent) -> GameState {
        match event {
            GameEvent::Start => GameState::Playing,
            GameEvent::PauseToggle => if self is Playing {
                GameState::Paused
            } else {
                GameState::Playing
            },
            GameEvent::Dead => GameState::GameOver,
            GameEvent::Reset => GameState::Menu,
            GameEvent::BackToMenu => GameState::Menu,
        }
    }

    /// The state after `event`: its target where the state accepts the
    /// event, the state itself where it does not.
    pub open spec fn successor(self, event: GameEvent) -> GameState {
        if self.accepts(event) {
            self.target(event)
        } else {
            self
        }
    }

    /// The next state for an event.
    pub fn next(self, event: GameEvent) -> (r: GameState)
        ensures
            r == self.successor(event),
    {
        match (self, event) {
            (GameState::Menu, GameEvent::Start) => GameState::Playing,
            (GameState::Menu, GameEvent::Reset) => GameState::Menu,
            (GameState::Playing, GameEvent::PauseToggle) => GameState::Paused,
            (GameState::Playing, GameEvent::Dead) => GameState::GameOver,
            (GameState::Paused, GameEvent::PauseToggle) => GameState::Playing,
            (GameState::Paused, GameEvent::Reset) => GameState::Menu,
            (GameState::Paused, GameEvent::BackToMenu) => GameState::Menu,
            (GameState::GameOver, GameEvent::Start) => GameState::Playing,
            (GameState::GameOver, GameEvent::Reset) => GameState::Menu,
            (GameState::GameOver, GameEvent::BackToMenu) => GameState::Menu,
            (state, _) => state,
        }
    }
}

/// The event that the Escape key stands for in a state: it pauses the game,
/// and leads from the pause and from the end of a game back to the menu. In
/// the menu it stands for nothing.
pub fn escape_event(state: GameState) -> (r: Option<GameEvent>)
    ensures
        r == match state {
            GameState::Menu => None::<GameEvent>,
            GameState::Playing => Some(GameEvent::PauseToggle),
            GameState::Paused => Some(GameEvent::BackToMenu),
            GameState::GameOver => Some(GameEvent::BackToMenu),
        },
{
    match state {
        GameState::Playing => Some(GameEvent::PauseToggle),
        GameState::Paused => Some(GameEvent::BackToMenu),
        GameState::GameOver => Some(GameEvent::BackToMenu),
        GameState::Menu => None,
    }
}

/// Holds the current state and moves it by events.
#[derive(Debug, Clone, Copy)]
pub struct StateMachine {
    current_state: GameState,
}

impl View for StateMachine {
    type V = GameState;

    closed spec fn view(&self) -> GameState {
        self.current_state
    }
}

impl StateMachine {
    /// A machine in the `Menu` state.
    pub fn new() -> (r: Self)
        ensures
            r@ == GameState::Menu,
    {
        Self { current_state: GameState::Menu }
    }

    /// The current state.
    pub fn current(&self) -> (r: GameState)
        ensures
            r == self@,
    {
        self.current_state
    }

    /// Moves to the successor of the current state for `event`.
    pub fn handle_event(&mut self, event: GameEvent)
        ensures
            final(self)@ == old(self)@.successor(event),
    {
        self.current_state = self.current_state.next(event);
    }
}

impl Default for StateMachine {
    fn default() -> (r: Self)
        ensures
            r@ == GameState::Menu,
    {
        Self::new()
    }
}

} // verus!
