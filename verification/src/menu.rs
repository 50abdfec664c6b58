//! The menus: what is selected, and what the keys make of it. Reading the
//! keys and drawing the menus is left to the caller.

use vstd::prelude::*;
use crate::audio::AudioEvent;

verus! {

/// The entry of the main menu that is selected.
#[derive(Debug, Clone, Copy, PartialEq, Eq, Structural)]
pub enum MainMenuSelection {
    Start,
    Quit,
}

impl MainMenuSelection {
    /// The other entry.
    pub open spec fn other(self) -> MainMenuSelection {
        match self {
            MainMenuSelection::Start => MainMenuSelection::Quit,
            MainMenuSelection::Quit => MainMenuSelection::Start,
        }
    }

    /// The action that selecting the entry asks for.
    pub open spec fn action(self) -> MainMenuAction {
        match self {
            MainMenuSelection::Start => MainMenuAction::StartGame,
            MainMenuSelection::Quit => MainMenuAction::QuitGame,
        }
    }

    /// Moves from Start to Quit and back.
    pub fn toggle(self) -> (r: Self)
        ensures
            r == self.other(),
    {
        match self {
            MainMenuSelection::Start => MainMenuSelection::Quit,
            MainMenuSelection::Quit => MainMenuSelection::Start,
        }
    }

    /// The position of the entry in the menu, from the top.
    pub fn to_index(self) -> (r: usize)
        ensures
            r == if self is Start {
                0usize
            } else {
                1usize
            },
    {
        match self {
            MainMenuSelection::Start => 0,
            MainMenuSelection::Quit => 1,
        }
    }
}

/// What is selected in each menu. The pause menu offers Resume (0) and Back
/// to Menu (1); the game over menu offers Replay (0) and Back to Menu (1).
#[derive(Debug, Clone, Copy)]
pub struct MenuState {
    pub main_menu_selection: MainMenuSelection,
    pub pause_menu_selection: usize,
    pub game_over_menu_selection: usize,
}

impl MenuState {
    /// Every menu with its first entry selected.
    pub fn new() -> (r: Self)
        ensures
            r == (MenuState {
                main_menu_selection: MainMenuSelection::Start,
                pause_menu_selection: 0,
                game_over_menu_selection: 0,
            }),
    {
        Self {
            main_menu_selection: MainMenuSelection::Start,
            pause_menu_selection: 0,
            game_over_menu_selection: 0,
        }
    }
}

/// Actions that can be triggered from the main menu
#[derive(Debug, Clone, Copy, PartialEq, Eq, Structural)]
pub enum MainMenuAction {
    StartGame,
    QuitGame,
}

/// Actions that can be triggered from the pause menu
#[derive(Debug, Clone, Copy, PartialEq, Eq, Structural)]
pub enum PauseMenuAction {
    Resume,
    BackToMenu,
}

/// Actions that can be triggered from the game over menu
#[derive(Debug, Clone, Copy, PartialEq, Eq, Structural)]
pub enum GameOverMenuAction {
    Replay,
    BackToMenu,
}

/// The keys of a menu that went down in this frame.
#[derive(Debug, Clone, Copy)]
pub struct MenuKeys {
    pub up: bool,
    pub down: bool,
    /// Enter or Space
    pub select: bool,
}

/// The clicks that the keys of a frame sound: one for moving the selection,
/// one for selecting.
pub open spec fn clicks(keys: MenuKeys) -> Seq<AudioEvent> {
    let moved = if keys.up || keys.down {
        seq![AudioEvent::ButtonClick]
    } else {
        Seq::<AudioEvent>::empty()
    };
    if keys.select {
        moved.push(AudioEvent::ButtonClick)
    } else {
        moved
    }
}

/// The selection in a menu of two entries after the keys of a frame: Up or
/// Down moves it to the other entry.
pub open spec fn flipped(selection: usize, keys: MenuKeys) -> usize {
    if keys.up || keys.down {
        (1 - selection) as usize
    } else {
        selection
    }
}

/// The selection in a menu of `max_options` entries after Up or Down: one
/// entry further, around the ends of the menu; Up goes before Down.
pub open spec fn navigated(current_selection: usize, max_options: usize, up: bool, down: bool) -> usize {
    if up && current_selection > 0 {
        (current_selection - 1) as usize
    } else if down && current_selection < max_options - 1 {
        (current_selection + 1) as usize
    } else if up && current_selection == 0 {
        (max_options - 1) as usize
    } else if down && current_selection == max_options - 1 {
        0
    } else {
        current_selection
    }
}

/// Moves the selection of a menu by the Up and Down keys.
pub fn handle_menu_navigation(
    current_selection: usize,
    max_options: usize,
    up: bool,
    down: bool,
) -> (r: usize)
    requires
        max_options >= 1,
    ensures
        r == navigated(current_selection, max_options, up, down),
{
    if up && current_selection > 0 {
        current_selection - 1
    } else if down && current_selection < max_options - 1 {
        current_selection + 1
    } else if up && current_selection == 0 {
        max_options - 1
    } else if down && current_selection == max_options - 1 {
        0
    } else {
        current_selection
    }
}

/// Main menu controller
pub struct MainMenuController;

impl MainMenuController {
    /// Moves the selection by the keys of a frame, and returns the action
    /// of the selected entry where the selection key went down.
    pub fn handle_input(
        menu_state: &mut MenuState,
        audio_events: &mut Vec<AudioEvent>,
        keys: MenuKeys,
    ) -> (r: Option<MainMenuAction>)
        ensures
            *final(menu_state) == (MenuState {
                main_menu_selection: if keys.up || keys.down {
                    old(menu_state).main_menu_selection.other()
                } else {
                    old(menu_state).main_menu_selection
                },
                ..*old(menu_state)
            }),
            final(audio_events)@ == old(audio_events)@ + clicks(keys),
            r == if keys.select {
                Some(final(menu_state).main_menu_selection.action())
            } else {
                None
            },
    {
        if keys.up || keys.down {
            menu_state.main_menu_selection = menu_state.main_menu_selection.toggle();
            audio_events.push(AudioEvent::ButtonClick);
        }
        if keys.select {
            audio_events.push(AudioEvent::ButtonClick);
            match menu_state.main_menu_selection {
                MainMenuSelection::Start => Some(MainMenuAction::StartGame),
                MainMenuSelection::Quit => Some(MainMenuAction::QuitGame),
            }
        } else {
            None
        }
    }
}

/// Pause menu controller
pub struct PauseMenuController;

impl PauseMenuController {
    /// Moves the selection by the keys of a frame, and returns the action
    /// of the selected entry where the selection key went down. A selection
    /// that is no entry of the menu cannot be moved, and selects nothing.
    pub fn handle_input(
        menu_state: &mut MenuState,
        audio_events: &mut Vec<AudioEvent>,
        keys: MenuKeys,
    ) -> (r: Option<PauseMenuAction>)
        requires
            keys.up || keys.down ==> old(menu_state).pause_menu_selection <= 1,
        ensures
            *final(menu_state) == (MenuState {
                pause_menu_selection: flipped(old(menu_state).pause_menu_selection, keys),
                ..*old(menu_state)
            }),
            final(audio_events)@ == old(audio_events)@ + clicks(keys),
            r == if !keys.select {
                None
            } else if final(menu_state).pause_menu_selection == 0 {
                Some(PauseMenuAction::Resume)
            } else if final(menu_state).pause_menu_selection == 1 {
                Some(PauseMenuAction::BackToMenu)
            } else {
                None
            },
    {
        if keys.up || keys.down {
            menu_state.pause_menu_selection = 1 - menu_state.pause_menu_selection;
            audio_events.push(AudioEvent::ButtonClick);
        }
        if keys.select {
            audio_events.push(AudioEvent::ButtonClick);
            match menu_state.pause_menu_selection {
                0 => Some(PauseMenuAction::Resume),
                1 => Some(PauseMenuAction::BackToMenu),
                _ => None,
            }
        } else {
            None
        }
    }
}

/// Game over menu controller
pub struct GameOverMenuController;

impl GameOverMenuController {
    /// Moves the selection by the keys of a frame, and returns the action
    /// of the selected entry where the selection key went down. A selection
    /// that is no entry of the menu cannot be moved, and selects nothing.
    pub fn handle_input(
        menu_state: &mut MenuState,
        audio_events: &mut Vec<AudioEvent>,
        keys: MenuKeys,
    ) -> (r: Option<GameOverMenuAction>)
        requires
            keys.up || keys.down ==> old(menu_state).game_over_menu_selection <= 1,
        ensures
            *final(menu_state) == (MenuState {
                game_over_menu_selection: flipped(old(menu_state).game_over_menu_selection, keys),
                ..*old(menu_state)
            }),
            final(audio_events)@ == old(audio_events)@ + clicks(keys),
            r == if !keys.select {
                None
            } else if final(menu_state).game_over_menu_selection == 0 {
                Some(GameOverMenuAction::Replay)
            } else if final(menu_state).game_over_menu_selection == 1 {
                Some(GameOverMenuAction::BackToMenu)
            } else {
                None
            },
    {
        if keys.up || keys.down {
            menu_state.game_over_menu_selection = 1 - menu_state.game_over_menu_selection;
            audio_events.push(AudioEvent::ButtonClick);
        }
        if keys.select {
            audio_events.push(AudioEvent::ButtonClick);
            match menu_state.game_over_menu_selection {
                0 => Some(GameOverMenuAction::Replay),
                1 => Some(GameOverMenuAction::BackToMenu),
                _ => None,
            }
        } else {
            None
        }
    }
}

} // verus!
