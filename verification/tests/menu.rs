use fuel_drift::audio::AudioEvent;
use fuel_drift::menu::{
    handle_menu_navigation, GameOverMenuAction, GameOverMenuController, MainMenuAction,
    MainMenuController, MainMenuSelection, MenuKeys, MenuState, PauseMenuAction,
    PauseMenuController,
};

fn keys(up: bool, down: bool, select: bool) -> MenuKeys {
    MenuKeys { up, down, select }
}

#[test]
fn main_menu_selection_toggles() {
    assert_eq!(MainMenuSelection::Start.toggle(), MainMenuSelection::Quit);
    assert_eq!(MainMenuSelection::Quit.toggle(), MainMenuSelection::Start);
    assert_eq!(MainMenuSelection::Start.to_index(), 0);
    assert_eq!(MainMenuSelection::Quit.to_index(), 1);
}

#[test]
fn menus_start_on_their_first_entry() {
    let state = MenuState::new();
    assert_eq!(state.main_menu_selection, MainMenuSelection::Start);
    assert_eq!(state.pause_menu_selection, 0);
    assert_eq!(state.game_over_menu_selection, 0);
}

#[test]
fn main_menu_moves_then_selects() {
    let mut state = MenuState::new();
    let mut events = Vec::new();
    assert_eq!(MainMenuController::handle_input(&mut state, &mut events, keys(false, false, false)), None);
    assert!(events.is_empty());
    assert_eq!(
        MainMenuController::handle_input(&mut state, &mut events, keys(false, false, true)),
        Some(MainMenuAction::StartGame)
    );
    assert_eq!(events, vec![AudioEvent::ButtonClick]);
    assert_eq!(
        MainMenuController::handle_input(&mut state, &mut events, keys(false, true, true)),
        Some(MainMenuAction::QuitGame)
    );
    assert_eq!(state.main_menu_selection, MainMenuSelection::Quit);
    assert_eq!(events.len(), 3);
    assert_eq!(MainMenuController::handle_input(&mut state, &mut events, keys(true, true, false)), None);
    assert_eq!(state.main_menu_selection, MainMenuSelection::Start);
    assert_eq!(events.len(), 4);
}

#[test]
fn pause_menu_moves_then_selects() {
    let mut state = MenuState::new();
    let mut events = vec![AudioEvent::Death];
    assert_eq!(
        PauseMenuController::handle_input(&mut state, &mut events, keys(false, false, true)),
        Some(PauseMenuAction::Resume)
    );
    assert_eq!(
        PauseMenuController::handle_input(&mut state, &mut events, keys(true, false, true)),
        Some(PauseMenuAction::BackToMenu)
    );
    assert_eq!(state.pause_menu_selection, 1);
    assert_eq!(state.game_over_menu_selection, 0);
    assert_eq!(
        events,
        vec![
            AudioEvent::Death,
            AudioEvent::ButtonClick,
            AudioEvent::ButtonClick,
            AudioEvent::ButtonClick
        ]
    );
    assert_eq!(PauseMenuController::handle_input(&mut state, &mut events, keys(false, true, false)), None);
    assert_eq!(state.pause_menu_selection, 0);
}

#[test]
fn game_over_menu_moves_then_selects() {
    let mut state = MenuState::new();
    let mut events = Vec::new();
    assert_eq!(
        GameOverMenuController::handle_input(&mut state, &mut events, keys(false, false, true)),
        Some(GameOverMenuAction::Replay)
    );
    assert_eq!(
        GameOverMenuController::handle_input(&mut state, &mut events, keys(false, true, true)),
        Some(GameOverMenuAction::BackToMenu)
    );
    assert_eq!(state.game_over_menu_selection, 1);
    assert_eq!(state.pause_menu_selection, 0);
    assert_eq!(events.len(), 3);
}

#[test]
fn navigation_wraps_around_the_ends() {
    assert_eq!(handle_menu_navigation(0, 3, false, true), 1);
    assert_eq!(handle_menu_navigation(1, 3, false, true), 2);
    assert_eq!(handle_menu_navigation(2, 3, false, true), 0);
    assert_eq!(handle_menu_navigation(0, 3, true, false), 2);
    assert_eq!(handle_menu_navigation(2, 3, true, false), 1);
    assert_eq!(handle_menu_navigation(1, 3, false, false), 1);
    assert_eq!(handle_menu_navigation(1, 3, true, true), 0);
    assert_eq!(handle_menu_navigation(0, 3, true, true), 1);
    assert_eq!(handle_menu_navigation(0, 1, true, false), 0);
    assert_eq!(handle_menu_navigation(0, 1, false, true), 0);
}

#[test]
fn selection_outside_the_menu_selects_nothing() {
    let mut state = MenuState::new();
    state.pause_menu_selection = 2;
    state.game_over_menu_selection = 7;
    let mut events = Vec::new();
    assert_eq!(PauseMenuController::handle_input(&mut state, &mut events, keys(false, false, true)), None);
    assert_eq!(GameOverMenuController::handle_input(&mut state, &mut events, keys(false, false, true)), None);
    assert_eq!(state.pause_menu_selection, 2);
    assert_eq!(state.game_over_menu_selection, 7);
    assert_eq!(events, vec![AudioEvent::ButtonClick, AudioEvent::ButtonClick]);
    assert_eq!(PauseMenuController::handle_input(&mut state, &mut events, keys(false, false, false)), None);
    assert_eq!(events.len(), 2);
}
