//! The run-state controller: one transition per tick, from the current run
//! state and what the collaborators reported to the next run state and what
//! to do with the stored save.
use vstd::prelude::*;
use crate::game::{game_map_result, handle_game_map, is_resumable, run_well_formed, GameRunState, GameState};
use crate::map::GameMapAction;
use crate::menus::{
    handle_main_menu, handle_pause_menu, handle_settings_menu, main_menu_result,
    pause_menu_result, settings_menu_result, MainMenu, MenuAction, PauseMenu, SettingsMenu,
};

verus! {

/// The top-level mode of the application.
#[derive(Clone, PartialEq, Eq, Debug)]
pub enum RunState {
    Initializing,
    ShowingMainMenu(MainMenu),
    ShowingSettingsMenu(SettingsMenu),
    StartingNewGame,
    LoadingSavedGame,
    PlayingGame(GameRunState),
    ShowingPauseMenu(GameRunState, PauseMenu),
    Quitting,
}

impl RunState {
    /// The tick loop ends here.
    pub fn is_quitting(&self) -> (b: bool)
        ensures
            b == (*self is Quitting),
    {
        match self {
            RunState::Quitting => true,
            _ => false,
        }
    }
}

/// What becomes of the stored save after a tick.
#[derive(Clone, PartialEq, Eq, Debug)]
pub enum SaveAction {
    Nothing,
    /// Store this game, serialised, as the save.
    Store(GameRunState),
    /// Delete the stored save; the abandoned game rides along in case
    /// deleting fails.
    Delete(GameRunState),
}

/// What the collaborators reported during a tick.
#[derive(Clone, PartialEq, Eq, Debug)]
pub enum TickInput {
    /// No report, or the collaborator failed.
    NoInput,
    /// The stored save text, if any, looked up while initializing.
    SaveLookup(Option<String>),
    /// The player's action in the menu on screen.
    MenuChoice(MenuAction),
    /// The player's action on the map on screen.
    MapAction(GameMapAction),
    /// The stored save, parsed; `None` when it is missing or cannot be parsed.
    Loaded(Option<GameRunState>),
    /// A seed for the generator of a new game, read from the system.
    NewGameSeed(u64),
}

/// The context the controller carries from tick to tick: the stored save
/// text, looked up only while initializing.
#[derive(Clone, PartialEq, Eq, Debug)]
pub struct Session {
    pub save_game: Option<String>,
}

impl Session {
    pub fn new() -> (s: Self)
        ensures
            s.save_game is None,
    {
        Session { save_game: None }
    }

    /// A save was found while initializing.
    pub fn has_save_game(&self) -> (b: bool)
        ensures
            b == (self.save_game is Some),
    {
        self.save_game.is_some()
    }
}

/// The menu action in `input`, if it holds one.
pub open spec fn menu_action_of(input: TickInput) -> Option<MenuAction> {
    match input {
        TickInput::MenuChoice(a) => Some(a),
        _ => None,
    }
}

/// The map action in `input`, if it holds one.
pub open spec fn map_action_of(input: TickInput) -> Option<GameMapAction> {
    match input {
        TickInput::MapAction(a) => Some(a),
        _ => None,
    }
}

fn menu_action(input: &TickInput) -> (a: Option<MenuAction>)
    ensures
        a == menu_action_of(*input),
{
    match input {
        TickInput::MenuChoice(a) => Some(*a),
        _ => None,
    }
}

fn map_action(input: &TickInput) -> (a: Option<GameMapAction>)
    ensures
        a == map_action_of(*input),
{
    match input {
        TickInput::MapAction(a) => Some(*a),
        _ => None,
    }
}

/// One tick of the controller. Initializing records the save looked up and
/// opens the main menu, at Continue when a save exists and at Play
/// otherwise; the menus and the map follow what the renderer reported;
/// StartingNewGame generates a fresh run from the seed handed in, or waits
/// for one; LoadingSavedGame resumes the parsed save when its level is well
/// formed, and goes back to Initializing otherwise; an
/// encounter and Quitting stay as they are. Only Initializing changes the
/// session, and only the pause menu asks to store or delete the save.
pub fn tick(state: RunState, session: &mut Session, input: TickInput) -> (r: (RunState, SaveAction))
    ensures
        match state {
            RunState::Initializing => match input {
                TickInput::SaveLookup(found) => {
                    &&& final(session).save_game == found
                    &&& r == (
                        RunState::ShowingMainMenu(
                            if found is Some {
                                MainMenu::Continue
                            } else {
                                MainMenu::Play
                            },
                        ),
                        SaveAction::Nothing,
                    )
                },
                _ => *final(session) == *old(session) && r == (
                    RunState::Initializing,
                    SaveAction::Nothing,
                ),
            },
            _ => *final(session) == *old(session),
        },
        match state {
            RunState::Initializing => true,
            RunState::ShowingMainMenu(m) => r == (
                main_menu_result(m, old(session).save_game is Some, menu_action_of(input)),
                SaveAction::Nothing,
            ),
            RunState::ShowingSettingsMenu(m) => r == (
                settings_menu_result(m, menu_action_of(input)),
                SaveAction::Nothing,
            ),
            RunState::StartingNewGame => r.1 == SaveAction::Nothing && match input {
                TickInput::NewGameSeed(_) => match r.0 {
                    RunState::PlayingGame(GameRunState::ShowingMap(gs)) => gs.is_fresh(),
                    _ => false,
                },
                _ => r.0 == RunState::StartingNewGame,
            },
            RunState::LoadingSavedGame => r == match input {
                TickInput::Loaded(Some(g)) => if run_well_formed(g) {
                    (RunState::PlayingGame(g), SaveAction::Nothing)
                } else {
                    (RunState::Initializing, SaveAction::Nothing)
                },
                _ => (RunState::Initializing, SaveAction::Nothing),
            },
            RunState::PlayingGame(g) => r.1 == SaveAction::Nothing && game_map_result(
                g,
                map_action_of(input),
                r.0,
            ),
            RunState::ShowingPauseMenu(g, m) => r == pause_menu_result(
                m,
                g,
                menu_action_of(input),
            ),
            RunState::Quitting => r == (RunState::Quitting, SaveAction::Nothing),
        },
{
    match state {
        RunState::Initializing => match input {
            TickInput::SaveLookup(found) => {
                let menu = if found.is_some() {
                    MainMenu::Continue
                } else {
                    MainMenu::default()
                };
                session.save_game = found;
                (RunState::ShowingMainMenu(menu), SaveAction::Nothing)
            },
            _ => (RunState::Initializing, SaveAction::Nothing),
        },
        RunState::ShowingMainMenu(m) => {
            let has_save = session.has_save_game();
            (handle_main_menu(m, has_save, menu_action(&input)), SaveAction::Nothing)
        },
        RunState::ShowingSettingsMenu(m) => (
            handle_settings_menu(m, menu_action(&input)),
            SaveAction::Nothing,
        ),
        RunState::StartingNewGame => match input {
            TickInput::NewGameSeed(seed) => (
                RunState::PlayingGame(GameRunState::ShowingMap(GameState::new(seed))),
                SaveAction::Nothing,
            ),
            _ => (RunState::StartingNewGame, SaveAction::Nothing),
        },
        RunState::LoadingSavedGame => match input {
            TickInput::Loaded(Some(g)) => {
                if is_resumable(&g) {
                    (RunState::PlayingGame(g), SaveAction::Nothing)
                } else {
                    (RunState::Initializing, SaveAction::Nothing)
                }
            },
            _ => (RunState::Initializing, SaveAction::Nothing),
        },
        RunState::PlayingGame(g) => (handle_game_map(g, map_action(&input)), SaveAction::Nothing),
        RunState::ShowingPauseMenu(g, m) => handle_pause_menu(m, g, menu_action(&input)),
        RunState::Quitting => (RunState::Quitting, SaveAction::Nothing),
    }
}

/// Storing the save failed: the pause menu stays open at SaveAndQuit over
/// the same game, so that no progress is lost.
pub fn save_failed(game_state: GameRunState) -> (r: RunState)
    ensures
        r == RunState::ShowingPauseMenu(game_state, PauseMenu::SaveAndQuit),
{
    RunState::ShowingPauseMenu(game_state, PauseMenu::SaveAndQuit)
}

/// Deleting the save failed: the pause menu stays open at AbortRun over
/// the same game, to try again.
pub fn delete_failed(game_state: GameRunState) -> (r: RunState)
    ensures
        r == RunState::ShowingPauseMenu(game_state, PauseMenu::AbortRun),
{
    RunState::ShowingPauseMenu(game_state, PauseMenu::AbortRun)
}

} // verus!
