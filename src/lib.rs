//! Run-state controller and procedural level-graph generator for a small
//! turn-based game.

pub mod game;
pub mod map;
pub mod menus;
pub mod rng;
pub mod run;

pub use game::{handle_game_map, is_resumable, EncounterState, GameRunState, GameState};
pub use map::{GameLevel, GameMapAction, MapNode, MapSignal};
pub use menus::{
    handle_main_menu, handle_pause_menu, handle_settings_menu, MainMenu, MenuAction, PauseMenu,
    SettingsMenu,
};
pub use run::{delete_failed, save_failed, tick, RunState, SaveAction, Session, TickInput};
