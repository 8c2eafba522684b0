//! A game in progress: the random source, the level, and what the player is
//! looking at.
use vstd::prelude::*;
use rand_xoshiro::Xoroshiro128PlusPlus;
use crate::map::{GameLevel, GameMapAction, MapSignal};
use crate::menus::PauseMenu;
use crate::run::RunState;
use crate::rng::seeded_rng;

verus! {

/// What an encounter holds; encounters are not played yet.
#[derive(Clone, PartialEq, Eq, Debug)]
pub struct EncounterState {}

/// One run of the game: the random source it draws from and its level.
#[derive(Clone, PartialEq, Eq, Debug)]
pub struct GameState {
    pub r: Xoroshiro128PlusPlus,
    pub level: GameLevel,
}

impl GameState {
    /// A freshly generated level, with the player on Start.
    pub open spec fn is_fresh(self) -> bool {
        &&& self.level.is_layered()
        &&& self.level.well_formed()
        &&& self.level.current == 0
        &&& self.level.visited@.len() == 0
    }

    /// A new run whose generator's stream is fixed by `seed`.
    pub fn new(seed: u64) -> (s: Self)
        ensures
            s.is_fresh(),
    {
        let mut r = seeded_rng(seed);
        let level = GameLevel::new_from_random(&mut r);
        GameState { r, level }
    }
}

/// What the player is looking at during a run.
#[derive(Clone, PartialEq, Eq, Debug)]
pub enum GameRunState {
    ShowingMap(GameState),
    ShowingEncounter(GameState, EncounterState),
}

/// The game's level is well formed, whatever is on screen.
pub open spec fn run_well_formed(g: GameRunState) -> bool {
    match g {
        GameRunState::ShowingMap(gs) => gs.level.well_formed(),
        GameRunState::ShowingEncounter(gs, _) => gs.level.well_formed(),
    }
}

/// Whether a game read back from storage may be resumed.
pub fn is_resumable(g: &GameRunState) -> (b: bool)
    ensures
        b == run_well_formed(*g),
{
    match g {
        GameRunState::ShowingMap(gs) => gs.level.is_well_formed(),
        GameRunState::ShowingEncounter(gs, _) => gs.level.is_well_formed(),
    }
}

/// `r` is the run state after the map shown in `state` gets `action` from
/// the renderer: a pause opens the pause menu over the same game, a legal
/// move moves the player, anything else (no report, waiting, an illegal
/// move, an encounter on screen) leaves the game as it was.
pub open spec fn game_map_result(state: GameRunState, action: Option<GameMapAction>, r: RunState) -> bool {
    match state {
        GameRunState::ShowingMap(gs) => match action {
            Some(GameMapAction::PauseGame) => r == RunState::ShowingPauseMenu(state, PauseMenu::Continue),
            Some(GameMapAction::GoToNode(id)) => if gs.level.has_edge(gs.level.current as int, id) {
                match r {
                    RunState::PlayingGame(GameRunState::ShowingMap(next)) => next.r == gs.r
                        && gs.level.moved_to(next.level, id),
                    _ => false,
                }
            } else {
                r == RunState::PlayingGame(state)
            },
            _ => r == RunState::PlayingGame(state),
        },
        GameRunState::ShowingEncounter(_, _) => r == RunState::PlayingGame(state),
    }
}

/// One tick of the map; `action` is what the renderer reported for it,
/// if anything.
pub fn handle_game_map(state: GameRunState, action: Option<GameMapAction>) -> (r: RunState)
    ensures
        game_map_result(state, action, r),
{
    match state {
        GameRunState::ShowingMap(gs) => {
            let mut gs = gs;
            let signal = gs.level.advance(action);
            match signal {
                MapSignal::EnterPauseMenu => RunState::ShowingPauseMenu(
                    GameRunState::ShowingMap(gs),
                    PauseMenu::default(),
                ),
                MapSignal::StayOnMap => RunState::PlayingGame(GameRunState::ShowingMap(gs)),
            }
        },
        GameRunState::ShowingEncounter(gs, e) => RunState::PlayingGame(
            GameRunState::ShowingEncounter(gs, e),
        ),
    }
}

} // verus!
