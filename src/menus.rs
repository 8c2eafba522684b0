//! The three menus: each a fixed order of options, moved through by Next and
//! Previous (clamped at both ends), left by Confirm.
use vstd::prelude::*;
use crate::game::GameRunState;
use crate::run::{RunState, SaveAction};

verus! {

/// What the renderer reports the player did in a menu.
#[derive(Copy, Clone, PartialEq, Eq, Debug, Structural)]
pub enum MenuAction {
    Next,
    Previous,
    Confirm,
}

/// The highlighted option of the main menu, in display order. `Continue` is
/// shown only when a saved game exists.
#[derive(Copy, Clone, PartialEq, Eq, Debug, Structural)]
pub enum MainMenu {
    Play,
    Continue,
    Settings,
    Quit,
}

impl Default for MainMenu {
    fn default() -> (m: Self)
        ensures
            m == MainMenu::Play,
    {
        MainMenu::Play
    }
}

impl MainMenu {
    /// The option's place in display order.
    pub open spec fn rank(self) -> int {
        match self {
            MainMenu::Play => 0,
            MainMenu::Continue => 1,
            MainMenu::Settings => 2,
            MainMenu::Quit => 3,
        }
    }

    /// The option is shown: every option but `Continue`, which needs a save.
    pub open spec fn shown(self, has_save_game: bool) -> bool {
        self != MainMenu::Continue || has_save_game
    }

    /// The shown option after this one, or this one when none follows.
    pub open spec fn after_next(self, has_save_game: bool) -> MainMenu {
        match self {
            MainMenu::Play => if has_save_game {
                MainMenu::Continue
            } else {
                MainMenu::Settings
            },
            MainMenu::Continue => MainMenu::Settings,
            MainMenu::Settings => MainMenu::Quit,
            MainMenu::Quit => MainMenu::Quit,
        }
    }

    /// The shown option before this one, or this one when none precedes.
    pub open spec fn after_previous(self, has_save_game: bool) -> MainMenu {
        match self {
            MainMenu::Play => MainMenu::Play,
            MainMenu::Continue => MainMenu::Play,
            MainMenu::Settings => if has_save_game {
                MainMenu::Continue
            } else {
                MainMenu::Play
            },
            MainMenu::Quit => MainMenu::Settings,
        }
    }

    /// The option after a run of Next and Previous presses (Confirm moves nothing).
    pub open spec fn after_moves(self, moves: Seq<MenuAction>, has_save_game: bool) -> MainMenu
        decreases moves.len(),
    {
        if moves.len() == 0 {
            self
        } else {
            let m = match moves[0] {
                MenuAction::Next => self.after_next(has_save_game),
                MenuAction::Previous => self.after_previous(has_save_game),
                MenuAction::Confirm => self,
            };
            m.after_moves(moves.drop_first(), has_save_game)
        }
    }

    /// Where Confirm on this option leads.
    pub open spec fn confirmed(self) -> RunState {
        match self {
            MainMenu::Play => RunState::StartingNewGame,
            MainMenu::Continue => RunState::LoadingSavedGame,
            MainMenu::Settings => RunState::ShowingSettingsMenu(SettingsMenu::Back),
            MainMenu::Quit => RunState::Quitting,
        }
    }

    pub fn on_action(self, action: MenuAction, has_save_game: bool) -> (r: RunState)
        ensures
            r == match action {
                MenuAction::Next => RunState::ShowingMainMenu(self.after_next(has_save_game)),
                MenuAction::Previous => RunState::ShowingMainMenu(self.after_previous(has_save_game)),
                MenuAction::Confirm => self.confirmed(),
            },
    {
        match action {
            MenuAction::Next => RunState::ShowingMainMenu(self.on_next(has_save_game)),
            MenuAction::Previous => RunState::ShowingMainMenu(self.on_previous(has_save_game)),
            MenuAction::Confirm => self.on_confirm(),
        }
    }

    pub fn on_next(self, has_save_game: bool) -> (m: MainMenu)
        ensures
            m == self.after_next(has_save_game),
            m.shown(has_save_game),
            m == self || m.rank() > self.rank(),
    {
        match self {
            MainMenu::Play => {
                if has_save_game {
                    MainMenu::Continue
                } else {
                    MainMenu::Settings
                }
            },
            MainMenu::Continue => MainMenu::Settings,
            MainMenu::Settings => MainMenu::Quit,
            MainMenu::Quit => MainMenu::Quit,
        }
    }

    pub fn on_previous(self, has_save_game: bool) -> (m: MainMenu)
        ensures
            m == self.after_previous(has_save_game),
            m.shown(has_save_game),
            m == self || m.rank() < self.rank(),
    {
        match self {
            MainMenu::Play => MainMenu::Play,
            MainMenu::Continue => MainMenu::Play,
            MainMenu::Settings => {
                if has_save_game {
                    MainMenu::Continue
                } else {
                    MainMenu::Play
                }
            },
            MainMenu::Quit => MainMenu::Settings,
        }
    }

    pub fn on_confirm(self) -> (r: RunState)
        ensures
            r == self.confirmed(),
    {
        match self {
            MainMenu::Play => RunState::StartingNewGame,
            MainMenu::Continue => RunState::LoadingSavedGame,
            MainMenu::Settings => RunState::ShowingSettingsMenu(SettingsMenu::default()),
            MainMenu::Quit => RunState::Quitting,
        }
    }
}

/// Next from a shown option never skips a shown option, and Previous likewise.
pub proof fn lemma_main_menu_moves_by_one(m: MainMenu, o: MainMenu, has_save_game: bool)
    requires
        m.shown(has_save_game),
        o.shown(has_save_game),
    ensures
        m.rank() < o.rank() ==> m.rank() < m.after_next(has_save_game).rank() <= o.rank(),
        o.rank() < m.rank() ==> o.rank() <= m.after_previous(has_save_game).rank() < m.rank(),
{
}

/// Next any number of times from the last option stays on it, and Previous
/// any number of times from the first option stays on it.
pub proof fn lemma_main_menu_clamps(moves: Seq<MenuAction>, has_save_game: bool)
    ensures
        (forall|i: int| 0 <= i < moves.len() ==> moves[i] == MenuAction::Next)
            ==> MainMenu::Quit.after_moves(moves, has_save_game) == MainMenu::Quit,
        (forall|i: int| 0 <= i < moves.len() ==> moves[i] == MenuAction::Previous)
            ==> MainMenu::Play.after_moves(moves, has_save_game) == MainMenu::Play,
    decreases moves.len(),
{
    if moves.len() > 0 {
        lemma_main_menu_clamps(moves.drop_first(), has_save_game);
        if forall|i: int| 0 <= i < moves.len() ==> moves[i] == MenuAction::Next {
            assert(moves[0] == MenuAction::Next);
            assert forall|i: int| 0 <= i < moves.drop_first().len() implies moves.drop_first()[i]
                == MenuAction::Next by {
                assert(moves[i + 1] == MenuAction::Next);
            }
        }
        if forall|i: int| 0 <= i < moves.len() ==> moves[i] == MenuAction::Previous {
            assert(moves[0] == MenuAction::Previous);
            assert forall|i: int| 0 <= i < moves.drop_first().len() implies moves.drop_first()[i]
                == MenuAction::Previous by {
                assert(moves[i + 1] == MenuAction::Previous);
            }
        }
    }
}

/// Without a saved game, no run of Next and Previous presses from a shown
/// option reaches `Continue`.
pub proof fn lemma_continue_unreachable_without_save(m: MainMenu, moves: Seq<MenuAction>)
    requires
        m != MainMenu::Continue,
    ensures
        m.after_moves(moves, false) != MainMenu::Continue,
    decreases moves.len(),
{
    if moves.len() > 0 {
        let n = match moves[0] {
            MenuAction::Next => m.after_next(false),
            MenuAction::Previous => m.after_previous(false),
            MenuAction::Confirm => m,
        };
        lemma_continue_unreachable_without_save(n, moves.drop_first());
    }
}

/// The run state after the main menu at `current` gets `action` from the
/// renderer: a move, Confirm's target, or, without a report, no change.
pub open spec fn main_menu_result(current: MainMenu, has_save_game: bool, action: Option<MenuAction>) -> RunState {
    match action {
        Some(MenuAction::Next) => RunState::ShowingMainMenu(current.after_next(has_save_game)),
        Some(MenuAction::Previous) => RunState::ShowingMainMenu(current.after_previous(has_save_game)),
        Some(MenuAction::Confirm) => current.confirmed(),
        None => RunState::ShowingMainMenu(current),
    }
}

/// One tick of the main menu; `action` is what the renderer reported for
/// `current`, if anything.
pub fn handle_main_menu(current: MainMenu, has_save_game: bool, action: Option<MenuAction>) -> (r:
    RunState)
    ensures
        r == main_menu_result(current, has_save_game, action),
{
    match action {
        Some(a) => current.on_action(a, has_save_game),
        None => RunState::ShowingMainMenu(current),
    }
}

/// The settings menu, whose one option leads back to the main menu.
#[derive(Copy, Clone, PartialEq, Eq, Debug, Structural)]
pub enum SettingsMenu {
    Back,
}

impl Default for SettingsMenu {
    fn default() -> (m: Self)
        ensures
            m == SettingsMenu::Back,
    {
        SettingsMenu::Back
    }
}

impl SettingsMenu {
    pub fn on_action(self, action: MenuAction) -> (r: RunState)
        ensures
            r == match action {
                MenuAction::Confirm => RunState::ShowingMainMenu(MainMenu::Settings),
                _ => RunState::ShowingSettingsMenu(SettingsMenu::Back),
            },
    {
        match action {
            MenuAction::Next => RunState::ShowingSettingsMenu(self.on_next()),
            MenuAction::Previous => RunState::ShowingSettingsMenu(self.on_previous()),
            MenuAction::Confirm => self.on_confirm(),
        }
    }

    pub fn on_next(self) -> (m: Self)
        ensures
            m == SettingsMenu::Back,
    {
        SettingsMenu::Back
    }

    pub fn on_previous(self) -> (m: Self)
        ensures
            m == SettingsMenu::Back,
    {
        SettingsMenu::Back
    }

    pub fn on_confirm(self) -> (r: RunState)
        ensures
            r == RunState::ShowingMainMenu(MainMenu::Settings),
    {
        match self {
            SettingsMenu::Back => RunState::ShowingMainMenu(MainMenu::Settings),
        }
    }
}

/// The run state after the settings menu gets `action`: Confirm goes back
/// to the main menu at Settings; anything else stays.
pub open spec fn settings_menu_result(current: SettingsMenu, action: Option<MenuAction>) -> RunState {
    match action {
        Some(MenuAction::Confirm) => RunState::ShowingMainMenu(MainMenu::Settings),
        Some(_) => RunState::ShowingSettingsMenu(SettingsMenu::Back),
        None => RunState::ShowingSettingsMenu(current),
    }
}

/// One tick of the menu; `action` is what the renderer reported, if anything.
pub fn handle_settings_menu(current: SettingsMenu, action: Option<MenuAction>) -> (r: RunState)
    ensures
        r == settings_menu_result(current, action),
{
    match action {
        Some(a) => current.on_action(a),
        None => RunState::ShowingSettingsMenu(current),
    }
}

/// The highlighted option of the pause menu, in display order.
#[derive(Copy, Clone, PartialEq, Eq, Debug, Structural)]
pub enum PauseMenu {
    Continue,
    SaveAndQuit,
    AbortRun,
}

impl Default for PauseMenu {
    fn default() -> (m: Self)
        ensures
            m == PauseMenu::Continue,
    {
        PauseMenu::Continue
    }
}

impl PauseMenu {
    /// The option's place in display order.
    pub open spec fn rank(self) -> int {
        match self {
            PauseMenu::Continue => 0,
            PauseMenu::SaveAndQuit => 1,
            PauseMenu::AbortRun => 2,
        }
    }

    /// The option after this one, or this one when it is the last.
    pub open spec fn after_next(self) -> PauseMenu {
        match self {
            PauseMenu::Continue => PauseMenu::SaveAndQuit,
            _ => PauseMenu::AbortRun,
        }
    }

    /// The option before this one, or this one when it is the first.
    pub open spec fn after_previous(self) -> PauseMenu {
        match self {
            PauseMenu::AbortRun => PauseMenu::SaveAndQuit,
            _ => PauseMenu::Continue,
        }
    }

    /// The option after a run of Next and Previous presses (Confirm moves nothing).
    pub open spec fn after_moves(self, moves: Seq<MenuAction>) -> PauseMenu
        decreases moves.len(),
    {
        if moves.len() == 0 {
            self
        } else {
            let m = match moves[0] {
                MenuAction::Next => self.after_next(),
                MenuAction::Previous => self.after_previous(),
                MenuAction::Confirm => self,
            };
            m.after_moves(moves.drop_first())
        }
    }

    /// Confirm on this option: the run state that follows and what becomes of
    /// the stored save. Continue resumes the paused game; SaveAndQuit hands the
    /// game over to be stored; AbortRun drops the stored save and the game.
    pub open spec fn confirmed(self, game_state: GameRunState) -> (RunState, SaveAction) {
        match self {
            PauseMenu::Continue => (RunState::PlayingGame(game_state), SaveAction::Nothing),
            PauseMenu::SaveAndQuit => (RunState::Initializing, SaveAction::Store(game_state)),
            PauseMenu::AbortRun => (RunState::Initializing, SaveAction::Delete(game_state)),
        }
    }

    pub fn on_action(self, action: MenuAction, game_state: GameRunState) -> (r: (RunState, SaveAction))
        ensures
            r == match action {
                MenuAction::Next => (
                    RunState::ShowingPauseMenu(game_state, self.after_next()),
                    SaveAction::Nothing,
                ),
                MenuAction::Previous => (
                    RunState::ShowingPauseMenu(game_state, self.after_previous()),
                    SaveAction::Nothing,
                ),
                MenuAction::Confirm => self.confirmed(game_state),
            },
    {
        match action {
            MenuAction::Next => {
                let m = self.on_next();
                (RunState::ShowingPauseMenu(game_state, m), SaveAction::Nothing)
            },
            MenuAction::Previous => {
                let m = self.on_previous();
                (RunState::ShowingPauseMenu(game_state, m), SaveAction::Nothing)
            },
            MenuAction::Confirm => self.on_confirm(game_state),
        }
    }

    pub fn on_next(self) -> (m: Self)
        ensures
            m == self.after_next(),
            m.rank() == if self.rank() < 2 {
                self.rank() + 1
            } else {
                2
            },
    {
        match self {
            PauseMenu::Continue => PauseMenu::SaveAndQuit,
            PauseMenu::SaveAndQuit => PauseMenu::AbortRun,
            PauseMenu::AbortRun => PauseMenu::AbortRun,
        }
    }

    pub fn on_previous(self) -> (m: Self)
        ensures
            m == self.after_previous(),
            m.rank() == if self.rank() > 0 {
                self.rank() - 1
            } else {
                0
            },
    {
        match self {
            PauseMenu::Continue => PauseMenu::Continue,
            PauseMenu::SaveAndQuit => PauseMenu::Continue,
            PauseMenu::AbortRun => PauseMenu::SaveAndQuit,
        }
    }

    pub fn on_confirm(self, game_state: GameRunState) -> (r: (RunState, SaveAction))
        ensures
            r == self.confirmed(game_state),
    {
        match self {
            PauseMenu::Continue => (RunState::PlayingGame(game_state), SaveAction::Nothing),
            PauseMenu::SaveAndQuit => (RunState::Initializing, SaveAction::Store(game_state)),
            PauseMenu::AbortRun => (RunState::Initializing, SaveAction::Delete(game_state)),
        }
    }
}

/// Next any number of times from the last pause option stays on it, and
/// Previous any number of times from the first stays on it.
pub proof fn lemma_pause_menu_clamps(moves: Seq<MenuAction>)
    ensures
        (forall|i: int| 0 <= i < moves.len() ==> moves[i] == MenuAction::Next)
            ==> PauseMenu::AbortRun.after_moves(moves) == PauseMenu::AbortRun,
        (forall|i: int| 0 <= i < moves.len() ==> moves[i] == MenuAction::Previous)
            ==> PauseMenu::Continue.after_moves(moves) == PauseMenu::Continue,
    decreases moves.len(),
{
    if moves.len() > 0 {
        lemma_pause_menu_clamps(moves.drop_first());
        if forall|i: int| 0 <= i < moves.len() ==> moves[i] == MenuAction::Next {
            assert(moves[0] == MenuAction::Next);
            assert forall|i: int| 0 <= i < moves.drop_first().len() implies moves.drop_first()[i]
                == MenuAction::Next by {
                assert(moves[i + 1] == MenuAction::Next);
            }
        }
        if forall|i: int| 0 <= i < moves.len() ==> moves[i] == MenuAction::Previous {
            assert(moves[0] == MenuAction::Previous);
            assert forall|i: int| 0 <= i < moves.drop_first().len() implies moves.drop_first()[i]
                == MenuAction::Previous by {
                assert(moves[i + 1] == MenuAction::Previous);
            }
        }
    }
}

/// The run state and save action after the pause menu at `current`, over
/// the paused `game_state`, gets `action`: a move, Confirm's outcome, or,
/// without a report, no change.
pub open spec fn pause_menu_result(current: PauseMenu, game_state: GameRunState, action: Option<MenuAction>) -> (RunState, SaveAction) {
    match action {
        Some(MenuAction::Next) => (
            RunState::ShowingPauseMenu(game_state, current.after_next()),
            SaveAction::Nothing,
        ),
        Some(MenuAction::Previous) => (
            RunState::ShowingPauseMenu(game_state, current.after_previous()),
            SaveAction::Nothing,
        ),
        Some(MenuAction::Confirm) => current.confirmed(game_state),
        None => (RunState::ShowingPauseMenu(game_state, current), SaveAction::Nothing),
    }
}

/// One tick of the menu; `action` is what the renderer reported, if anything.
pub fn handle_pause_menu(current: PauseMenu, game_state: GameRunState, action: Option<MenuAction>) -> (r: (RunState, SaveAction))
    ensures
        r == pause_menu_result(current, game_state, action),
{
    match action {
        Some(a) => current.on_action(a, game_state),
        None => (RunState::ShowingPauseMenu(game_state, current), SaveAction::Nothing),
    }
}

} // verus!
