use game_core::{
    delete_failed, handle_game_map, handle_main_menu, handle_pause_menu, handle_settings_menu, is_resumable,
    save_failed, tick,
    GameMapAction, GameRunState, GameState, MainMenu, MapNode, MenuAction, PauseMenu, RunState,
    SaveAction, Session, SettingsMenu, TickInput,
};

#[test]
fn main_menu_next_skips_continue_without_save() {
    assert_eq!(MainMenu::Play.on_next(false), MainMenu::Settings);
    assert_eq!(MainMenu::Play.on_next(true), MainMenu::Continue);
    assert_eq!(MainMenu::Settings.on_previous(false), MainMenu::Play);
    assert_eq!(MainMenu::Settings.on_previous(true), MainMenu::Continue);
    assert_eq!(MainMenu::Continue.on_next(true), MainMenu::Settings);
    assert_eq!(MainMenu::Settings.on_next(true), MainMenu::Quit);
    assert_eq!(MainMenu::Quit.on_previous(false), MainMenu::Settings);
}

#[test]
fn main_menu_clamps_at_both_ends() {
    for has_save in [false, true] {
        let mut m = MainMenu::Quit;
        for _ in 0..5 {
            m = m.on_next(has_save);
            assert_eq!(m, MainMenu::Quit);
        }
        let mut m = MainMenu::Play;
        for _ in 0..5 {
            m = m.on_previous(has_save);
            assert_eq!(m, MainMenu::Play);
        }
    }
}

#[test]
fn main_menu_never_reaches_continue_without_save() {
    let mut m = MainMenu::Play;
    for i in 0..40u32 {
        m = if (i * 7 + 3) % 5 < 3 { m.on_next(false) } else { m.on_previous(false) };
        assert_ne!(m, MainMenu::Continue);
    }
}

#[test]
fn main_menu_confirm_targets() {
    assert_eq!(MainMenu::Play.on_confirm(), RunState::StartingNewGame);
    assert_eq!(MainMenu::Continue.on_confirm(), RunState::LoadingSavedGame);
    assert_eq!(MainMenu::Settings.on_confirm(), RunState::ShowingSettingsMenu(SettingsMenu::Back));
    assert_eq!(MainMenu::Quit.on_confirm(), RunState::Quitting);
    assert_eq!(MainMenu::default(), MainMenu::Play);
    assert_eq!(
        MainMenu::Play.on_action(MenuAction::Next, true),
        RunState::ShowingMainMenu(MainMenu::Continue)
    );
}

#[test]
fn main_menu_without_report_stays() {
    assert_eq!(handle_main_menu(MainMenu::Settings, false, None), RunState::ShowingMainMenu(MainMenu::Settings));
    assert_eq!(
        handle_main_menu(MainMenu::Settings, false, Some(MenuAction::Previous)),
        RunState::ShowingMainMenu(MainMenu::Play)
    );
}

#[test]
fn settings_menu_back_returns_to_settings_entry() {
    assert_eq!(SettingsMenu::default(), SettingsMenu::Back);
    assert_eq!(SettingsMenu::Back.on_next(), SettingsMenu::Back);
    assert_eq!(SettingsMenu::Back.on_previous(), SettingsMenu::Back);
    assert_eq!(SettingsMenu::Back.on_action(MenuAction::Confirm), RunState::ShowingMainMenu(MainMenu::Settings));
    assert_eq!(handle_settings_menu(SettingsMenu::Back, None), RunState::ShowingSettingsMenu(SettingsMenu::Back));
    assert_eq!(
        handle_settings_menu(SettingsMenu::Back, Some(MenuAction::Next)),
        RunState::ShowingSettingsMenu(SettingsMenu::Back)
    );
}

fn map_state(seed: u64) -> GameRunState {
    GameRunState::ShowingMap(GameState::new(seed))
}

#[test]
fn pause_menu_order_and_clamps() {
    assert_eq!(PauseMenu::default(), PauseMenu::Continue);
    assert_eq!(PauseMenu::Continue.on_next(), PauseMenu::SaveAndQuit);
    assert_eq!(PauseMenu::SaveAndQuit.on_next(), PauseMenu::AbortRun);
    assert_eq!(PauseMenu::AbortRun.on_next(), PauseMenu::AbortRun);
    assert_eq!(PauseMenu::AbortRun.on_previous(), PauseMenu::SaveAndQuit);
    assert_eq!(PauseMenu::SaveAndQuit.on_previous(), PauseMenu::Continue);
    assert_eq!(PauseMenu::Continue.on_previous(), PauseMenu::Continue);
    let g = map_state(3);
    assert_eq!(
        PauseMenu::Continue.on_action(MenuAction::Next, g.clone()),
        (RunState::ShowingPauseMenu(g.clone(), PauseMenu::SaveAndQuit), SaveAction::Nothing)
    );
    assert_eq!(
        handle_pause_menu(PauseMenu::AbortRun, g.clone(), None),
        (RunState::ShowingPauseMenu(g, PauseMenu::AbortRun), SaveAction::Nothing)
    );
}

#[test]
fn pause_menu_confirm_outcomes() {
    let g = map_state(4);
    assert_eq!(
        PauseMenu::Continue.on_confirm(g.clone()),
        (RunState::PlayingGame(g.clone()), SaveAction::Nothing)
    );
    assert_eq!(
        PauseMenu::SaveAndQuit.on_confirm(g.clone()),
        (RunState::Initializing, SaveAction::Store(g.clone()))
    );
    assert_eq!(
        PauseMenu::AbortRun.on_confirm(g.clone()),
        (RunState::Initializing, SaveAction::Delete(g.clone()))
    );
    assert_eq!(delete_failed(g.clone()), RunState::ShowingPauseMenu(g.clone(), PauseMenu::AbortRun));
    assert_eq!(save_failed(g.clone()), RunState::ShowingPauseMenu(g, PauseMenu::SaveAndQuit));
}

#[test]
fn initializing_opens_main_menu() {
    let mut session = Session::new();
    assert!(!session.has_save_game());
    let (next, save) = tick(RunState::Initializing, &mut session, TickInput::SaveLookup(None));
    assert_eq!(next, RunState::ShowingMainMenu(MainMenu::Play));
    assert_eq!(save, SaveAction::Nothing);

    let (next, _) = tick(RunState::Initializing, &mut session, TickInput::SaveLookup(Some("{}".to_string())));
    assert_eq!(next, RunState::ShowingMainMenu(MainMenu::Continue));
    assert!(session.has_save_game());

    let mut other = Session::new();
    let (next, _) = tick(RunState::Initializing, &mut other, TickInput::NoInput);
    assert_eq!(next, RunState::Initializing);
}

#[test]
fn play_confirm_starts_fresh_game() {
    let mut session = Session::new();
    let (next, save) = tick(
        RunState::ShowingMainMenu(MainMenu::Play),
        &mut session,
        TickInput::MenuChoice(MenuAction::Confirm),
    );
    assert_eq!(next, RunState::StartingNewGame);
    assert_eq!(save, SaveAction::Nothing);
    let (waiting, _) = tick(next, &mut session, TickInput::NoInput);
    assert_eq!(waiting, RunState::StartingNewGame);
    let (next, save) = tick(waiting, &mut session, TickInput::NewGameSeed(77));
    assert_eq!(save, SaveAction::Nothing);
    assert_eq!(next, RunState::PlayingGame(GameRunState::ShowingMap(GameState::new(77))));
    match next {
        RunState::PlayingGame(GameRunState::ShowingMap(gs)) => {
            assert_eq!(gs.level.current, 0);
            assert!(gs.level.visited.is_empty());
            assert_eq!(gs.level.nodes[0], MapNode::Start);
        }
        other => panic!("unexpected state {:?}", other),
    }
}

#[test]
fn save_and_quit_stores_game_then_initializes() {
    let mut session = Session::new();
    let g = map_state(9);
    let (next, save) = tick(
        RunState::ShowingPauseMenu(g.clone(), PauseMenu::SaveAndQuit),
        &mut session,
        TickInput::MenuChoice(MenuAction::Confirm),
    );
    assert_eq!(next, RunState::Initializing);
    assert_eq!(save, SaveAction::Store(g));
}

#[test]
fn abort_run_deletes_save() {
    let mut session = Session::new();
    let (next, save) = tick(
        RunState::ShowingPauseMenu(map_state(2), PauseMenu::AbortRun),
        &mut session,
        TickInput::MenuChoice(MenuAction::Confirm),
    );
    assert_eq!(next, RunState::Initializing);
    assert_eq!(save, SaveAction::Delete(map_state(2)));
}

#[test]
fn corrupt_save_falls_back_to_initializing() {
    let mut session = Session { save_game: Some("not a save".to_string()) };
    let (next, save) = tick(RunState::LoadingSavedGame, &mut session, TickInput::Loaded(None));
    assert_eq!(next, RunState::Initializing);
    assert_eq!(save, SaveAction::Nothing);
    let (next, _) = tick(RunState::LoadingSavedGame, &mut session, TickInput::NoInput);
    assert_eq!(next, RunState::Initializing);
}

#[test]
fn loaded_save_resumes_game() {
    let mut session = Session::new();
    let g = map_state(5);
    let (next, _) = tick(RunState::LoadingSavedGame, &mut session, TickInput::Loaded(Some(g.clone())));
    assert_eq!(next, RunState::PlayingGame(g));
}

#[test]
fn non_adjacent_move_keeps_game() {
    let mut session = Session::new();
    let g = map_state(11);
    let n = match &g {
        GameRunState::ShowingMap(gs) => gs.level.nodes.len(),
        _ => unreachable!(),
    };
    let (next, save) = tick(
        RunState::PlayingGame(g.clone()),
        &mut session,
        TickInput::MapAction(GameMapAction::GoToNode(n - 1)),
    );
    assert_eq!(next, RunState::PlayingGame(g.clone()));
    assert_eq!(save, SaveAction::Nothing);
    assert_eq!(handle_game_map(g.clone(), Some(GameMapAction::GoToNode(0))), RunState::PlayingGame(g));
}

#[test]
fn adjacent_move_and_pause_through_controller() {
    let mut session = Session::new();
    let g = map_state(12);
    let target = match &g {
        GameRunState::ShowingMap(gs) => gs.level.edges[0][0],
        _ => unreachable!(),
    };
    let (next, _) = tick(RunState::PlayingGame(g), &mut session, TickInput::MapAction(GameMapAction::GoToNode(target)));
    let moved = match &next {
        RunState::PlayingGame(GameRunState::ShowingMap(gs)) => {
            assert_eq!(gs.level.current, target);
            assert_eq!(gs.level.visited, vec![0]);
            GameRunState::ShowingMap(gs.clone())
        }
        other => panic!("unexpected state {:?}", other),
    };
    let (paused, _) = tick(next, &mut session, TickInput::MapAction(GameMapAction::PauseGame));
    assert_eq!(paused, RunState::ShowingPauseMenu(moved.clone(), PauseMenu::Continue));
    let (resumed, _) = tick(paused, &mut session, TickInput::MenuChoice(MenuAction::Confirm));
    assert_eq!(resumed, RunState::PlayingGame(moved));
}

#[test]
fn quitting_and_encounter_stay() {
    let mut session = Session::new();
    let (next, _) = tick(RunState::Quitting, &mut session, TickInput::NoInput);
    assert!(next.is_quitting());
    let e = GameRunState::ShowingEncounter(GameState::new(1), game_core::EncounterState {});
    let (next, _) = tick(RunState::PlayingGame(e.clone()), &mut session, TickInput::MapAction(GameMapAction::PauseGame));
    assert_eq!(next, RunState::PlayingGame(e));
    assert!(!next.is_quitting());
}

#[test]
fn settings_confirm_through_controller() {
    let mut session = Session::new();
    let (next, _) = tick(
        RunState::ShowingMainMenu(MainMenu::Settings),
        &mut session,
        TickInput::MenuChoice(MenuAction::Confirm),
    );
    assert_eq!(next, RunState::ShowingSettingsMenu(SettingsMenu::Back));
    let (next, _) = tick(next, &mut session, TickInput::MenuChoice(MenuAction::Confirm));
    assert_eq!(next, RunState::ShowingMainMenu(MainMenu::Settings));
}

#[test]
fn save_with_broken_level_falls_back_to_initializing() {
    let mut session = Session::new();
    let mut gs = GameState::new(6);
    gs.level.current = gs.level.nodes.len();
    let broken = GameRunState::ShowingMap(gs);
    assert!(!is_resumable(&broken));
    let (next, _) = tick(RunState::LoadingSavedGame, &mut session, TickInput::Loaded(Some(broken)));
    assert_eq!(next, RunState::Initializing);
    assert!(is_resumable(&map_state(6)));
}
