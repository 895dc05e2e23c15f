//! Application modes and the in-game state machine driven by Tab, Escape
//! and the pause menu.
use vstd::prelude::*;

verus! {

/// Top-level mode: the start menu, a running world, or the level editor.
#[derive(PartialEq, Eq, Structural, Clone, Copy, Debug, Hash)]
pub enum AppMode {
    Menu,
    Run,
    Edit,
}

impl Default for AppMode {
    fn default() -> (m: Self)
        ensures
            m == AppMode::Menu,
    {
        AppMode::Menu
    }
}

/// Sub-state of `AppMode::Run`.
#[derive(PartialEq, Eq, Structural, Clone, Copy, Debug, Hash)]
pub enum GameState {
    Loading,
    Running,
    Editing,
    Paused,
    Saving,
}

impl Default for GameState {
    fn default() -> (s: Self)
        ensures
            s == GameState::Loading,
    {
        GameState::Loading
    }
}

/// True outside the start menu.
pub fn not_menu(mode: AppMode) -> (b: bool)
    ensures
        b == (mode != AppMode::Menu),
{
    mode != AppMode::Menu
}

/// Where Tab leads: it flips between running and editing, and leaves the
/// other states alone.
pub open spec fn tab_target(s: GameState) -> GameState {
    match s {
        GameState::Running => GameState::Editing,
        GameState::Editing => GameState::Running,
        other => other,
    }
}

/// Where Escape leads: it opens the pause menu from running or editing,
/// resumes from the pause menu, and leaves loading and saving alone.
pub open spec fn escape_target(s: GameState) -> GameState {
    match s {
        GameState::Paused => GameState::Running,
        GameState::Running | GameState::Editing => GameState::Paused,
        other => other,
    }
}

/// The state requested for the next frame given the keys pressed this frame.
/// Both keys are read against the current state; Escape's request is written
/// last and so wins when both are pressed. `None` when neither is pressed.
pub fn toggle_mode(mode: GameState, tab: bool, escape: bool) -> (next: Option<GameState>)
    ensures
        escape ==> next == Some(escape_target(mode)),
        !escape && tab ==> next == Some(tab_target(mode)),
        !escape && !tab ==> next == None::<GameState>,
{
    let mut next: Option<GameState> = None;
    if tab {
        next = Some(
            match mode {
                GameState::Running => GameState::Editing,
                GameState::Editing => GameState::Running,
                keep => keep,
            },
        );
    }
    if escape {
        next = Some(
            match mode {
                GameState::Paused => GameState::Running,
                GameState::Running | GameState::Editing => GameState::Paused,
                keep => keep,
            },
        );
    }
    next
}

/// The requests made by the pause menu's buttons in one frame: Resume asks
/// for running, Save for saving (written after Resume, so it wins), and Main
/// Menu leaves the running world.
pub fn pause_menu_requests(resume: bool, save: bool, main_menu: bool) -> (req: (
    Option<GameState>,
    Option<AppMode>,
))
    ensures
        req.0 == (if save {
            Some(GameState::Saving)
        } else if resume {
            Some(GameState::Running)
        } else {
            None::<GameState>
        }),
        req.1 == (if main_menu {
            Some(AppMode::Menu)
        } else {
            None::<AppMode>
        }),
{
    let mut next: Option<GameState> = None;
    let mut app_next: Option<AppMode> = None;
    if resume {
        next = Some(GameState::Running);
    }
    if save {
        next = Some(GameState::Saving);
    }
    if main_menu {
        app_next = Some(AppMode::Menu);
    }
    (next, app_next)
}

/// Tab twice is no change.
pub proof fn law_tab_is_an_involution(s: GameState)
    ensures
        tab_target(tab_target(s)) == s,
{
}

/// Escape twice from running (or from the pause menu) comes back to where it started.
pub proof fn law_escape_round_trip(s: GameState)
    requires
        s == GameState::Running || s == GameState::Paused,
    ensures
        escape_target(escape_target(s)) == s,
{
}

/// Keys never interrupt loading or saving: whatever is pressed, the state
/// requested is the current one.
pub proof fn law_keys_ignored_mid_load_or_save(s: GameState, tab: bool, escape: bool)
    requires
        s == GameState::Loading || s == GameState::Saving,
    ensures
        tab_target(s) == s,
        escape_target(s) == s,
{
}

/// Escape from either play state always lands in the pause menu, and
/// Escape from the pause menu always resumes running.
pub proof fn law_escape_pauses_and_resumes(s: GameState)
    ensures
        (s == GameState::Running || s == GameState::Editing) ==> escape_target(s)
            == GameState::Paused,
        s == GameState::Paused ==> escape_target(s) == GameState::Running,
{
}

/// Tab only switches between running and editing: it never opens or closes
/// the pause menu, and it leaves every other state as it is.
pub proof fn law_tab_switches_running_and_editing(s: GameState)
    ensures
        (tab_target(s) == GameState::Editing) <==> (s == GameState::Running),
        (tab_target(s) == GameState::Running) <==> (s == GameState::Editing),
        s != GameState::Running && s != GameState::Editing ==> tab_target(s) == s,
        (escape_target(s) == GameState::Paused) <==> (s == GameState::Running || s
            == GameState::Editing),
{
}

} // verus!
