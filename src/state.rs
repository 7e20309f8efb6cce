//! The turn cycle and the session-level states.

use vstd::prelude::*;

verus! {

/// Whose turn it is.
#[derive(PartialEq, Eq, Structural, Clone, Copy, Debug)]
pub enum TurnPhase {
    PreRun,
    AwaitingInput,
    PlayerTurn,
    MonsterTurn,
}

/// The cycle `PreRun -> AwaitingInput -> PlayerTurn -> MonsterTurn ->
/// AwaitingInput`, where input is awaited until some is accepted. A dead
/// player sends the cycle back to its start.
pub open spec fn phase_after(phase: TurnPhase, input_accepted: bool, player_dead: bool) -> TurnPhase {
    if player_dead {
        TurnPhase::PreRun
    } else {
        match phase {
            TurnPhase::PreRun => TurnPhase::AwaitingInput,
            TurnPhase::AwaitingInput => if input_accepted {
                TurnPhase::PlayerTurn
            } else {
                TurnPhase::AwaitingInput
            },
            TurnPhase::PlayerTurn => TurnPhase::MonsterTurn,
            TurnPhase::MonsterTurn => TurnPhase::AwaitingInput,
        }
    }
}

pub fn next_phase(phase: TurnPhase, input_accepted: bool, player_dead: bool) -> (r: TurnPhase)
    ensures
        r == phase_after(phase, input_accepted, player_dead),
{
    if player_dead {
        return TurnPhase::PreRun;
    }
    match phase {
        TurnPhase::PreRun => TurnPhase::AwaitingInput,
        TurnPhase::AwaitingInput => if input_accepted {
            TurnPhase::PlayerTurn
        } else {
            TurnPhase::AwaitingInput
        },
        TurnPhase::PlayerTurn => TurnPhase::MonsterTurn,
        TurnPhase::MonsterTurn => TurnPhase::AwaitingInput,
    }
}

#[derive(PartialEq, Eq, Structural, Clone, Copy, Debug)]
pub enum AppState {
    Loading,
    InGame,
    Menu,
}

#[derive(PartialEq, Eq, Structural, Clone, Copy, Debug)]
pub enum GameState {
    Inactive,
    Playing,
    Pause,
    ToolTip,
    Tab,
}

/// The states that the session moves to at the next frame, when set.
#[derive(PartialEq, Eq, Structural, Clone, Copy, Debug)]
pub struct AppStateManager {
    pub app_next_state: Option<AppState>,
    pub game_next_state: Option<GameState>,
}

impl AppStateManager {
    pub fn new() -> (r: AppStateManager)
        ensures
            r.app_next_state is None,
            r.game_next_state is None,
    {
        AppStateManager { app_next_state: None, game_next_state: None }
    }

    pub fn start_game(&mut self)
        ensures
            final(self).app_next_state == Some(AppState::InGame),
            final(self).game_next_state == Some(GameState::Playing),
    {
        self.app_next_state = Some(AppState::InGame);
        self.game_next_state = Some(GameState::Playing);
    }

    pub fn end_game(&mut self)
        ensures
            final(self).app_next_state == Some(AppState::Menu),
            final(self).game_next_state == Some(GameState::Inactive),
    {
        self.app_next_state = Some(AppState::Menu);
        self.game_next_state = Some(GameState::Inactive);
    }

    pub fn start_tootip(&mut self)
        ensures
            final(self).app_next_state == old(self).app_next_state,
            final(self).game_next_state == Some(GameState::ToolTip),
    {
        self.game_next_state = Some(GameState::ToolTip);
    }

    pub fn start_playing(&mut self)
        ensures
            final(self).app_next_state == old(self).app_next_state,
            final(self).game_next_state == Some(GameState::Playing),
    {
        self.game_next_state = Some(GameState::Playing);
    }

    pub fn start_tab(&mut self)
        ensures
            final(self).app_next_state == old(self).app_next_state,
            final(self).game_next_state == Some(GameState::Tab),
    {
        self.game_next_state = Some(GameState::Tab);
    }
}

} // verus!
