//! Phases of one play-through and of the planning editor.

use vstd::prelude::*;

verus! {

/// Top-level phase of the game.  The simulation core only drives the
/// `Planning` / `Running` / `Results` / `GameCompleted` transitions; the
/// earlier phases belong to the presentation layer's screen flow.
#[derive(Debug, Clone, Copy, PartialEq, Eq, Structural)]
pub enum GameState {
    Loading,
    Intro,
    LevelSelect,
    Planning,
    Running,
    Results,
    GameCompleted,
}

/// Sub-mode of the planning phase: upgrading servers, or selecting the
/// output connections of a proxy server.
#[derive(Debug, Clone, Copy, PartialEq, Eq, Structural)]
pub enum EditMode {
    Upgrade,
    Outputs,
}

} // verus!
