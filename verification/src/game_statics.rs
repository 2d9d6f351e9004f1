//! The game-wide states, transitions, input actions and the messages that
//! the parts of the game send each other.
use vstd::prelude::*;

verus! {

/// Frames of the countdown before a match starts.
pub const GAME_READY_COUNT: i32 = 120;

/// The screen the game shows.
#[derive(PartialEq, Eq, Structural, Clone, Copy, Debug, Hash)]
pub enum GameState {
    Nothing,
    Init,
    Title,
    Connecting,
    Game1P,
    Game2PLocal,
    Game2POnline,
}

impl Default for GameState {
    fn default() -> (s: GameState)
        ensures
            s == GameState::Nothing,
    {
        GameState::Nothing
    }
}

/// A transition of a match, announced to both fields.
#[derive(PartialEq, Eq, Structural, Clone, Copy, Debug)]
pub enum Transition {
    Nothing,
    Start,
    Finish,
}

impl Default for Transition {
    fn default() -> (t: Transition)
        ensures
            t == Transition::Nothing,
    {
        Transition::Nothing
    }
}

/// What a player can do.
#[derive(PartialEq, Eq, Structural, Clone, Copy, Debug, Hash)]
pub enum Action {
    Up,
    Down,
    Left,
    Right,
    RotR,
    RotL,
}

/// Marks a one-player game.
#[derive(Clone, Copy, Debug, Default)]
pub struct GameMode1P;

/// Marks a two-player game on one machine.
#[derive(Clone, Copy, Debug, Default)]
pub struct GameMode2PLocal;

/// Marks a two-player game over the network.
#[derive(Clone, Copy, Debug, Default)]
pub struct GameMode2POnline;

/// Marks what belongs to the first player.
#[derive(Clone, Copy, Debug, Default)]
pub struct Player1;

/// Marks what belongs to the second player.
#[derive(Clone, Copy, Debug, Default)]
pub struct Player2;

/// Marks what survives a return to the title screen.
#[derive(Clone, Copy, Debug, Default)]
pub struct Permanent;

/// A match starts or finishes; `player_id` is the player that lost, or -1.
#[derive(Clone, Copy, Debug)]
pub struct TransitionEvent {
    pub player_id: i32,
    pub transition: Transition,
}

/// The player with this id has topped out.
#[derive(Clone, Copy, Debug)]
pub struct Death(pub i32);

/// Garbage blocks that player `player_id` sends its opponent: a frame of 0
/// announces `num` more blocks, any other frame confirms the announced ones
/// together with `num` more.
#[derive(Clone, Copy, Debug)]
pub struct Ojama {
    pub player_id: i32,
    pub num: i32,
    pub frame: i32,
}

/// Restart both fields, dealing pairs from the given seed.
#[derive(Clone, Copy, Debug)]
pub struct Reset(pub u64);

} // verus!
