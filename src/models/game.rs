//! Game state and the requests about it.
use vstd::prelude::*;

verus! {

/// A game as the clients see it.
pub struct GameState {
    pub game_id: String,
    pub phase: GamePhase,
    pub current_turn: Option<String>,
    pub players: Vec<String>,
    pub entities: Vec<Entity>,
}

/// The phases a game goes through, in order.
#[derive(Debug, Clone, Copy, PartialEq, Eq, Structural)]
pub enum GamePhase {
    Waiting,
    Creation,
    Battle,
    Finish,
}

/// Something on the board.
pub struct Entity {
    pub id: String,
    pub owner: String,
    pub name: String,
    pub health: u32,
}

/// Asks whether a game changed after `timestamp`.
pub struct PollRequest {
    pub timestamp: i64,
}

/// Carries the name of a player.
pub struct NameRequest {
    pub name: String,
}

} // verus!
