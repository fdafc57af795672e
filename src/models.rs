//! Game data: rooms, players, creatures and their abilities.
pub mod ability;
pub mod creature;
pub mod game;
pub mod player;
pub mod room;

use vstd::prelude::*;

verus! {

/// A game as the clients see it.
pub struct GameState {
    pub game_id: String,
    pub phase: GamePhase,
    pub current_turn: Option<String>,
    pub players: Vec<String>,
    pub entities: Vec<Entity>,
}

/// The phases a game goes through, in order.
#[derive(Debug, Clone, Copy, PartialEq, Eq, Structural)]
pub enum GamePhase {
    Waiting,
    Creation,
    Battle,
    Finish,
}

/// Something on the board.
pub struct Entity {
    pub id: String,
    pub owner: String,
    pub name: String,
    pub health: u32,
}

/// Reply to the creation of a room.
pub struct RoomCreated {
    pub game_id: String,
    pub token: String,
}

/// Reply to joining a room.
pub struct RoomJoined {
    pub token: String,
}

} // verus!
