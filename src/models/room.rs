//! Replies about rooms.
use vstd::prelude::*;

verus! {

/// Reply to the creation of a game: its id and the owner's token.
pub struct Created {
    pub game_id: i64,
    pub token: i64,
}

/// Reply to joining a game: the new player's token.
pub struct Joined {
    pub token: i64,
}

} // verus!
