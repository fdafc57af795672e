//! Players and what they own.
use crate::models::creature::Creature;
use vstd::prelude::*;

verus! {

/// An item a player holds.
pub struct Item {}

/// A player with their creatures and items.
pub struct Player {
    pub creatures: Vec<Creature>,
    pub items: Vec<Item>,
    pub name: String,
}

impl Player {
    /// A player with the given name, creatures and items.
    pub fn new(name: String, creatures: Vec<Creature>, items: Vec<Item>) -> (r: Player)
        ensures
            r.name == name,
            r.creatures == creatures,
            r.items == items,
    {
        Player { creatures, items, name }
    }
}

} // verus!
