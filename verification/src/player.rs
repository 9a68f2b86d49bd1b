//! A player record kept apart from the entity store: the connection it
//! is reached through, its name and its place on the map.

use vstd::prelude::*;

use crate::dice::{draw, drawn_in, Draw};

verus! {

/// A connected player; `id` names the connection (and so its socket).
pub struct Player {
    pub id: u128,
    pub name: String,
    pub location: (usize, usize),
}

impl Player {
    /// A player placed at random in one of the rooms whose coordinates
    /// are both below 9: column and row are each drawn from 0 to 8.
    pub fn new(id: u128, name: String) -> (p: Player)
        ensures
            p.id == id,
            p.name@ == name@,
            p.location.0 < 9,
            p.location.1 < 9,
            exists|dx: Draw, dy: Draw|
                #![trigger drawn_in(dx, 0, 9), drawn_in(dy, 0, 9)]
                drawn_in(dx, 0, 9) && drawn_in(dy, 0, 9) && p.location == (dx.value(), dy.value()),
    {
        let dx = draw(0, 9);
        let dy = draw(0, 9);
        Player { id, name, location: (dx.value(), dy.value()) }
    }

    /// Renames the player.
    #[allow(non_snake_case)]
    pub fn setName(&mut self, name: String)
        ensures
            final(self).name@ == name@,
            final(self).id == old(self).id,
            final(self).location == old(self).location,
    {
        self.name = name;
    }
}

} // verus!
