use vstd::prelude::*;

verus! {

/// Width, in columns, at which text sent to a terminal is wrapped.
pub const TERMWIDTH: usize = 80;

/// The lowest row of the map.
pub const MAP_Y_MIN: usize = 0;

/// The highest row of the map.
pub const MAP_Y_MAX: usize = 9;

/// The westmost column of the map.
pub const MAP_X_MIN: usize = 0;

/// The eastmost column of the map.
pub const MAP_X_MAX: usize = 9;

/// A compass direction in which an entity can travel.
#[derive(Clone, Copy, Debug, PartialEq, Eq, Structural)]
pub enum Direction {
    N,
    S,
    E,
    W,
}

/// The direction that a command word names; any word other than the four
/// single letters stands for north.
pub open spec fn spec_direction_from(word: Seq<char>) -> Direction {
    if word == "s"@ {
        Direction::S
    } else if word == "e"@ {
        Direction::E
    } else if word == "w"@ {
        Direction::W
    } else {
        Direction::N
    }
}

impl Direction {
    /// Reads a direction from a command word.
    pub fn from(dir: String) -> (d: Direction)
        ensures
            d == spec_direction_from(dir@),
    {
        if crate::text::same_text(dir.as_str(), "s") {
            Direction::S
        } else if crate::text::same_text(dir.as_str(), "e") {
            Direction::E
        } else if crate::text::same_text(dir.as_str(), "w") {
            Direction::W
        } else {
            Direction::N
        }
    }
}

} // verus!

verus! {

/// `Direction::from` reads each of the four letters as its direction.
pub proof fn direction_letters()
    ensures
        spec_direction_from("n"@) == Direction::N,
        spec_direction_from("s"@) == Direction::S,
        spec_direction_from("e"@) == Direction::E,
        spec_direction_from("w"@) == Direction::W,
{
    reveal_strlit("n");
    reveal_strlit("s");
    reveal_strlit("e");
    reveal_strlit("w");
    assert("n"@[0] == 'n' && "s"@[0] == 's' && "e"@[0] == 'e' && "w"@[0] == 'w');
    assert("n"@ != "s"@ && "n"@ != "e"@ && "n"@ != "w"@);
    assert("e"@ != "s"@ && "w"@ != "s"@ && "w"@ != "e"@);
}

} // verus!
