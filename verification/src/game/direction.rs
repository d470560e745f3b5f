use vstd::prelude::*;

use super::ids::Key;
use crate::text::str_eq;

verus! {

/// One of the four compass directions an exit can lead in.
#[derive(Debug, Clone, Copy, PartialEq, Eq, Hash)]
pub enum Direction {
    North,
    South,
    East,
    West,
}

impl View for Direction {
    type V = Direction;

    open spec fn view(&self) -> Direction {
        *self
    }
}

impl Key for Direction {
    fn same_key(&self, other: &Self) -> (same: bool) {
        match (self, other) {
            (Direction::North, Direction::North) => true,
            (Direction::South, Direction::South) => true,
            (Direction::East, Direction::East) => true,
            (Direction::West, Direction::West) => true,
            _ => false,
        }
    }
}

/// The lower-case word that names a direction.
pub open spec fn direction_word(direction: Direction) -> Seq<char> {
    match direction {
        Direction::North => "north"@,
        Direction::South => "south"@,
        Direction::East => "east"@,
        Direction::West => "west"@,
    }
}

/// The direction that a word names: one of the four lower-case direction words.
pub open spec fn direction_named(word: Seq<char>) -> Option<Direction> {
    if word == "north"@ {
        Some(Direction::North)
    } else if word == "south"@ {
        Some(Direction::South)
    } else if word == "east"@ {
        Some(Direction::East)
    } else if word == "west"@ {
        Some(Direction::West)
    } else {
        None
    }
}

impl Direction {
    /// Reads a direction from its lower-case name; any other text gives `None`.
    pub fn from_str(value: &str) -> (result: Option<Direction>)
        ensures
            result == direction_named(value@),
    {
        if str_eq(value, "north") {
            Some(Direction::North)
        } else if str_eq(value, "south") {
            Some(Direction::South)
        } else if str_eq(value, "east") {
            Some(Direction::East)
        } else if str_eq(value, "west") {
            Some(Direction::West)
        } else {
            None
        }
    }
}

/// The word for a direction, as a static text.
pub fn direction_name(direction: &Direction) -> (name: &'static str)
    ensures
        name@ == direction_word(*direction),
{
    match direction {
        Direction::North => "north",
        Direction::South => "south",
        Direction::East => "east",
        Direction::West => "west",
    }
}

/// Each direction is named by its own word and by no other: reading a direction's word gives
/// that direction back, and a word that reads as a direction is that direction's word.
pub proof fn law_direction_words_name_their_directions(d: Direction, word: Seq<char>)
    ensures
        direction_named(direction_word(d)) == Some(d),
        direction_named(word) == Some(d) ==> word == direction_word(d),
{
    reveal_strlit("north");
    reveal_strlit("south");
    reveal_strlit("east");
    reveal_strlit("west");
    assert("north"@[0] != "south"@[0] && "north"@[0] != "east"@[0] && "north"@[0] != "west"@[0]);
    assert("south"@[0] != "east"@[0] && "south"@[0] != "west"@[0] && "east"@[0] != "west"@[0]);
}

} // verus!
