use vstd::prelude::*;

use super::direction::Direction;
use super::exit::{views, Exit, ExitView};
use super::ids::{FeatureId, NpcId, RoomId};
use super::table::Table;

verus! {

/// The view of a [`Room`].
pub struct RoomView {
    pub id: Seq<char>,
    pub name: Seq<char>,
    pub description: Seq<char>,
    pub features: Seq<Seq<char>>,
    pub npcs: Seq<Seq<char>>,
    pub exits: Seq<(Direction, ExitView)>,
}

/// A place a character can be in.
#[derive(Debug)]
pub struct Room {
    pub id: RoomId,
    pub name: String,
    pub description: String,
    pub features: Vec<FeatureId>,
    pub npcs: Vec<NpcId>,
    pub exits: Table<Direction, Exit>,
}

impl View for Room {
    type V = RoomView;

    open spec fn view(&self) -> RoomView {
        RoomView {
            id: self.id@,
            name: self.name@,
            description: self.description@,
            features: views(self.features@),
            npcs: views(self.npcs@),
            exits: self.exits@,
        }
    }
}

} // verus!
