use vstd::prelude::*;

use super::ids::{CharacterId, FactKey, FactKeyView, QuestKey, QuestKeyView, RoomId};
use super::quest::{QuestProgress, QuestProgressView};
use super::table::{KeySet, Table};

verus! {

/// The view of a [`Character`].
pub struct CharacterView {
    pub id: Seq<char>,
    pub name: Seq<char>,
    pub current_room: Seq<char>,
    pub facts: Seq<FactKeyView>,
    pub quests: Seq<(QuestKeyView, QuestProgressView)>,
}

/// The player's character: where it is, what it knows, and the quests it has taken on.
#[derive(Debug)]
pub struct Character {
    pub id: CharacterId,
    pub name: String,
    pub current_room: RoomId,
    pub facts: KeySet<FactKey>,
    pub quests: Table<QuestKey, QuestProgress>,
}

impl View for Character {
    type V = CharacterView;

    open spec fn view(&self) -> CharacterView {
        CharacterView {
            id: self.id@,
            name: self.name@,
            current_room: self.current_room@,
            facts: self.facts@,
            quests: self.quests@,
        }
    }
}

} // verus!
