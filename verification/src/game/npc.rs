use vstd::prelude::*;

use super::exit::views;
use super::ids::{FactId, NpcId, NpcTopicId, QuestId};

verus! {

/// The view of an [`NpcTopic`].
pub struct NpcTopicView {
    pub id: Seq<char>,
    pub name: Seq<char>,
    pub response: Seq<char>,
    pub requires_facts: Seq<Seq<char>>,
    pub excludes_facts: Seq<Seq<char>>,
    pub grants_facts: Seq<Seq<char>>,
    pub starts_quests: Seq<Seq<char>>,
}

/// Something a non-player character can be asked about.
#[derive(Debug, Clone)]
pub struct NpcTopic {
    pub id: NpcTopicId,
    pub name: String,
    pub response: String,
    pub requires_facts: Vec<FactId>,
    pub excludes_facts: Vec<FactId>,
    pub grants_facts: Vec<FactId>,
    pub starts_quests: Vec<QuestId>,
}

impl View for NpcTopic {
    type V = NpcTopicView;

    open spec fn view(&self) -> NpcTopicView {
        NpcTopicView {
            id: self.id@,
            name: self.name@,
            response: self.response@,
            requires_facts: views(self.requires_facts@),
            excludes_facts: views(self.excludes_facts@),
            grants_facts: views(self.grants_facts@),
            starts_quests: views(self.starts_quests@),
        }
    }
}

/// The view of an [`Npc`].
pub struct NpcView {
    pub id: Seq<char>,
    pub name: Seq<char>,
    pub room_description: Seq<char>,
    pub description: Seq<char>,
    pub greeting: Seq<char>,
    pub topics: Seq<NpcTopicView>,
}

/// A non-player character.
#[derive(Debug, Clone)]
pub struct Npc {
    pub id: NpcId,
    pub name: String,
    pub room_description: String,
    pub description: String,
    pub greeting: String,
    pub topics: Vec<NpcTopic>,
}

impl View for Npc {
    type V = NpcView;

    open spec fn view(&self) -> NpcView {
        NpcView {
            id: self.id@,
            name: self.name@,
            room_description: self.room_description@,
            description: self.description@,
            greeting: self.greeting@,
            topics: views(self.topics@),
        }
    }
}

} // verus!
