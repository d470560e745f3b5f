use vstd::prelude::*;

verus! {

/// A world as its author writes it down, before it is checked and turned into a
/// [`crate::game::world::World`].
#[derive(Debug, Clone)]
pub struct WorldDefinition {
    pub id: String,
    pub name: String,
    pub starting_room: String,
    pub items: Vec<ItemDefinition>,
    pub features: Vec<FeatureDefinition>,
    pub npcs: Vec<NpcDefinition>,
    pub facts: Vec<FactDefinition>,
    pub quests: Vec<QuestDefinition>,
    pub rooms: Vec<RoomDefinition>,
}

/// A room as written down. Its exits are the direction words with where they lead, in the
/// order in which they are written.
#[derive(Debug, Clone)]
pub struct RoomDefinition {
    pub id: String,
    pub name: String,
    pub description: String,
    pub items: Vec<String>,
    pub features: Vec<String>,
    pub npcs: Vec<String>,
    pub exits: Vec<(String, ExitDefinition)>,
}

/// An exit as written down: either just the room it leads to, or that room with what it
/// takes to pass and what one is told when one cannot.
#[derive(Debug, Clone)]
pub enum ExitDefinition {
    Simple(String),
    Conditional {
        destination: String,
        requires_item: Option<String>,
        requires_fact: Option<String>,
        failure_message: String,
    },
}

/// The room an exit leads to.
pub open spec fn exit_destination(exit: ExitDefinition) -> Seq<char> {
    match exit {
        ExitDefinition::Simple(destination) => destination@,
        ExitDefinition::Conditional { destination, .. } => destination@,
    }
}

impl ExitDefinition {
    /// The identifier of the room the exit leads to.
    pub fn destination(&self) -> (destination: &str)
        ensures
            destination@ == exit_destination(*self),
    {
        match self {
            ExitDefinition::Simple(destination) => destination.as_str(),
            ExitDefinition::Conditional { destination, .. } => destination.as_str(),
        }
    }
}

/// An item as written down.
#[derive(Debug, Clone)]
pub struct ItemDefinition {
    pub id: String,
    pub name: String,
    pub description: String,
}

/// A room feature as written down, with how items may be placed on it, if they may.
#[derive(Debug, Clone)]
pub struct FeatureDefinition {
    pub id: String,
    pub name: String,
    pub room_description: String,
    pub description: String,
    pub placement: Option<FeaturePlacementDefinition>,
}

/// How items may be placed on a feature.
#[derive(Debug, Clone)]
pub struct FeaturePlacementDefinition {
    pub relation: PlacementRelationDefinition,
    pub capacity: Option<usize>,
    pub accepts_items: Vec<String>,
    pub rejection_message: Option<String>,
    pub full_message: Option<String>,
}

/// How an item relates to the feature it is placed at.
#[derive(Debug, Clone, Copy, PartialEq, Eq)]
pub enum PlacementRelationDefinition {
    On,
}

/// A non-player character as written down.
#[derive(Debug, Clone)]
pub struct NpcDefinition {
    pub id: String,
    pub name: String,
    pub room_description: String,
    pub description: String,
    pub greeting: String,
    pub topics: Vec<NpcTopicDefinition>,
}

/// A fact the world declares.
#[derive(Debug, Clone)]
pub struct FactDefinition {
    pub id: String,
}

/// A quest as written down.
#[derive(Debug, Clone)]
pub struct QuestDefinition {
    pub id: String,
    pub name: String,
    pub description: String,
    pub starting_step: String,
    pub steps: Vec<QuestStepDefinition>,
}

/// A quest step as written down.
#[derive(Debug, Clone)]
pub struct QuestStepDefinition {
    pub id: String,
    pub description: String,
    pub objective: QuestObjectiveDefinition,
    pub next_step: Option<String>,
}

/// What a quest step asks of the player, as written down.
#[derive(Debug, Clone)]
pub enum QuestObjectiveDefinition {
    ReachRoom { room: String },
    PossessItem { item: String },
    AskTopic { npc: String, topic: String },
}

/// A conversation topic as written down.
#[derive(Debug, Clone)]
pub struct NpcTopicDefinition {
    pub id: String,
    pub name: String,
    pub response: String,
    pub requires_facts: Vec<String>,
    pub excludes_facts: Vec<String>,
    pub grants_facts: Vec<String>,
    pub starts_quests: Vec<String>,
}

} // verus!
