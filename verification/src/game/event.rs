use vstd::prelude::*;

use super::command::TargetKind;
use super::direction::Direction;
use super::exit::views;
use super::ids::{
    CharacterId, FactKey, FactKeyView, FeatureId, ItemId, NpcId, NpcTopicId, QuestKey,
    QuestKeyView, RoomId,
};

verus! {

/// Why an item could not be taken.
#[derive(Debug, Clone, Copy, PartialEq, Eq)]
pub enum TakeFailureReason {
    NotFound,
    Ambiguous { match_count: usize },
    OrdinalOutOfRange { requested: usize, available: usize },
}

impl View for TakeFailureReason {
    type V = TakeFailureReason;

    open spec fn view(&self) -> TakeFailureReason {
        *self
    }
}

/// Why an item could not be dropped.
#[derive(Debug, Clone, Copy, PartialEq, Eq)]
pub enum DropFailureReason {
    NotFound,
    Ambiguous { match_count: usize },
    OrdinalOutOfRange { requested: usize, available: usize },
}

impl View for DropFailureReason {
    type V = DropFailureReason;

    open spec fn view(&self) -> DropFailureReason {
        *self
    }
}

/// The view of an [`ExamineFailureReason`].
pub enum ExamineFailureReasonView {
    NotFound,
    Ambiguous { kinds: Seq<TargetKind> },
    OrdinalOutOfRange { requested: usize, available: usize },
}

/// Why nothing could be examined.
#[derive(Debug, Clone, PartialEq, Eq)]
pub enum ExamineFailureReason {
    NotFound,
    Ambiguous { kinds: Vec<TargetKind> },
    OrdinalOutOfRange { requested: usize, available: usize },
}

impl View for ExamineFailureReason {
    type V = ExamineFailureReasonView;

    open spec fn view(&self) -> ExamineFailureReasonView {
        match self {
            ExamineFailureReason::NotFound => ExamineFailureReasonView::NotFound,
            ExamineFailureReason::Ambiguous { kinds } => ExamineFailureReasonView::Ambiguous {
                kinds: kinds@,
            },
            ExamineFailureReason::OrdinalOutOfRange {
                requested,
                available,
            } => ExamineFailureReasonView::OrdinalOutOfRange {
                requested: *requested,
                available: *available,
            },
        }
    }
}

/// Why no one could be talked to.
#[derive(Debug, Clone, Copy, PartialEq, Eq)]
pub enum TalkFailureReason {
    NotFound,
    Ambiguous { match_count: usize },
    OrdinalOutOfRange { requested: usize, available: usize },
}

impl View for TalkFailureReason {
    type V = TalkFailureReason;

    open spec fn view(&self) -> TalkFailureReason {
        *self
    }
}

/// The view of an [`AskFailureReason`].
pub enum AskFailureReasonView {
    NpcNotFound,
    NpcAmbiguous { match_count: usize },
    NpcOrdinalOutOfRange { requested: usize, available: usize },
    TopicNotFound { npc_name: Seq<char> },
}

/// Why a question got no answer.
#[derive(Debug, Clone, PartialEq, Eq)]
pub enum AskFailureReason {
    NpcNotFound,
    NpcAmbiguous { match_count: usize },
    NpcOrdinalOutOfRange { requested: usize, available: usize },
    TopicNotFound { npc_name: String },
}

impl View for AskFailureReason {
    type V = AskFailureReasonView;

    open spec fn view(&self) -> AskFailureReasonView {
        match self {
            AskFailureReason::NpcNotFound => AskFailureReasonView::NpcNotFound,
            AskFailureReason::NpcAmbiguous { match_count } => AskFailureReasonView::NpcAmbiguous {
                match_count: *match_count,
            },
            AskFailureReason::NpcOrdinalOutOfRange {
                requested,
                available,
            } => AskFailureReasonView::NpcOrdinalOutOfRange {
                requested: *requested,
                available: *available,
            },
            AskFailureReason::TopicNotFound { npc_name } => AskFailureReasonView::TopicNotFound {
                npc_name: npc_name@,
            },
        }
    }
}

/// The view of a [`PutOnFailureReason`].
pub enum PutOnFailureReasonView {
    ItemNotFound,
    ItemAmbiguous { match_count: usize },
    ItemOrdinalOutOfRange { requested: usize, available: usize },
    FeatureNotFound,
    FeatureAmbiguous { match_count: usize },
    FeatureOrdinalOutOfRange { requested: usize, available: usize },
    NotSupporter { feature_name: Seq<char> },
    Rejected { message: Seq<char> },
    Full { message: Seq<char> },
}

/// Why an item could not be put on a feature.
#[derive(Debug, Clone, PartialEq, Eq)]
pub enum PutOnFailureReason {
    ItemNotFound,
    ItemAmbiguous { match_count: usize },
    ItemOrdinalOutOfRange { requested: usize, available: usize },
    FeatureNotFound,
    FeatureAmbiguous { match_count: usize },
    FeatureOrdinalOutOfRange { requested: usize, available: usize },
    NotSupporter { feature_name: String },
    Rejected { message: String },
    Full { message: String },
}

impl View for PutOnFailureReason {
    type V = PutOnFailureReasonView;

    open spec fn view(&self) -> PutOnFailureReasonView {
        match self {
            PutOnFailureReason::ItemNotFound => PutOnFailureReasonView::ItemNotFound,
            PutOnFailureReason::ItemAmbiguous { match_count } =>
                PutOnFailureReasonView::ItemAmbiguous { match_count: *match_count },
            PutOnFailureReason::ItemOrdinalOutOfRange { requested, available } =>
                PutOnFailureReasonView::ItemOrdinalOutOfRange {
                    requested: *requested,
                    available: *available,
                },
            PutOnFailureReason::FeatureNotFound => PutOnFailureReasonView::FeatureNotFound,
            PutOnFailureReason::FeatureAmbiguous { match_count } =>
                PutOnFailureReasonView::FeatureAmbiguous { match_count: *match_count },
            PutOnFailureReason::FeatureOrdinalOutOfRange { requested, available } =>
                PutOnFailureReasonView::FeatureOrdinalOutOfRange {
                    requested: *requested,
                    available: *available,
                },
            PutOnFailureReason::NotSupporter { feature_name } =>
                PutOnFailureReasonView::NotSupporter { feature_name: feature_name@ },
            PutOnFailureReason::Rejected { message } => PutOnFailureReasonView::Rejected {
                message: message@,
            },
            PutOnFailureReason::Full { message } => PutOnFailureReasonView::Full {
                message: message@,
            },
        }
    }
}

/// The view of an [`ObservedItem`].
pub struct ObservedItemView {
    pub id: Seq<char>,
    pub name: Seq<char>,
}

/// An item as seen.
#[derive(Debug, Clone, PartialEq, Eq)]
pub struct ObservedItem {
    pub id: ItemId,
    pub name: String,
}

impl View for ObservedItem {
    type V = ObservedItemView;

    open spec fn view(&self) -> ObservedItemView {
        ObservedItemView { id: self.id@, name: self.name@ }
    }
}

/// The view of an [`ObservedFeature`].
pub struct ObservedFeatureView {
    pub id: Seq<char>,
    pub name: Seq<char>,
    pub room_description: Seq<char>,
    pub items: Seq<ObservedItemView>,
}

/// A room feature as seen from the room, with the items on it.
#[derive(Debug, Clone, PartialEq, Eq)]
pub struct ObservedFeature {
    pub id: FeatureId,
    pub name: String,
    pub room_description: String,
    pub items: Vec<ObservedItem>,
}

impl View for ObservedFeature {
    type V = ObservedFeatureView;

    open spec fn view(&self) -> ObservedFeatureView {
        ObservedFeatureView {
            id: self.id@,
            name: self.name@,
            room_description: self.room_description@,
            items: views(self.items@),
        }
    }
}

/// The view of an [`ObservedNpc`].
pub struct ObservedNpcView {
    pub id: Seq<char>,
    pub name: Seq<char>,
    pub room_description: Seq<char>,
}

/// A non-player character as seen from the room.
#[derive(Debug, Clone, PartialEq, Eq)]
pub struct ObservedNpc {
    pub id: NpcId,
    pub name: String,
    pub room_description: String,
}

impl View for ObservedNpc {
    type V = ObservedNpcView;

    open spec fn view(&self) -> ObservedNpcView {
        ObservedNpcView { id: self.id@, name: self.name@, room_description: self.room_description@ }
    }
}

/// The view of an [`ExaminedItem`].
pub struct ExaminedItemView {
    pub id: Seq<char>,
    pub name: Seq<char>,
    pub description: Seq<char>,
}

/// An item looked at closely.
#[derive(Debug, Clone, PartialEq, Eq)]
pub struct ExaminedItem {
    pub id: ItemId,
    pub name: String,
    pub description: String,
}

impl View for ExaminedItem {
    type V = ExaminedItemView;

    open spec fn view(&self) -> ExaminedItemView {
        ExaminedItemView { id: self.id@, name: self.name@, description: self.description@ }
    }
}

/// The view of an [`ExaminedFeature`].
pub struct ExaminedFeatureView {
    pub id: Seq<char>,
    pub name: Seq<char>,
    pub description: Seq<char>,
    pub items: Seq<ObservedItemView>,
}

/// A room feature looked at closely, with the items on it.
#[derive(Debug, Clone, PartialEq, Eq)]
pub struct ExaminedFeature {
    pub id: FeatureId,
    pub name: String,
    pub description: String,
    pub items: Vec<ObservedItem>,
}

impl View for ExaminedFeature {
    type V = ExaminedFeatureView;

    open spec fn view(&self) -> ExaminedFeatureView {
        ExaminedFeatureView {
            id: self.id@,
            name: self.name@,
            description: self.description@,
            items: views(self.items@),
        }
    }
}

/// The view of an [`ExaminedNpc`].
pub struct ExaminedNpcView {
    pub id: Seq<char>,
    pub name: Seq<char>,
    pub description: Seq<char>,
}

/// A non-player character looked at closely.
#[derive(Debug, Clone, PartialEq, Eq)]
pub struct ExaminedNpc {
    pub id: NpcId,
    pub name: String,
    pub description: String,
}

impl View for ExaminedNpc {
    type V = ExaminedNpcView;

    open spec fn view(&self) -> ExaminedNpcView {
        ExaminedNpcView { id: self.id@, name: self.name@, description: self.description@ }
    }
}

/// The view of an [`ObservedQuest`].
pub struct ObservedQuestView {
    pub key: QuestKeyView,
    pub name: Seq<char>,
    pub description: Seq<char>,
    pub current_objective: Option<Seq<char>>,
}

/// A quest as shown to the player, with the objective of its current step while active.
#[derive(Debug, Clone, PartialEq, Eq)]
pub struct ObservedQuest {
    pub key: QuestKey,
    pub name: String,
    pub description: String,
    pub current_objective: Option<String>,
}

impl View for ObservedQuest {
    type V = ObservedQuestView;

    open spec fn view(&self) -> ObservedQuestView {
        ObservedQuestView {
            key: self.key@,
            name: self.name@,
            description: self.description@,
            current_objective: match self.current_objective {
                Some(s) => Some(s@),
                None => None,
            },
        }
    }
}

/// The view of a [`GameEvent`].
#[allow(inconsistent_fields)]
pub enum GameEventView {
    RoomObserved {
        room_id: Seq<char>,
        name: Seq<char>,
        description: Seq<char>,
        items: Seq<ObservedItemView>,
        features: Seq<ObservedFeatureView>,
        npcs: Seq<ObservedNpcView>,
        exits: Seq<Direction>,
    },
    ExitsObserved { room_id: Seq<char>, exits: Seq<Direction> },
    HelpRequested,
    CharacterMoved {
        character_id: Seq<char>,
        from: Seq<char>,
        to: Seq<char>,
        direction: Direction,
    },
    MovementFailed { character_id: Seq<char>, room_id: Seq<char>, direction: Direction },
    MovementBlocked {
        character_id: Seq<char>,
        room_id: Seq<char>,
        direction: Direction,
        message: Seq<char>,
    },
    ItemTaken { character_id: Seq<char>, room_id: Seq<char>, item: ObservedItemView },
    TakeFailed {
        character_id: Seq<char>,
        room_id: Seq<char>,
        query: Seq<char>,
        reason: TakeFailureReason,
    },
    InventoryObserved { items: Seq<ObservedItemView> },
    QuestsObserved { active: Seq<ObservedQuestView>, completed: Seq<ObservedQuestView> },
    QuestStarted { character_id: Seq<char>, quest: ObservedQuestView },
    QuestAdvanced { character_id: Seq<char>, quest: ObservedQuestView },
    QuestCompleted { character_id: Seq<char>, quest: ObservedQuestView },
    ItemDropped { character_id: Seq<char>, room_id: Seq<char>, item: ObservedItemView },
    DropFailed {
        character_id: Seq<char>,
        room_id: Seq<char>,
        query: Seq<char>,
        reason: DropFailureReason,
    },
    ItemPlacedOnFeature {
        character_id: Seq<char>,
        item: ObservedItemView,
        feature_id: Seq<char>,
        feature_name: Seq<char>,
    },
    PutOnFailed {
        character_id: Seq<char>,
        item_query: Seq<char>,
        feature_query: Seq<char>,
        reason: PutOnFailureReasonView,
    },
    ItemExamined { character_id: Seq<char>, item: ExaminedItemView },
    FeatureExamined { character_id: Seq<char>, feature: ExaminedFeatureView },
    NpcExamined { character_id: Seq<char>, npc: ExaminedNpcView },
    NpcSpoke {
        character_id: Seq<char>,
        npc_id: Seq<char>,
        name: Seq<char>,
        greeting: Seq<char>,
        topics: Seq<Seq<char>>,
    },
    TalkFailed { character_id: Seq<char>, query: Seq<char>, reason: TalkFailureReason },
    NpcAnswered {
        character_id: Seq<char>,
        npc_id: Seq<char>,
        npc_name: Seq<char>,
        topic_id: Seq<char>,
        topic_name: Seq<char>,
        response: Seq<char>,
        learned_facts: Seq<FactKeyView>,
        updated_topics: Option<Seq<Seq<char>>>,
    },
    AskFailed {
        character_id: Seq<char>,
        npc_query: Seq<char>,
        topic_query: Seq<char>,
        reason: AskFailureReasonView,
    },
    ExamineFailed {
        character_id: Seq<char>,
        query: Seq<char>,
        reason: ExamineFailureReasonView,
    },
}

/// Something that happened in the game, for the player to be told.
#[allow(inconsistent_fields)]
#[derive(Debug, Clone, PartialEq, Eq)]
pub enum GameEvent {
    RoomObserved {
        room_id: RoomId,
        name: String,
        description: String,
        items: Vec<ObservedItem>,
        features: Vec<ObservedFeature>,
        npcs: Vec<ObservedNpc>,
        exits: Vec<Direction>,
    },
    ExitsObserved { room_id: RoomId, exits: Vec<Direction> },
    HelpRequested,
    CharacterMoved { character_id: CharacterId, from: RoomId, to: RoomId, direction: Direction },
    MovementFailed { character_id: CharacterId, room_id: RoomId, direction: Direction },
    MovementBlocked {
        character_id: CharacterId,
        room_id: RoomId,
        direction: Direction,
        message: String,
    },
    ItemTaken { character_id: CharacterId, room_id: RoomId, item: ObservedItem },
    TakeFailed {
        character_id: CharacterId,
        room_id: RoomId,
        query: String,
        reason: TakeFailureReason,
    },
    InventoryObserved { items: Vec<ObservedItem> },
    QuestsObserved { active: Vec<ObservedQuest>, completed: Vec<ObservedQuest> },
    QuestStarted { character_id: CharacterId, quest: ObservedQuest },
    QuestAdvanced { character_id: CharacterId, quest: ObservedQuest },
    QuestCompleted { character_id: CharacterId, quest: ObservedQuest },
    ItemDropped { character_id: CharacterId, room_id: RoomId, item: ObservedItem },
    DropFailed {
        character_id: CharacterId,
        room_id: RoomId,
        query: String,
        reason: DropFailureReason,
    },
    ItemPlacedOnFeature {
        character_id: CharacterId,
        item: ObservedItem,
        feature_id: FeatureId,
        feature_name: String,
    },
    PutOnFailed {
        character_id: CharacterId,
        item_query: String,
        feature_query: String,
        reason: PutOnFailureReason,
    },
    ItemExamined { character_id: CharacterId, item: ExaminedItem },
    FeatureExamined { character_id: CharacterId, feature: ExaminedFeature },
    NpcExamined { character_id: CharacterId, npc: ExaminedNpc },
    NpcSpoke {
        character_id: CharacterId,
        npc_id: NpcId,
        name: String,
        greeting: String,
        topics: Vec<String>,
    },
    TalkFailed { character_id: CharacterId, query: String, reason: TalkFailureReason },
    NpcAnswered {
        character_id: CharacterId,
        npc_id: NpcId,
        npc_name: String,
        topic_id: NpcTopicId,
        topic_name: String,
        response: String,
        learned_facts: Vec<FactKey>,
        updated_topics: Option<Vec<String>>,
    },
    AskFailed {
        character_id: CharacterId,
        npc_query: String,
        topic_query: String,
        reason: AskFailureReason,
    },
    ExamineFailed { character_id: CharacterId, query: String, reason: ExamineFailureReason },
}

/// The views of the texts of a sequence.
pub open spec fn text_views(s: Seq<String>) -> Seq<Seq<char>> {
    s.map_values(|t: String| t@)
}

impl View for GameEvent {
    type V = GameEventView;

    open spec fn view(&self) -> GameEventView {
        match self {
            GameEvent::RoomObserved { room_id, name, description, items, features, npcs, exits } =>
                GameEventView::RoomObserved {
                room_id: room_id@,
                name: name@,
                description: description@,
                items: views(items@),
                features: views(features@),
                npcs: views(npcs@),
                exits: exits@,
            },
            GameEvent::ExitsObserved { room_id, exits } => GameEventView::ExitsObserved {
                room_id: room_id@,
                exits: exits@,
            },
            GameEvent::HelpRequested => GameEventView::HelpRequested,
            GameEvent::CharacterMoved { character_id, from, to, direction } =>
                GameEventView::CharacterMoved {
                character_id: character_id@,
                from: from@,
                to: to@,
                direction: *direction,
            },
            GameEvent::MovementFailed { character_id, room_id, direction } =>
                GameEventView::MovementFailed {
                character_id: character_id@,
                room_id: room_id@,
                direction: *direction,
            },
            GameEvent::MovementBlocked { character_id, room_id, direction, message } =>
                GameEventView::MovementBlocked {
                character_id: character_id@,
                room_id: room_id@,
                direction: *direction,
                message: message@,
            },
            GameEvent::ItemTaken { character_id, room_id, item } => GameEventView::ItemTaken {
                character_id: character_id@,
                room_id: room_id@,
                item: item@,
            },
            GameEvent::TakeFailed { character_id, room_id, query, reason } =>
                GameEventView::TakeFailed {
                character_id: character_id@,
                room_id: room_id@,
                query: query@,
                reason: *reason,
            },
            GameEvent::InventoryObserved { items } => GameEventView::InventoryObserved {
                items: views(items@),
            },
            GameEvent::QuestsObserved { active, completed } => GameEventView::QuestsObserved {
                active: views(active@),
                completed: views(completed@),
            },
            GameEvent::QuestStarted { character_id, quest } => GameEventView::QuestStarted {
                character_id: character_id@,
                quest: quest@,
            },
            GameEvent::QuestAdvanced { character_id, quest } => GameEventView::QuestAdvanced {
                character_id: character_id@,
                quest: quest@,
            },
            GameEvent::QuestCompleted { character_id, quest } => GameEventView::QuestCompleted {
                character_id: character_id@,
                quest: quest@,
            },
            GameEvent::ItemDropped { character_id, room_id, item } => GameEventView::ItemDropped {
                character_id: character_id@,
                room_id: room_id@,
                item: item@,
            },
            GameEvent::DropFailed { character_id, room_id, query, reason } =>
                GameEventView::DropFailed {
                character_id: character_id@,
                room_id: room_id@,
                query: query@,
                reason: *reason,
            },
            GameEvent::ItemPlacedOnFeature { character_id, item, feature_id, feature_name } =>
                GameEventView::ItemPlacedOnFeature {
                character_id: character_id@,
                item: item@,
                feature_id: feature_id@,
                feature_name: feature_name@,
            },
            GameEvent::PutOnFailed { character_id, item_query, feature_query, reason } =>
                GameEventView::PutOnFailed {
                character_id: character_id@,
                item_query: item_query@,
                feature_query: feature_query@,
                reason: reason@,
            },
            GameEvent::ItemExamined { character_id, item } => GameEventView::ItemExamined {
                character_id: character_id@,
                item: item@,
            },
            GameEvent::FeatureExamined { character_id, feature } => GameEventView::FeatureExamined {
                character_id: character_id@,
                feature: feature@,
            },
            GameEvent::NpcExamined { character_id, npc } => GameEventView::NpcExamined {
                character_id: character_id@,
                npc: npc@,
            },
            GameEvent::NpcSpoke { character_id, npc_id, name, greeting, topics } =>
                GameEventView::NpcSpoke {
                character_id: character_id@,
                npc_id: npc_id@,
                name: name@,
                greeting: greeting@,
                topics: text_views(topics@),
            },
            GameEvent::TalkFailed { character_id, query, reason } => GameEventView::TalkFailed {
                character_id: character_id@,
                query: query@,
                reason: *reason,
            },
            GameEvent::NpcAnswered {
                character_id,
                npc_id,
                npc_name,
                topic_id,
                topic_name,
                response,
                learned_facts,
                updated_topics,
            } => GameEventView::NpcAnswered {
                character_id: character_id@,
                npc_id: npc_id@,
                npc_name: npc_name@,
                topic_id: topic_id@,
                topic_name: topic_name@,
                response: response@,
                learned_facts: views(learned_facts@),
                updated_topics: match updated_topics {
                    Some(t) => Some(text_views(t@)),
                    None => None,
                },
            },
            GameEvent::AskFailed { character_id, npc_query, topic_query, reason } =>
                GameEventView::AskFailed {
                character_id: character_id@,
                npc_query: npc_query@,
                topic_query: topic_query@,
                reason: reason@,
            },
            GameEvent::ExamineFailed { character_id, query, reason } =>
                GameEventView::ExamineFailed {
                character_id: character_id@,
                query: query@,
                reason: reason@,
            },
        }
    }
}

} // verus!
