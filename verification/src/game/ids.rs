use vstd::prelude::*;

verus! {

/// A value that a [`crate::game::table::Table`] or [`crate::game::table::KeySet`] is keyed by:
/// two keys are the same key exactly when their views are equal.
pub trait Key: View + Sized {
    fn same_key(&self, other: &Self) -> (same: bool)
        ensures
            same == (self@ == other@),
    ;
}

/// The identifier of a world.
#[derive(Debug, PartialEq, Eq, Hash)]
pub struct WorldId(pub String);

impl View for WorldId {
    type V = Seq<char>;

    open spec fn view(&self) -> Seq<char> {
        self.0@
    }
}

impl Clone for WorldId {
    fn clone(&self) -> (copy: Self)
        ensures
            copy == *self,
    {
        WorldId(self.0.clone())
    }
}

impl Key for WorldId {
    fn same_key(&self, other: &Self) -> (same: bool) {
        self.0 == other.0
    }
}

/// The identifier of a room.
#[derive(Debug, PartialEq, Eq, Hash)]
pub struct RoomId(pub String);

impl View for RoomId {
    type V = Seq<char>;

    open spec fn view(&self) -> Seq<char> {
        self.0@
    }
}

impl Clone for RoomId {
    fn clone(&self) -> (copy: Self)
        ensures
            copy == *self,
    {
        RoomId(self.0.clone())
    }
}

impl Key for RoomId {
    fn same_key(&self, other: &Self) -> (same: bool) {
        self.0 == other.0
    }
}

/// The identifier of a character.
#[derive(Debug, PartialEq, Eq, Hash)]
pub struct CharacterId(pub String);

impl View for CharacterId {
    type V = Seq<char>;

    open spec fn view(&self) -> Seq<char> {
        self.0@
    }
}

impl Clone for CharacterId {
    fn clone(&self) -> (copy: Self)
        ensures
            copy == *self,
    {
        CharacterId(self.0.clone())
    }
}

impl Key for CharacterId {
    fn same_key(&self, other: &Self) -> (same: bool) {
        self.0 == other.0
    }
}

/// The identifier of an item.
#[derive(Debug, PartialEq, Eq, Hash)]
pub struct ItemId(pub String);

impl View for ItemId {
    type V = Seq<char>;

    open spec fn view(&self) -> Seq<char> {
        self.0@
    }
}

impl Clone for ItemId {
    fn clone(&self) -> (copy: Self)
        ensures
            copy == *self,
    {
        ItemId(self.0.clone())
    }
}

impl Key for ItemId {
    fn same_key(&self, other: &Self) -> (same: bool) {
        self.0 == other.0
    }
}

/// The identifier of a room feature.
#[derive(Debug, PartialEq, Eq, Hash)]
pub struct FeatureId(pub String);

impl View for FeatureId {
    type V = Seq<char>;

    open spec fn view(&self) -> Seq<char> {
        self.0@
    }
}

impl Clone for FeatureId {
    fn clone(&self) -> (copy: Self)
        ensures
            copy == *self,
    {
        FeatureId(self.0.clone())
    }
}

impl Key for FeatureId {
    fn same_key(&self, other: &Self) -> (same: bool) {
        self.0 == other.0
    }
}

/// The identifier of a non-player character.
#[derive(Debug, PartialEq, Eq, Hash)]
pub struct NpcId(pub String);

impl View for NpcId {
    type V = Seq<char>;

    open spec fn view(&self) -> Seq<char> {
        self.0@
    }
}

impl Clone for NpcId {
    fn clone(&self) -> (copy: Self)
        ensures
            copy == *self,
    {
        NpcId(self.0.clone())
    }
}

impl Key for NpcId {
    fn same_key(&self, other: &Self) -> (same: bool) {
        self.0 == other.0
    }
}

/// The identifier of a conversation topic of a non-player character.
#[derive(Debug, PartialEq, Eq, Hash)]
pub struct NpcTopicId(pub String);

impl View for NpcTopicId {
    type V = Seq<char>;

    open spec fn view(&self) -> Seq<char> {
        self.0@
    }
}

impl Clone for NpcTopicId {
    fn clone(&self) -> (copy: Self)
        ensures
            copy == *self,
    {
        NpcTopicId(self.0.clone())
    }
}

impl Key for NpcTopicId {
    fn same_key(&self, other: &Self) -> (same: bool) {
        self.0 == other.0
    }
}

/// The identifier of a fact declared by a world.
#[derive(Debug, PartialEq, Eq, Hash)]
pub struct FactId(pub String);

impl View for FactId {
    type V = Seq<char>;

    open spec fn view(&self) -> Seq<char> {
        self.0@
    }
}

impl Clone for FactId {
    fn clone(&self) -> (copy: Self)
        ensures
            copy == *self,
    {
        FactId(self.0.clone())
    }
}

impl Key for FactId {
    fn same_key(&self, other: &Self) -> (same: bool) {
        self.0 == other.0
    }
}

/// The identifier of a quest.
#[derive(Debug, PartialEq, Eq, Hash)]
pub struct QuestId(pub String);

impl View for QuestId {
    type V = Seq<char>;

    open spec fn view(&self) -> Seq<char> {
        self.0@
    }
}

impl Clone for QuestId {
    fn clone(&self) -> (copy: Self)
        ensures
            copy == *self,
    {
        QuestId(self.0.clone())
    }
}

impl Key for QuestId {
    fn same_key(&self, other: &Self) -> (same: bool) {
        self.0 == other.0
    }
}

/// The identifier of a step of a quest.
#[derive(Debug, PartialEq, Eq, Hash)]
pub struct QuestStepId(pub String);

impl View for QuestStepId {
    type V = Seq<char>;

    open spec fn view(&self) -> Seq<char> {
        self.0@
    }
}

impl Clone for QuestStepId {
    fn clone(&self) -> (copy: Self)
        ensures
            copy == *self,
    {
        QuestStepId(self.0.clone())
    }
}

impl Key for QuestStepId {
    fn same_key(&self, other: &Self) -> (same: bool) {
        self.0 == other.0
    }
}

/// The view of a [`FactKey`].
pub struct FactKeyView {
    pub world_id: Seq<char>,
    pub fact_id: Seq<char>,
}

/// The identifier of a fact as known by a character: the fact's identifier qualified by its world.
#[derive(Debug, PartialEq, Eq, Hash)]
pub struct FactKey {
    pub world_id: WorldId,
    pub fact_id: FactId,
}

impl View for FactKey {
    type V = FactKeyView;

    open spec fn view(&self) -> FactKeyView {
        FactKeyView { world_id: self.world_id@, fact_id: self.fact_id@ }
    }
}

impl Clone for FactKey {
    fn clone(&self) -> (copy: Self)
        ensures
            copy == *self,
    {
        FactKey { world_id: self.world_id.clone(), fact_id: self.fact_id.clone() }
    }
}

impl Key for FactKey {
    fn same_key(&self, other: &Self) -> (same: bool) {
        self.world_id.same_key(&other.world_id) && self.fact_id.same_key(&other.fact_id)
    }
}

/// The view of a [`QuestKey`].
pub struct QuestKeyView {
    pub world_id: Seq<char>,
    pub quest_id: Seq<char>,
}

/// The identifier of a quest as tracked by a character: the quest's identifier qualified by its world.
#[derive(Debug, PartialEq, Eq, Hash)]
pub struct QuestKey {
    pub world_id: WorldId,
    pub quest_id: QuestId,
}

impl View for QuestKey {
    type V = QuestKeyView;

    open spec fn view(&self) -> QuestKeyView {
        QuestKeyView { world_id: self.world_id@, quest_id: self.quest_id@ }
    }
}

impl Clone for QuestKey {
    fn clone(&self) -> (copy: Self)
        ensures
            copy == *self,
    {
        QuestKey { world_id: self.world_id.clone(), quest_id: self.quest_id.clone() }
    }
}

impl Key for QuestKey {
    fn same_key(&self, other: &Self) -> (same: bool) {
        self.world_id.same_key(&other.world_id) && self.quest_id.same_key(&other.quest_id)
    }
}

} // verus!
