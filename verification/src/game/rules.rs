use vstd::prelude::*;

use super::character::CharacterView;
use super::command::{AskQueryView, CommandView, TargetKind, TargetQueryView};
use super::direction::Direction;
use super::event::{
    AskFailureReasonView, DropFailureReason, ExamineFailureReasonView, ExaminedFeatureView,
    ExaminedItemView, ExaminedNpcView, GameEventView, ObservedFeatureView, ObservedItemView,
    ObservedNpcView, ObservedQuestView, TakeFailureReason, TalkFailureReason,
};
use super::exit::{ExitRequirementView, ExitView};
use super::ids::{FactKeyView, QuestKeyView};
use super::item_location::ItemLocationView;
use super::naming::normalized_name;
use super::npc::NpcTopicView;
use super::quest::{find_step, QuestObjectiveView, QuestProgressView, QuestStatus, QuestView};
use super::table::{lookup, table_insert, table_keys};
use super::world::{items_at, location_of, placements_after_move, WorldView};
use crate::order::{sorted_by_text, TextOrdered};

verus! {

/// The view of a [`super::game::Game`]: the world and the player's character in it.
pub struct GameView {
    pub world: WorldView,
    pub character: CharacterView,
}

// ----- facts, topics and exits -----

/// A fact of the game's world as a character knows it.
pub open spec fn fact_key(g: GameView, fact: Seq<char>) -> FactKeyView {
    FactKeyView { world_id: g.world.id, fact_id: fact }
}

/// Whether the character knows the world's fact `fact`.
pub open spec fn knows(g: GameView, fact: Seq<char>) -> bool {
    g.character.facts.contains(fact_key(g, fact))
}

/// Whether a topic may be raised: the character knows every fact it requires and none it
/// excludes.
pub open spec fn topic_available(g: GameView, topic: NpcTopicView) -> bool {
    &&& forall|i: int| 0 <= i < topic.requires_facts.len() ==> knows(g, topic.requires_facts[i])
    &&& forall|i: int|
        0 <= i < topic.excludes_facts.len() ==> !knows(g, topic.excludes_facts[i])
}

/// The names of the topics that may be raised, in order.
pub open spec fn available_topic_names(g: GameView, topics: Seq<NpcTopicView>) -> Seq<Seq<char>>
    decreases topics.len(),
{
    if topics.len() == 0 {
        Seq::empty()
    } else {
        let rest = available_topic_names(g, topics.drop_last());
        if topic_available(g, topics.last()) {
            rest.push(topics.last().name)
        } else {
            rest
        }
    }
}

/// Whether the character carries the item `item`.
pub open spec fn carries(g: GameView, item: Seq<char>) -> bool {
    location_of(g.world.item_placements, item) == Some(
        ItemLocationView::CarriedBy(g.character.id),
    )
}

/// Whether the character meets an exit requirement.
pub open spec fn requirement_met(g: GameView, requirement: ExitRequirementView) -> bool {
    match requirement {
        ExitRequirementView::CarryingItem(item) => carries(g, item),
        ExitRequirementView::KnowsFact(fact) => knows(g, fact),
    }
}

/// Whether the character meets every requirement of an exit.
pub open spec fn requirements_met(g: GameView, exit: ExitView) -> bool {
    forall|i: int| 0 <= i < exit.requirements.len() ==> requirement_met(g, exit.requirements[i])
}

// ----- quests -----

/// A quest of the game's world as a character tracks it.
pub open spec fn quest_key(g: GameView, quest: Seq<char>) -> QuestKeyView {
    QuestKeyView { world_id: g.world.id, quest_id: quest }
}

/// The observation of a tracked quest, when it belongs to this world and the world has it.
pub open spec fn observed_quest(g: GameView, key: QuestKeyView, progress: QuestProgressView) -> Option<
    ObservedQuestView,
> {
    if key.world_id != g.world.id {
        None
    } else {
        match lookup(g.world.quests, key.quest_id) {
            None => None,
            Some(quest) => Some(
                ObservedQuestView {
                    key,
                    name: quest.name,
                    description: quest.description,
                    current_objective: match progress.status {
                        QuestStatus::Active => match find_step(quest.steps, progress.current_step) {
                            Some(step) => Some(step.description),
                            None => None,
                        },
                        QuestStatus::Completed => None,
                    },
                },
            ),
        }
    }
}

/// The game with the character's quest table set to `quests`.
pub open spec fn with_quests(g: GameView, quests: Seq<(QuestKeyView, QuestProgressView)>) -> GameView {
    GameView { character: CharacterView { quests, ..g.character }, ..g }
}

/// The progress after finishing `step`: on to its next step, or completed at the last one.
pub open spec fn advanced_progress(progress: QuestProgressView, next: Option<Seq<char>>) -> QuestProgressView {
    match next {
        Some(n) => QuestProgressView { status: progress.status, current_step: n },
        None => QuestProgressView { status: QuestStatus::Completed, current_step: progress.current_step },
    }
}

/// Moves the tracked quest `key` past its current step, reporting it as advanced or
/// completed. Nothing happens when the quest, its world record or its step is missing.
pub open spec fn apply_transition(g: GameView, key: QuestKeyView) -> (GameView, Seq<GameEventView>) {
    match lookup(g.character.quests, key) {
        None => (g, Seq::empty()),
        Some(progress) => match lookup(g.world.quests, key.quest_id) {
            None => (g, Seq::empty()),
            Some(quest) => match find_step(quest.steps, progress.current_step) {
                None => (g, Seq::empty()),
                Some(step) => {
                    let next = advanced_progress(progress, step.next_step);
                    let g2 = with_quests(g, table_insert(g.character.quests, key, next));
                    match observed_quest(g2, key, next) {
                        None => (g2, Seq::empty()),
                        Some(observed) => (
                            g2,
                            seq![
                                match next.status {
                                    QuestStatus::Active => GameEventView::QuestAdvanced {
                                        character_id: g.character.id,
                                        quest: observed,
                                    },
                                    QuestStatus::Completed => GameEventView::QuestCompleted {
                                        character_id: g.character.id,
                                        quest: observed,
                                    },
                                }
                            ],
                        ),
                    }
                },
            },
        },
    }
}

/// Applies the transitions of the keys in order.
pub open spec fn apply_transitions_in_order(g: GameView, keys: Seq<QuestKeyView>) -> (
    GameView,
    Seq<GameEventView>,
)
    decreases keys.len(),
{
    if keys.len() == 0 {
        (g, Seq::empty())
    } else {
        let (g1, e1) = apply_transitions_in_order(g, keys.drop_last());
        let (g2, e2) = apply_transition(g1, keys.last());
        (g2, e1 + e2)
    }
}

impl TextOrdered for super::ids::QuestKey {
    open spec fn order_text(v: QuestKeyView) -> Seq<char> {
        v.quest_id
    }

    fn order_le(&self, other: &Self) -> (le: bool) {
        crate::order::text_le_exec(self.quest_id.0.as_str(), other.quest_id.0.as_str())
    }
}

/// Applies the transitions of the keys, in the order of their quest identifiers.
pub open spec fn apply_transitions(g: GameView, keys: Seq<QuestKeyView>) -> (
    GameView,
    Seq<GameEventView>,
) {
    apply_transitions_in_order(g, sorted_by_text::<super::ids::QuestKey>(keys))
}

/// Whether the character's state meets a step objective; talking objectives are met only
/// by asking.
pub open spec fn objective_met(g: GameView, objective: QuestObjectiveView) -> bool {
    match objective {
        QuestObjectiveView::ReachRoom(room) => room == g.character.current_room,
        QuestObjectiveView::PossessItem(item) => carries(g, item),
        QuestObjectiveView::AskTopic { .. } => false,
    }
}

/// The objective of the current step of the tracked quest `key` with `progress`, when it is
/// an active quest of this world and the world has its step.
pub open spec fn active_step_objective(
    g: GameView,
    key: QuestKeyView,
    progress: QuestProgressView,
) -> Option<QuestObjectiveView> {
    if key.world_id != g.world.id || progress.status != QuestStatus::Active {
        None
    } else {
        match lookup(g.world.quests, key.quest_id) {
            None => None,
            Some(quest) => match find_step(quest.steps, progress.current_step) {
                None => None,
                Some(step) => Some(step.objective),
            },
        }
    }
}

/// The tracked quests whose current objective the character's state meets, in table order.
pub open spec fn satisfied_quests(g: GameView, entries: Seq<(QuestKeyView, QuestProgressView)>) -> Seq<
    QuestKeyView,
>
    decreases entries.len(),
{
    if entries.len() == 0 {
        Seq::empty()
    } else {
        let rest = satisfied_quests(g, entries.drop_last());
        let (key, progress) = entries.last();
        match active_step_objective(g, key, progress) {
            Some(objective) => if objective_met(g, objective) {
                rest.push(key)
            } else {
                rest
            },
            None => rest,
        }
    }
}

/// Rounds of transitions, at most `fuel` of them: each round advances every quest whose
/// objective is met, until none is.
pub open spec fn settle_rounds(g: GameView, fuel: nat) -> (GameView, Seq<GameEventView>)
    decreases fuel,
{
    if fuel == 0 {
        (g, Seq::empty())
    } else {
        let keys = satisfied_quests(g, g.character.quests);
        if keys.len() == 0 {
            (g, Seq::empty())
        } else {
            let (g1, e1) = apply_transitions(g, keys);
            let (g2, e2) = settle_rounds(g1, (fuel - 1) as nat);
            (g2, e1 + e2)
        }
    }
}

/// How many more steps a quest can take from step `step`, following next steps at most
/// `fuel` times.
pub open spec fn chain_length(quest: QuestView, step: Seq<char>, fuel: nat) -> nat
    decreases fuel,
{
    if fuel == 0 {
        0
    } else {
        match find_step(quest.steps, step) {
            None => 0,
            Some(s) => match s.next_step {
                None => 1,
                Some(n) => 1 + chain_length(quest, n, (fuel - 1) as nat),
            },
        }
    }
}

/// Whether following next steps from any step of the quest ends: the chain from every step
/// is as long with as many moves as there are steps as with one more.
pub open spec fn quest_chains_end(quest: QuestView) -> bool {
    forall|step: Seq<char>|
        #[trigger] chain_length(quest, step, quest.steps.len()) == chain_length(
            quest,
            step,
            quest.steps.len() + 1,
        )
}

/// Whether every quest of the world has chains that end.
pub open spec fn quests_end(w: WorldView) -> bool {
    forall|i: int| 0 <= i < w.quests.len() ==> #[trigger] quest_chains_end(w.quests[i].1)
}

/// The steps an active tracked quest of this world still has ahead of it.
pub open spec fn remaining_steps(w: WorldView, key: QuestKeyView, progress: QuestProgressView) -> nat {
    if key.world_id != w.id || progress.status != QuestStatus::Active {
        0
    } else {
        match lookup(w.quests, key.quest_id) {
            None => 0,
            Some(quest) => chain_length(quest, progress.current_step, quest.steps.len() + 1),
        }
    }
}

/// The steps all tracked quests in `entries` still have ahead of them.
pub open spec fn steps_ahead(w: WorldView, entries: Seq<(QuestKeyView, QuestProgressView)>) -> nat
    decreases entries.len(),
{
    if entries.len() == 0 {
        0
    } else {
        steps_ahead(w, entries.drop_last()) + remaining_steps(
            w,
            entries.last().0,
            entries.last().1,
        )
    }
}

/// Whether `fuel` rounds bring the game to rest: afterwards no tracked quest has its
/// objective met.
pub open spec fn rounds_done(g: GameView, fuel: nat) -> bool {
    satisfied_quests(settle_rounds(g, fuel).0, settle_rounds(g, fuel).0.character.quests).len()
        == 0
}

/// Whether rounds of transitions from `g` come to rest at all.
pub open spec fn settles(g: GameView) -> bool {
    exists|fuel: nat| rounds_done(g, fuel)
}

/// Rounds of transitions until no tracked quest has its objective met. Where they never come
/// to rest this says nothing.
pub open spec fn settle(g: GameView) -> (GameView, Seq<GameEventView>) {
    settle_rounds(g, choose|fuel: nat| rounds_done(g, fuel))
}

/// The tracked quests of this world whose current objective is asking `npc` about `topic`.
pub open spec fn quests_asking(
    g: GameView,
    entries: Seq<(QuestKeyView, QuestProgressView)>,
    npc: Seq<char>,
    topic: Seq<char>,
) -> Seq<QuestKeyView>
    decreases entries.len(),
{
    if entries.len() == 0 {
        Seq::empty()
    } else {
        let rest = quests_asking(g, entries.drop_last(), npc, topic);
        let (key, progress) = entries.last();
        match active_step_objective(g, key, progress) {
            Some(QuestObjectiveView::AskTopic { npc_id, topic_id }) => if npc_id == npc
                && topic_id == topic {
                rest.push(key)
            } else {
                rest
            },
            _ => rest,
        }
    }
}

// ----- observation -----

/// The observations of the items `ids`; `None` when one of them is missing from the world.
pub open spec fn observed_items(g: GameView, ids: Seq<Seq<char>>) -> Option<Seq<ObservedItemView>>
    decreases ids.len(),
{
    if ids.len() == 0 {
        Some(Seq::empty())
    } else {
        match (observed_items(g, ids.drop_last()), lookup(g.world.items, ids.last())) {
            (Some(rest), Some(item)) => Some(rest.push(ObservedItemView { id: item.id, name: item.name })),
            _ => None,
        }
    }
}

/// The observations of those of the items `ids` that the world has.
pub open spec fn known_items(g: GameView, ids: Seq<Seq<char>>) -> Seq<ObservedItemView>
    decreases ids.len(),
{
    if ids.len() == 0 {
        Seq::empty()
    } else {
        let rest = known_items(g, ids.drop_last());
        match lookup(g.world.items, ids.last()) {
            Some(item) => rest.push(ObservedItemView { id: item.id, name: item.name }),
            None => rest,
        }
    }
}

/// The observations of the features `ids`, each with the items on it; `None` when one of
/// the features is missing from the world.
pub open spec fn observed_features(g: GameView, ids: Seq<Seq<char>>) -> Option<Seq<ObservedFeatureView>>
    decreases ids.len(),
{
    if ids.len() == 0 {
        Some(Seq::empty())
    } else {
        match (observed_features(g, ids.drop_last()), lookup(g.world.features, ids.last())) {
            (Some(rest), Some(feature)) => Some(
                rest.push(
                    ObservedFeatureView {
                        id: feature.id,
                        name: feature.name,
                        room_description: feature.room_description,
                        items: known_items(
                            g,
                            items_at(g.world.item_placements, ItemLocationView::OnFeature(feature.id)),
                        ),
                    },
                ),
            ),
            _ => None,
        }
    }
}

/// The observations of the non-player characters `ids`; `None` when one is missing.
pub open spec fn observed_npcs(g: GameView, ids: Seq<Seq<char>>) -> Option<Seq<ObservedNpcView>>
    decreases ids.len(),
{
    if ids.len() == 0 {
        Some(Seq::empty())
    } else {
        match (observed_npcs(g, ids.drop_last()), lookup(g.world.npcs, ids.last())) {
            (Some(rest), Some(npc)) => Some(
                rest.push(
                    ObservedNpcView {
                        id: npc.id,
                        name: npc.name,
                        room_description: npc.room_description,
                    },
                ),
            ),
            _ => None,
        }
    }
}

/// What the character sees in its room; `None` when the room, or anything it lists, is
/// missing from the world.
pub open spec fn observe_room(g: GameView) -> Option<GameEventView> {
    match lookup(g.world.rooms, g.character.current_room) {
        None => None,
        Some(room) => match (
            observed_items(
                g,
                items_at(g.world.item_placements, ItemLocationView::Room(room.id)),
            ),
            observed_features(g, room.features),
            observed_npcs(g, room.npcs),
        ) {
            (Some(items), Some(features), Some(npcs)) => Some(
                GameEventView::RoomObserved {
                    room_id: room.id,
                    name: room.name,
                    description: room.description,
                    items,
                    features,
                    npcs,
                    exits: table_keys(room.exits),
                },
            ),
            _ => None,
        },
    }
}

/// The exits of the character's room, when the world has the room.
pub open spec fn observe_exits(g: GameView) -> Option<GameEventView> {
    match lookup(g.world.rooms, g.character.current_room) {
        None => None,
        Some(room) => Some(GameEventView::ExitsObserved { room_id: room.id, exits: table_keys(room.exits) }),
    }
}

/// The items the character carries; `None` when one of them is missing from the world.
pub open spec fn observe_inventory(g: GameView) -> Option<GameEventView> {
    match observed_items(
        g,
        items_at(g.world.item_placements, ItemLocationView::CarriedBy(g.character.id)),
    ) {
        Some(items) => Some(GameEventView::InventoryObserved { items }),
        None => None,
    }
}

/// The observations of the tracked quests in `entries` that have the status `status`, in
/// table order.
pub open spec fn observed_quests_with(
    g: GameView,
    entries: Seq<(QuestKeyView, QuestProgressView)>,
    status: QuestStatus,
) -> Seq<ObservedQuestView>
    decreases entries.len(),
{
    if entries.len() == 0 {
        Seq::empty()
    } else {
        let rest = observed_quests_with(g, entries.drop_last(), status);
        let (key, progress) = entries.last();
        match observed_quest(g, key, progress) {
            Some(observed) => if progress.status == status {
                rest.push(observed)
            } else {
                rest
            },
            None => rest,
        }
    }
}

impl TextOrdered for super::event::ObservedQuest {
    open spec fn order_text(v: ObservedQuestView) -> Seq<char> {
        v.name
    }

    fn order_le(&self, other: &Self) -> (le: bool) {
        crate::order::text_le_exec(self.name.as_str(), other.name.as_str())
    }
}

/// The quest journal: active and completed quests of this world, each sorted by name.
pub open spec fn observe_quests(g: GameView) -> GameEventView {
    GameEventView::QuestsObserved {
        active: sorted_by_text::<super::event::ObservedQuest>(
            observed_quests_with(g, g.character.quests, QuestStatus::Active),
        ),
        completed: sorted_by_text::<super::event::ObservedQuest>(
            observed_quests_with(g, g.character.quests, QuestStatus::Completed),
        ),
    }
}

// ----- choosing among matches -----

/// How a query picks among `count` matches.
pub enum Selection {
    Picked(int),
    NotFound,
    Ambiguous(usize),
    OutOfRange(usize, usize),
}

/// The match a query picks: the numbered one, or the only one.
pub open spec fn select(count: nat, ordinal: Option<usize>) -> Selection {
    match ordinal {
        Some(requested) => if requested - 1 < count {
            Selection::Picked(requested - 1)
        } else {
            Selection::OutOfRange(requested, count as usize)
        },
        None => if count == 0 {
            Selection::NotFound
        } else if count == 1 {
            Selection::Picked(0)
        } else {
            Selection::Ambiguous(count as usize)
        },
    }
}

/// Those of the items `ids` that the world has and whose names normalize to `name`.
pub open spec fn items_named(g: GameView, ids: Seq<Seq<char>>, name: Seq<char>) -> Seq<Seq<char>>
    decreases ids.len(),
{
    if ids.len() == 0 {
        Seq::empty()
    } else {
        let rest = items_named(g, ids.drop_last(), name);
        match lookup(g.world.items, ids.last()) {
            Some(item) => if normalized_name(item.name) == name {
                rest.push(ids.last())
            } else {
                rest
            },
            None => rest,
        }
    }
}

/// Those of the features `ids` that the world has and whose names normalize to `name`.
pub open spec fn features_named(g: GameView, ids: Seq<Seq<char>>, name: Seq<char>) -> Seq<Seq<char>>
    decreases ids.len(),
{
    if ids.len() == 0 {
        Seq::empty()
    } else {
        let rest = features_named(g, ids.drop_last(), name);
        match lookup(g.world.features, ids.last()) {
            Some(feature) => if normalized_name(feature.name) == name {
                rest.push(ids.last())
            } else {
                rest
            },
            None => rest,
        }
    }
}

/// Those of the non-player characters `ids` that the world has and whose names normalize
/// to `name`.
pub open spec fn npcs_named(g: GameView, ids: Seq<Seq<char>>, name: Seq<char>) -> Seq<Seq<char>>
    decreases ids.len(),
{
    if ids.len() == 0 {
        Seq::empty()
    } else {
        let rest = npcs_named(g, ids.drop_last(), name);
        match lookup(g.world.npcs, ids.last()) {
            Some(npc) => if normalized_name(npc.name) == name {
                rest.push(ids.last())
            } else {
                rest
            },
            None => rest,
        }
    }
}

/// The items in the character's room whose names match `query`.
pub open spec fn matching_room_items(g: GameView, query: Seq<char>) -> Seq<Seq<char>> {
    match lookup(g.world.rooms, g.character.current_room) {
        None => Seq::empty(),
        Some(room) => items_named(
            g,
            items_at(g.world.item_placements, ItemLocationView::Room(room.id)),
            normalized_name(query),
        ),
    }
}

/// The items the character carries whose names match `query`.
pub open spec fn matching_inventory_items(g: GameView, query: Seq<char>) -> Seq<Seq<char>> {
    items_named(
        g,
        items_at(g.world.item_placements, ItemLocationView::CarriedBy(g.character.id)),
        normalized_name(query),
    )
}

/// The items in the room, then those carried, whose names match `query`.
pub open spec fn matching_accessible_items(g: GameView, query: Seq<char>) -> Seq<Seq<char>> {
    matching_room_items(g, query) + matching_inventory_items(g, query)
}

/// The features of the character's room whose names match `query`.
pub open spec fn matching_room_features(g: GameView, query: Seq<char>) -> Seq<Seq<char>> {
    match lookup(g.world.rooms, g.character.current_room) {
        None => Seq::empty(),
        Some(room) => features_named(g, room.features, normalized_name(query)),
    }
}

/// The non-player characters in the character's room whose names match `query`.
pub open spec fn matching_room_npcs(g: GameView, query: Seq<char>) -> Seq<Seq<char>> {
    match lookup(g.world.rooms, g.character.current_room) {
        None => Seq::empty(),
        Some(room) => npcs_named(g, room.npcs, normalized_name(query)),
    }
}

/// The view of something that can be examined.
pub enum ExamineTargetView {
    Item(Seq<char>),
    Feature(Seq<char>),
    Npc(Seq<char>),
}

/// The kind of an examination target.
pub open spec fn target_kind(target: ExamineTargetView) -> TargetKind {
    match target {
        ExamineTargetView::Item(_) => TargetKind::Item,
        ExamineTargetView::Feature(_) => TargetKind::Feature,
        ExamineTargetView::Npc(_) => TargetKind::Npc,
    }
}

/// Items as examination targets.
pub open spec fn item_targets(ids: Seq<Seq<char>>) -> Seq<ExamineTargetView> {
    ids.map_values(|id: Seq<char>| ExamineTargetView::Item(id))
}

/// Features as examination targets.
pub open spec fn feature_targets(ids: Seq<Seq<char>>) -> Seq<ExamineTargetView> {
    ids.map_values(|id: Seq<char>| ExamineTargetView::Feature(id))
}

/// Non-player characters as examination targets.
pub open spec fn npc_targets(ids: Seq<Seq<char>>) -> Seq<ExamineTargetView> {
    ids.map_values(|id: Seq<char>| ExamineTargetView::Npc(id))
}

/// The kinds of examination targets.
pub open spec fn target_kinds(targets: Seq<ExamineTargetView>) -> Seq<TargetKind> {
    targets.map_values(|t: ExamineTargetView| target_kind(t))
}

/// The things matching `query` that can be examined: accessible items, then room features,
/// then non-player characters, each kind only when the query allows it.
pub open spec fn matching_examine_targets(g: GameView, query: TargetQueryView) -> Seq<ExamineTargetView> {
    let items = if query.kind is None || query.kind == Some(TargetKind::Item) {
        item_targets(matching_accessible_items(g, query.name))
    } else {
        Seq::empty()
    };
    let features = if query.kind is None || query.kind == Some(TargetKind::Feature) {
        feature_targets(matching_room_features(g, query.name))
    } else {
        Seq::empty()
    };
    let npcs = if query.kind is None || query.kind == Some(TargetKind::Npc) {
        npc_targets(matching_room_npcs(g, query.name))
    } else {
        Seq::empty()
    };
    items + features + npcs
}

// ----- actions -----

/// Moving in `direction`: through an exit whose requirements the character meets, then
/// looking around and settling quests; otherwise a failure, changing nothing.
pub open spec fn attempt_move(g: GameView, direction: Direction) -> (GameView, Seq<GameEventView>) {
    let failed = seq![
        GameEventView::MovementFailed {
            character_id: g.character.id,
            room_id: g.character.current_room,
            direction,
        }
    ];
    match lookup(g.world.rooms, g.character.current_room) {
        None => (g, failed),
        Some(room) => match lookup(room.exits, direction) {
            None => (g, failed),
            Some(exit) => if !requirements_met(g, exit) {
                (
                    g,
                    seq![
                        GameEventView::MovementBlocked {
                            character_id: g.character.id,
                            room_id: g.character.current_room,
                            direction,
                            message: match exit.failure_message {
                                Some(m) => m,
                                None => "You cannot pass that way."@,
                            },
                        }
                    ],
                )
            } else {
                let moved = GameView {
                    character: CharacterView { current_room: exit.destination, ..g.character },
                    ..g
                };
                let (settled, quest_events) = settle(moved);
                let look = match observe_room(settled) {
                    Some(e) => seq![e],
                    None => Seq::empty(),
                };
                (
                    settled,
                    seq![
                        GameEventView::CharacterMoved {
                            character_id: g.character.id,
                            from: g.character.current_room,
                            to: exit.destination,
                            direction,
                        }
                    ] + look + quest_events,
                )
            },
        },
    }
}

/// The game with the item placements set to `placements`.
pub open spec fn with_placements(g: GameView, placements: Seq<super::item_location::ItemPlacementView>) -> GameView {
    GameView { world: WorldView { item_placements: placements, ..g.world }, ..g }
}

/// Taking an item from the room: the picked match goes to the character, then quests settle.
pub open spec fn attempt_take(g: GameView, query: TargetQueryView) -> (GameView, Seq<GameEventView>) {
    let name = normalized_name(query.name);
    let fail = |reason: TakeFailureReason|
        seq![
            GameEventView::TakeFailed {
                character_id: g.character.id,
                room_id: g.character.current_room,
                query: name,
                reason,
            }
        ];
    let matches = matching_room_items(g, name);
    match select(matches.len(), query.ordinal) {
        Selection::NotFound => (g, fail(TakeFailureReason::NotFound)),
        Selection::Ambiguous(n) => (g, fail(TakeFailureReason::Ambiguous { match_count: n })),
        Selection::OutOfRange(r, a) => (
            g,
            fail(TakeFailureReason::OrdinalOutOfRange { requested: r, available: a }),
        ),
        Selection::Picked(i) => {
            let item_id = matches[i];
            match lookup(g.world.items, item_id) {
                None => (g, fail(TakeFailureReason::NotFound)),
                Some(item) => if lookup(g.world.rooms, g.character.current_room) is None
                    || location_of(g.world.item_placements, item_id) is None {
                    (g, fail(TakeFailureReason::NotFound))
                } else {
                    let moved = with_placements(
                        g,
                        placements_after_move(
                            g.world.item_placements,
                            item_id,
                            ItemLocationView::CarriedBy(g.character.id),
                        ),
                    );
                    let (settled, quest_events) = settle(moved);
                    (
                        settled,
                        seq![
                            GameEventView::ItemTaken {
                                character_id: g.character.id,
                                room_id: g.character.current_room,
                                item: ObservedItemView { id: item.id, name: item.name },
                            }
                        ] + quest_events,
                    )
                },
            }
        },
    }
}

/// Dropping a carried item into the room.
pub open spec fn attempt_drop(g: GameView, query: TargetQueryView) -> (GameView, Seq<GameEventView>) {
    let name = normalized_name(query.name);
    let fail = |reason: DropFailureReason|
        seq![
            GameEventView::DropFailed {
                character_id: g.character.id,
                room_id: g.character.current_room,
                query: name,
                reason,
            }
        ];
    let matches = matching_inventory_items(g, name);
    match select(matches.len(), query.ordinal) {
        Selection::NotFound => (g, fail(DropFailureReason::NotFound)),
        Selection::Ambiguous(n) => (g, fail(DropFailureReason::Ambiguous { match_count: n })),
        Selection::OutOfRange(r, a) => (
            g,
            fail(DropFailureReason::OrdinalOutOfRange { requested: r, available: a }),
        ),
        Selection::Picked(i) => {
            let item_id = matches[i];
            match lookup(g.world.items, item_id) {
                None => (g, fail(DropFailureReason::NotFound)),
                Some(item) => if !carries(g, item_id) || lookup(
                    g.world.rooms,
                    g.character.current_room,
                ) is None {
                    (g, fail(DropFailureReason::NotFound))
                } else {
                    (
                        with_placements(
                            g,
                            placements_after_move(
                                g.world.item_placements,
                                item_id,
                                ItemLocationView::Room(g.character.current_room),
                            ),
                        ),
                        seq![
                            GameEventView::ItemDropped {
                                character_id: g.character.id,
                                room_id: g.character.current_room,
                                item: ObservedItemView { id: item.id, name: item.name },
                            }
                        ],
                    )
                },
            }
        },
    }
}

/// Talking to a non-player character in the room: its greeting and the topics available.
pub open spec fn attempt_talk(g: GameView, query: TargetQueryView) -> Seq<GameEventView> {
    let name = normalized_name(query.name);
    let fail = |reason: TalkFailureReason|
        seq![GameEventView::TalkFailed { character_id: g.character.id, query: name, reason }];
    let matches = matching_room_npcs(g, name);
    match select(matches.len(), query.ordinal) {
        Selection::NotFound => fail(TalkFailureReason::NotFound),
        Selection::Ambiguous(n) => fail(TalkFailureReason::Ambiguous { match_count: n }),
        Selection::OutOfRange(r, a) => fail(
            TalkFailureReason::OrdinalOutOfRange { requested: r, available: a },
        ),
        Selection::Picked(i) => match lookup(g.world.npcs, matches[i]) {
            None => fail(TalkFailureReason::NotFound),
            Some(npc) => seq![
                GameEventView::NpcSpoke {
                    character_id: g.character.id,
                    npc_id: npc.id,
                    name: npc.name,
                    greeting: npc.greeting,
                    topics: available_topic_names(g, npc.topics),
                }
            ],
        },
    }
}

/// The first of `topics` that may be raised and whose name normalizes to `name`.
pub open spec fn find_topic(g: GameView, topics: Seq<NpcTopicView>, name: Seq<char>) -> Option<
    NpcTopicView,
>
    decreases topics.len(),
{
    if topics.len() == 0 {
        None
    } else if topic_available(g, topics[0]) && normalized_name(topics[0].name) == name {
        Some(topics[0])
    } else {
        find_topic(g, topics.drop_first(), name)
    }
}

/// The character's facts after learning the world's facts `facts` in order, and the facts
/// that were new.
pub open spec fn learn_facts(g: GameView, facts: Seq<Seq<char>>) -> (Seq<FactKeyView>, Seq<FactKeyView>)
    decreases facts.len(),
{
    if facts.len() == 0 {
        (g.character.facts, Seq::empty())
    } else {
        let (known, learned) = learn_facts(g, facts.drop_last());
        let key = fact_key(g, facts.last());
        if known.contains(key) {
            (known, learned)
        } else {
            (known.push(key), learned.push(key))
        }
    }
}

/// Starting the world's quests `quests` in order: those not yet tracked and that the world
/// has begin at their starting step.
pub open spec fn start_quests(g: GameView, quests: Seq<Seq<char>>) -> (GameView, Seq<GameEventView>)
    decreases quests.len(),
{
    if quests.len() == 0 {
        (g, Seq::empty())
    } else {
        let (g1, e1) = start_quests(g, quests.drop_last());
        let key = quest_key(g1, quests.last());
        if lookup(g1.character.quests, key) is Some {
            (g1, e1)
        } else {
            match lookup(g1.world.quests, quests.last()) {
                None => (g1, e1),
                Some(quest) => (
                    with_quests(
                        g1,
                        table_insert(
                            g1.character.quests,
                            key,
                            QuestProgressView {
                                status: QuestStatus::Active,
                                current_step: quest.starting_step,
                            },
                        ),
                    ),
                    e1.push(
                        GameEventView::QuestStarted {
                            character_id: g1.character.id,
                            quest: ObservedQuestView {
                                key,
                                name: quest.name,
                                description: quest.description,
                                current_objective: match find_step(
                                    quest.steps,
                                    quest.starting_step,
                                ) {
                                    Some(step) => Some(step.description),
                                    None => None,
                                },
                            },
                        },
                    ),
                ),
            }
        }
    }
}

/// Asking a non-player character in the room about one of its available topics: its answer,
/// the facts learned, the quests started, and the quest transitions that follow.
pub open spec fn attempt_ask(g: GameView, query: AskQueryView) -> (GameView, Seq<GameEventView>) {
    let npc_query = normalized_name(query.npc.name);
    let topic_query = normalized_name(query.topic);
    let fail = |reason: AskFailureReasonView|
        seq![
            GameEventView::AskFailed {
                character_id: g.character.id,
                npc_query,
                topic_query,
                reason,
            }
        ];
    let matches = matching_room_npcs(g, npc_query);
    match select(matches.len(), query.npc.ordinal) {
        Selection::NotFound => (g, fail(AskFailureReasonView::NpcNotFound)),
        Selection::Ambiguous(n) => (g, fail(AskFailureReasonView::NpcAmbiguous { match_count: n })),
        Selection::OutOfRange(r, a) => (
            g,
            fail(AskFailureReasonView::NpcOrdinalOutOfRange { requested: r, available: a }),
        ),
        Selection::Picked(i) => match lookup(g.world.npcs, matches[i]) {
            None => (g, fail(AskFailureReasonView::NpcNotFound)),
            Some(npc) => match find_topic(g, npc.topics, topic_query) {
                None => (g, fail(AskFailureReasonView::TopicNotFound { npc_name: npc.name })),
                Some(topic) => {
                    let previous = available_topic_names(g, npc.topics);
                    let (facts, learned) = learn_facts(g, topic.grants_facts);
                    let g1 = GameView { character: CharacterView { facts, ..g.character }, ..g };
                    let current = match lookup(g1.world.npcs, npc.id) {
                        Some(n) => available_topic_names(g1, n.topics),
                        None => Seq::empty(),
                    };
                    let answered = GameEventView::NpcAnswered {
                        character_id: g.character.id,
                        npc_id: npc.id,
                        npc_name: npc.name,
                        topic_id: topic.id,
                        topic_name: topic.name,
                        response: topic.response,
                        learned_facts: learned,
                        updated_topics: if previous != current {
                            Some(current)
                        } else {
                            None
                        },
                    };
                    let (g2, started) = start_quests(g1, topic.starts_quests);
                    let (g3, e3) = settle(g2);
                    let (g4, e4) = apply_transitions(
                        g3,
                        quests_asking(g3, g3.character.quests, npc.id, topic.id),
                    );
                    let (g5, e5) = settle(g4);
                    (g5, seq![answered] + started + e3 + e4 + e5)
                },
            },
        },
    }
}

/// The items on a feature, as examined.
pub open spec fn feature_items(g: GameView, feature: Seq<char>) -> Seq<ObservedItemView> {
    known_items(g, items_at(g.world.item_placements, ItemLocationView::OnFeature(feature)))
}

/// A failed examination.
pub open spec fn examine_failed(g: GameView, name: Seq<char>, reason: ExamineFailureReasonView) -> Seq<
    GameEventView,
> {
    seq![GameEventView::ExamineFailed { character_id: g.character.id, query: name, reason }]
}

/// Examining an accessible item, a room feature or a non-player character in the room.
pub open spec fn attempt_examine(g: GameView, query: TargetQueryView) -> Seq<GameEventView> {
    let name = normalized_name(query.name);
    let matches = matching_examine_targets(g, TargetQueryView { name, ..query });
    match select(matches.len(), query.ordinal) {
        Selection::NotFound => examine_failed(g, name, ExamineFailureReasonView::NotFound),
        Selection::Ambiguous(_) => examine_failed(
            g,
            name,
            ExamineFailureReasonView::Ambiguous { kinds: target_kinds(matches) },
        ),
        Selection::OutOfRange(r, a) => examine_failed(
            g,
            name,
            ExamineFailureReasonView::OrdinalOutOfRange { requested: r, available: a },
        ),
        Selection::Picked(i) => examine_target(g, matches[i], name),
    }
}

/// Examining one target.
pub open spec fn examine_target(g: GameView, target: ExamineTargetView, name: Seq<char>) -> Seq<
    GameEventView,
> {
    let fail = examine_failed(g, name, ExamineFailureReasonView::NotFound);
    match target {
            ExamineTargetView::Item(id) => match lookup(g.world.items, id) {
                None => fail,
                Some(item) => seq![
                    GameEventView::ItemExamined {
                        character_id: g.character.id,
                        item: ExaminedItemView {
                            id: item.id,
                            name: item.name,
                            description: item.description,
                        },
                    }
                ],
            },
            ExamineTargetView::Feature(id) => match lookup(g.world.features, id) {
                None => fail,
                Some(feature) => seq![
                    GameEventView::FeatureExamined {
                        character_id: g.character.id,
                        feature: ExaminedFeatureView {
                            id: feature.id,
                            name: feature.name,
                            description: feature.description,
                            items: feature_items(g, feature.id),
                        },
                    }
                ],
            },
            ExamineTargetView::Npc(id) => match lookup(g.world.npcs, id) {
                None => fail,
                Some(npc) => seq![
                    GameEventView::NpcExamined {
                        character_id: g.character.id,
                        npc: ExaminedNpcView {
                            id: npc.id,
                            name: npc.name,
                            description: npc.description,
                        },
                    }
                ],
            },
    }
}

/// An optional event as a sequence of zero or one events.
pub open spec fn opt_events(e: Option<GameEventView>) -> Seq<GameEventView> {
    match e {
        Some(e) => seq![e],
        None => Seq::empty(),
    }
}

/// What a command does: the game afterwards and the events to report.
pub open spec fn process(g: GameView, command: CommandView) -> (GameView, Seq<GameEventView>) {
    match command {
        CommandView::Look => (g, opt_events(observe_room(g))),
        CommandView::Exits => (g, opt_events(observe_exits(g))),
        CommandView::Help => (g, seq![GameEventView::HelpRequested]),
        CommandView::Move(d) => attempt_move(g, d),
        CommandView::Take(q) => attempt_take(g, q),
        CommandView::Inventory => (g, opt_events(observe_inventory(g))),
        CommandView::Quests => (g, seq![observe_quests(g)]),
        CommandView::Drop(q) => attempt_drop(g, q),
        CommandView::Examine(q) => (g, attempt_examine(g, q)),
        CommandView::Talk(q) => (g, attempt_talk(g, q)),
        CommandView::Ask(q) => attempt_ask(g, q),
    }
}


/// Whether quests come to rest after a move: when the character gets through the exit,
/// rounds of transitions from there come to rest.
pub open spec fn move_settles(g: GameView, direction: Direction) -> bool {
    match lookup(g.world.rooms, g.character.current_room) {
        None => true,
        Some(room) => match lookup(room.exits, direction) {
            None => true,
            Some(exit) => !requirements_met(g, exit) || settles(
                GameView {
                    character: CharacterView { current_room: exit.destination, ..g.character },
                    ..g
                },
            ),
        },
    }
}

/// Whether quests come to rest after a take: when an item is taken, rounds of transitions
/// from there come to rest.
pub open spec fn take_settles(g: GameView, query: TargetQueryView) -> bool {
    let matches = matching_room_items(g, normalized_name(query.name));
    match select(matches.len(), query.ordinal) {
        Selection::Picked(i) => {
            let item_id = matches[i];
            lookup(g.world.items, item_id) is None || lookup(
                g.world.rooms,
                g.character.current_room,
            ) is None || location_of(g.world.item_placements, item_id) is None || settles(
                with_placements(
                    g,
                    placements_after_move(
                        g.world.item_placements,
                        item_id,
                        ItemLocationView::CarriedBy(g.character.id),
                    ),
                ),
            )
        },
        _ => true,
    }
}

/// Whether quests come to rest after a question is answered: both times transitions run
/// after the answer, they come to rest.
pub open spec fn ask_settles(g: GameView, query: AskQueryView) -> bool {
    let matches = matching_room_npcs(g, normalized_name(query.npc.name));
    match select(matches.len(), query.npc.ordinal) {
        Selection::Picked(i) => match lookup(g.world.npcs, matches[i]) {
            None => true,
            Some(npc) => match find_topic(g, npc.topics, normalized_name(query.topic)) {
                None => true,
                Some(topic) => {
                    let (facts, learned) = learn_facts(g, topic.grants_facts);
                    let g1 = GameView { character: CharacterView { facts, ..g.character }, ..g };
                    let g2 = start_quests(g1, topic.starts_quests).0;
                    let g3 = settle(g2).0;
                    let g4 = apply_transitions(
                        g3,
                        quests_asking(g3, g3.character.quests, npc.id, topic.id),
                    ).0;
                    settles(g2) && settles(g4)
                },
            },
        },
        _ => true,
    }
}

/// Whether every time a command runs quest transitions, they come to rest.
pub open spec fn command_settles(g: GameView, command: CommandView) -> bool {
    match command {
        CommandView::Move(d) => move_settles(g, d),
        CommandView::Take(q) => take_settles(g, q),
        CommandView::Ask(q) => ask_settles(g, q),
        _ => true,
    }
}

} // verus!
