use vstd::prelude::*;

use super::character::Character;
use super::event::{text_views, GameEvent, ObservedQuest};
use super::exit::views;
use super::ids::{FactId, FactKey, QuestKey};
use super::npc::{NpcTopic, NpcTopicView};
use super::quest::{find_step, QuestProgress, QuestStatus};
use super::event::ObservedQuestView;
use super::exit::opt_view;
use super::quest::QuestProgressView;
use super::rules::{
    active_step_objective, apply_transition, apply_transitions, apply_transitions_in_order,
    available_topic_names, knows, objective_met, observed_quest, quests_asking, quests_end,
    satisfied_quests, settle, settle_rounds, topic_available, GameView, settles,
    rounds_done, move_settles, take_settles, ask_settles, command_settles,
    chain_length, quest_chains_end,
};
use super::ids::{NpcId, NpcTopicId, QuestKeyView};
use super::quest::QuestObjective;
use super::table::keys_unique;
use super::table::Table;
use super::item_location::ItemLocation;
use crate::order::{seq_views, sort_by_text, sorted_by_text};
use super::direction::Direction;
use super::event::{ObservedFeature, ObservedItem, ObservedItemView, ObservedNpc};
use super::rules::{
    known_items, observe_exits, observe_inventory, observe_quests, observe_room,
    observed_features, observed_items, observed_npcs, observed_quests_with,
};
use super::table::{lookup, table_keys};
use super::command::{Ordinal, TargetQuery};
use super::rules::{
    attempt_drop, attempt_move, attempt_take, features_named, items_named,
    matching_accessible_items, matching_inventory_items, matching_room_features,
    matching_room_items, matching_room_npcs, npcs_named, requirement_met, requirements_met,
    select, Selection,
};
use super::naming::{normalize_name, normalized_name};
use super::event::{DropFailureReason, TakeFailureReason};
use super::ids::{FeatureId, ItemId};
use super::command::{AskQuery, Command, TargetKind};
use super::event::{
    AskFailureReason, ExamineFailureReason, ExaminedFeature, ExaminedItem, ExaminedNpc,
    TalkFailureReason,
};
use super::rules::{
    attempt_ask, attempt_examine, attempt_talk, find_topic, learn_facts, matching_examine_targets,
    process, start_quests, target_kind, ExamineTargetView, examine_target, feature_targets,
    item_targets, npc_targets, target_kinds,
};
use super::world::World;

verus! {

/// A game: a world and the player's character in it.
#[derive(Debug)]
pub struct Game {
    pub world: World,
    pub character: Character,
}

impl View for Game {
    type V = GameView;

    open spec fn view(&self) -> GameView {
        GameView { world: self.world@, character: self.character@ }
    }
}

/// No events.
pub fn no_events() -> (events: Vec<GameEvent>)
    ensures
        views(events@) == Seq::<super::event::GameEventView>::empty(),
{
    let events: Vec<GameEvent> = Vec::new();
    assert(views(events@) =~= Seq::<super::event::GameEventView>::empty());
    events
}

/// One event.
pub fn one_event(event: GameEvent) -> (events: Vec<GameEvent>)
    ensures
        views(events@) == seq![event@],
{
    let mut events: Vec<GameEvent> = Vec::new();
    events.push(event);
    assert(views(events@) =~= seq![event@]);
    events
}

impl Game {
    /// A game in `world` played by `character`.
    pub fn new(world: World, character: Character) -> (game: Self)
        ensures
            game@ == (GameView { world: world@, character: character@ }),
    {
        Self { world, character }
    }

    /// Whether the character knows the world's fact `fact`.
    pub fn knows_fact(&self, fact: &FactId) -> (known: bool)
        ensures
            known == knows(self@, fact@),
    {
        let key = FactKey { world_id: self.world.id.clone(), fact_id: fact.clone() };
        self.character.facts.contains(&key)
    }

    /// Whether a topic may be raised now.
    pub fn topic_is_available(&self, topic: &NpcTopic) -> (available: bool)
        ensures
            available == topic_available(self@, topic@),
    {
        let n = topic.requires_facts.len();
        for i in 0..n
            invariant
                n == topic@.requires_facts.len(),
                forall|j: int| 0 <= j < i ==> knows(self@, topic@.requires_facts[j]),
        {
            assert(topic@.requires_facts[i as int] == topic.requires_facts[i as int]@);
            if !self.knows_fact(&topic.requires_facts[i]) {
                assert(!knows(self@, topic@.requires_facts[i as int]));
                return false;
            }
        }
        let m = topic.excludes_facts.len();
        for i in 0..m
            invariant
                n == topic@.requires_facts.len(),
                m == topic@.excludes_facts.len(),
                forall|j: int| 0 <= j < n ==> knows(self@, topic@.requires_facts[j]),
                forall|j: int| 0 <= j < i ==> !knows(self@, topic@.excludes_facts[j]),
        {
            assert(topic@.excludes_facts[i as int] == topic.excludes_facts[i as int]@);
            if self.knows_fact(&topic.excludes_facts[i]) {
                assert(knows(self@, topic@.excludes_facts[i as int]));
                return false;
            }
        }
        true
    }

    /// The names of the topics that may be raised now, in order.
    pub fn available_topic_names(&self, topics: &Vec<NpcTopic>) -> (names: Vec<String>)
        ensures
            text_views(names@) == available_topic_names(self@, views(topics@)),
    {
        let mut names: Vec<String> = Vec::new();
        let n = topics.len();
        for i in 0..n
            invariant
                n == topics@.len(),
                text_views(names@) == available_topic_names(self@, views(topics@).take(i as int)),
        {
            let ghost prefix = views(topics@).take(i as int);
            let ghost next = views(topics@).take(i + 1);
            assert(next.drop_last() =~= prefix);
            assert(next.last() == topics@[i as int]@);
            if self.topic_is_available(&topics[i]) {
                names.push(topics[i].name.clone());
                assert(text_views(names@) =~= available_topic_names(self@, prefix).push(
                    next.last().name,
                ));
            }
        }
        assert(views(topics@).take(n as int) =~= views(topics@));
        names
    }

    /// How a tracked quest looks to the player, when it belongs to this world and the world
    /// has it.
    pub fn observed_quest(&self, key: &QuestKey, progress: &QuestProgress) -> (observed: Option<
        ObservedQuest,
    >)
        ensures
            opt_view(observed) == observed_quest(self@, key@, progress@),
    {
        if !(key.world_id.0 == self.world.id.0) {
            return None;
        }
        let quest = match self.world.quest(&key.quest_id) {
            Some(q) => q,
            None => {
                return None;
            },
        };
        let current_objective = match progress.status {
            QuestStatus::Active => match quest.step(&progress.current_step) {
                Some(step) => Some(step.description.clone()),
                None => None,
            },
            QuestStatus::Completed => None,
        };
        Some(
            ObservedQuest {
                key: key.clone(),
                name: quest.name.clone(),
                description: quest.description.clone(),
                current_objective,
            },
        )
    }

    /// Moves the tracked quest `key` past its current step.
    pub fn apply_quest_transition(&mut self, key: &QuestKey) -> (events: Vec<GameEvent>)
        ensures
            (final(self)@, views(events@)) == apply_transition(old(self)@, key@),
    {
        let next = match self.character.quests.get(key) {
            None => {
                return no_events();
            },
            Some(progress) => match self.world.quest(&key.quest_id) {
                None => {
                    return no_events();
                },
                Some(quest) => match quest.step(&progress.current_step) {
                    None => {
                        return no_events();
                    },
                    Some(step) => match &step.next_step {
                        Some(next_step) => QuestProgress {
                            status: progress.status,
                            current_step: next_step.clone(),
                        },
                        None => QuestProgress {
                            status: QuestStatus::Completed,
                            current_step: progress.current_step.clone(),
                        },
                    },
                },
            },
        };
        self.character.quests.insert(key.clone(), next.clone());
        let mut events: Vec<GameEvent> = Vec::new();
        match self.observed_quest(key, &next) {
            None => {},
            Some(quest) => {
                let event = match next.status {
                    QuestStatus::Active => GameEvent::QuestAdvanced {
                        character_id: self.character.id.clone(),
                        quest,
                    },
                    QuestStatus::Completed => GameEvent::QuestCompleted {
                        character_id: self.character.id.clone(),
                        quest,
                    },
                };
                events.push(event);
            },
        }
        assert(views(events@) =~= apply_transition(old(self)@, key@).1);
        events
    }

    /// Moves each of the tracked quests `keys` past its current step, in the order of their
    /// quest identifiers.
    pub fn apply_quest_transitions(&mut self, keys: Vec<QuestKey>) -> (events: Vec<GameEvent>)
        ensures
            (final(self)@, views(events@)) == apply_transitions(old(self)@, views(keys@)),
    {
        let sorted = sort_by_text(keys);
        assert(views(keys@) =~= seq_views(keys@));
        assert(views(sorted@) =~= seq_views(sorted@));
        let ghost order = views(sorted@);
        let mut events: Vec<GameEvent> = Vec::new();
        let n = sorted.len();
        assert(order.take(0) =~= Seq::<QuestKeyView>::empty());
        assert(views(events@) =~= Seq::<super::event::GameEventView>::empty());
        for i in 0..n
            invariant
                n == order.len(),
                order == views(sorted@),
                (self@, views(events@)) == apply_transitions_in_order(
                    old(self)@,
                    order.take(i as int),
                ),
        {
            assert(order.take(i + 1).drop_last() =~= order.take(i as int));
            assert(order.take(i + 1).last() == sorted@[i as int]@);
            let more = self.apply_quest_transition(&sorted[i]);
            let ghost before = events@;
            let mut more = more;
            events.append(&mut more);
            assert(views(events@) =~= views(before) + views(more@).take(0) + apply_transition(
                apply_transitions_in_order(old(self)@, order.take(i as int)).0,
                sorted@[i as int]@,
            ).1);
        }
        assert(order.take(n as int) =~= order);
        events
    }

    /// Whether the character carries the item `item`.
    pub fn carries(&self, item: &super::ids::ItemId) -> (carried: bool)
        ensures
            carried == super::rules::carries(self@, item@),
    {
        match self.world.item_location(item) {
            Some(location) => super::world::same_location(
                location,
                &ItemLocation::CarriedBy(self.character.id.clone()),
            ),
            None => false,
        }
    }

    /// The objective of the current step of the tracked quest `key`, when it is an active
    /// quest of this world and the world has its step.
    pub fn active_objective(&self, key: &QuestKey, progress: &QuestProgress) -> (objective:
        Option<&QuestObjective>)
        ensures
            super::world::opt_ref_view(objective) == active_step_objective(
                self@,
                key@,
                progress@,
            ),
    {
        if !(key.world_id.0 == self.world.id.0) {
            return None;
        }
        match progress.status {
            QuestStatus::Completed => {
                return None;
            },
            QuestStatus::Active => {},
        }
        match self.world.quest(&key.quest_id) {
            None => None,
            Some(quest) => match quest.step(&progress.current_step) {
                None => None,
                Some(step) => Some(&step.objective),
            },
        }
    }

    /// The tracked quests whose current objective the character's state meets, in table
    /// order.
    pub fn satisfied_quest_keys(&self) -> (keys: Vec<QuestKey>)
        ensures
            views(keys@) == satisfied_quests(self@, self@.character.quests),
    {
        let mut keys: Vec<QuestKey> = Vec::new();
        let n = self.character.quests.len();
        let ghost entries = self@.character.quests;
        for i in 0..n
            invariant
                n == entries.len(),
                entries == self@.character.quests,
                views(keys@) == satisfied_quests(self@, entries.take(i as int)),
        {
            let key = self.character.quests.key_at(i);
            let progress = self.character.quests.value_at(i);
            assert(entries.take(i + 1).drop_last() =~= entries.take(i as int));
            assert(entries.take(i + 1).last() == (key@, progress@));
            let met = match self.active_objective(key, progress) {
                None => false,
                Some(QuestObjective::ReachRoom(room)) => room.0 == self.character.current_room.0,
                Some(QuestObjective::PossessItem(item)) => self.carries(item),
                Some(QuestObjective::AskTopic { .. }) => false,
            };
            if met {
                keys.push(key.clone());
                assert(views(keys@) =~= satisfied_quests(self@, entries.take(i as int)).push(key@));
            }
        }
        assert(entries.take(n as int) =~= entries);
        keys
    }

    /// Advances quests whose objectives the character's state meets, round after round,
    /// until none is met; the rounds must come to rest.
    pub fn settle_state_based_quest_objectives(&mut self) -> (events: Vec<GameEvent>)
        requires
            settles(old(self)@),
        ensures
            (final(self)@, views(events@)) == settle(old(self)@),
            final(self)@.world == old(self)@.world,
    {
        let ghost g0 = self@;
        let ghost mut fuel: nat = choose|fuel: nat| rounds_done(g0, fuel);
        let mut events = no_events();
        loop
            invariant
                self@.world == g0.world,
                rounds_done(self@, fuel),
                settle(g0) == (settle_rounds(self@, fuel).0, views(events@) + settle_rounds(
                    self@,
                    fuel,
                ).1),
            ensures
                settle(g0) == (self@, views(events@)),
                self@.world == g0.world,
            decreases fuel,
        {
            let keys = self.satisfied_quest_keys();
            if keys.len() == 0 {
                assert(views(events@) + Seq::<super::event::GameEventView>::empty() =~= views(
                    events@,
                ));
                break ;
            }
            assert(fuel > 0);
            let ghost before = self@;
            let ghost before_events = views(events@);
            proof {
                lemma_transitions_keep_world(before, views(keys@));
            }
            let mut more = self.apply_quest_transitions(keys);
            let ghost added = views(more@);
            events.append(&mut more);
            proof {
                let rest = settle_rounds(self@, (fuel - 1) as nat);
                assert(views(events@) =~= before_events + added);
                assert(before_events + (added + rest.1) =~= views(events@) + rest.1);
                fuel = (fuel - 1) as nat;
            }
        }
        events
    }

    /// Moves the quests whose current objective is asking `npc_id` about `topic_id` past
    /// that step.
    pub fn update_quests_for_topic(&mut self, npc_id: &NpcId, topic_id: &NpcTopicId) -> (events:
        Vec<GameEvent>)
        ensures
            (final(self)@, views(events@)) == apply_transitions(
                old(self)@,
                quests_asking(old(self)@, old(self)@.character.quests, npc_id@, topic_id@),
            ),
    {
        let mut keys: Vec<QuestKey> = Vec::new();
        let n = self.character.quests.len();
        let ghost entries = self@.character.quests;
        for i in 0..n
            invariant
                n == entries.len(),
                entries == self@.character.quests,
                views(keys@) == quests_asking(self@, entries.take(i as int), npc_id@, topic_id@),
        {
            let key = self.character.quests.key_at(i);
            let progress = self.character.quests.value_at(i);
            assert(entries.take(i + 1).drop_last() =~= entries.take(i as int));
            assert(entries.take(i + 1).last() == (key@, progress@));
            let asked = match self.active_objective(key, progress) {
                Some(QuestObjective::AskTopic { npc_id: target_npc, topic_id: target_topic }) =>
                    target_npc.0 == npc_id.0 && target_topic.0 == topic_id.0,
                _ => false,
            };
            if asked {
                keys.push(key.clone());
                assert(views(keys@) =~= quests_asking(self@, entries.take(i as int), npc_id@, topic_id@).push(key@));
            }
        }
        assert(entries.take(n as int) =~= entries);
        self.apply_quest_transitions(keys)
    }

    /// Observations of the items `ids`; `None` when the world lacks one of them.
    pub fn observe_items(&self, ids: &Vec<super::ids::ItemId>) -> (items: Option<Vec<ObservedItem>>)
        ensures
            match items {
                Some(v) => observed_items(self@, views(ids@)) == Some(views(v@)),
                None => observed_items(self@, views(ids@)) is None,
            },
    {
        let mut items: Vec<ObservedItem> = Vec::new();
        let n = ids.len();
        for i in 0..n
            invariant
                n == ids@.len(),
                observed_items(self@, views(ids@).take(i as int)) == Some(views(items@)),
        {
            let ghost prefix = views(ids@).take(i as int);
            assert(views(ids@).take(i + 1).drop_last() =~= prefix);
            assert(views(ids@).take(i + 1).last() == ids@[i as int]@);
            match self.world.item(&ids[i]) {
                Some(item) => {
                    items.push(ObservedItem { id: item.id.clone(), name: item.name.clone() });
                    assert(views(items@) =~= observed_items(self@, prefix)->0.push(
                        ObservedItemView { id: item@.id, name: item@.name },
                    ));
                },
                None => {
                    proof {
                        assert(views(ids@)[i as int] == ids@[i as int]@);
                        lemma_observed_items_missing(self@, views(ids@), i as int);
                    }
                    return None;
                },
            }
        }
        assert(views(ids@).take(n as int) =~= views(ids@));
        Some(items)
    }

    /// Observations of those of the items `ids` that the world has.
    pub fn known_items(&self, ids: &Vec<super::ids::ItemId>) -> (items: Vec<ObservedItem>)
        ensures
            views(items@) == known_items(self@, views(ids@)),
    {
        let mut items: Vec<ObservedItem> = Vec::new();
        let n = ids.len();
        for i in 0..n
            invariant
                n == ids@.len(),
                known_items(self@, views(ids@).take(i as int)) == views(items@),
        {
            let ghost prefix = views(ids@).take(i as int);
            assert(views(ids@).take(i + 1).drop_last() =~= prefix);
            assert(views(ids@).take(i + 1).last() == ids@[i as int]@);
            match self.world.item(&ids[i]) {
                Some(item) => {
                    items.push(ObservedItem { id: item.id.clone(), name: item.name.clone() });
                    assert(views(items@) =~= known_items(self@, prefix).push(
                        ObservedItemView { id: item@.id, name: item@.name },
                    ));
                },
                None => {},
            }
        }
        assert(views(ids@).take(n as int) =~= views(ids@));
        items
    }

    /// Observations of the features `ids` with the items on them; `None` when the world
    /// lacks one of the features.
    pub fn observe_features(&self, ids: &Vec<super::ids::FeatureId>) -> (features: Option<
        Vec<ObservedFeature>,
    >)
        ensures
            match features {
                Some(v) => observed_features(self@, views(ids@)) == Some(views(v@)),
                None => observed_features(self@, views(ids@)) is None,
            },
    {
        let mut features: Vec<ObservedFeature> = Vec::new();
        let n = ids.len();
        for i in 0..n
            invariant
                n == ids@.len(),
                observed_features(self@, views(ids@).take(i as int)) == Some(views(features@)),
        {
            let ghost prefix = views(ids@).take(i as int);
            assert(views(ids@).take(i + 1).drop_last() =~= prefix);
            assert(views(ids@).take(i + 1).last() == ids@[i as int]@);
            match self.world.feature(&ids[i]) {
                Some(feature) => {
                    let on_it = self.world.item_ids_on_feature(&feature.id);
                    let items = self.known_items(&on_it);
                    features.push(
                        ObservedFeature {
                            id: feature.id.clone(),
                            name: feature.name.clone(),
                            room_description: feature.room_description.clone(),
                            items,
                        },
                    );
                    assert(views(features@) =~= observed_features(self@, prefix)->0.push(
                        features@.last()@,
                    ));
                },
                None => {
                    proof {
                        assert(views(ids@)[i as int] == ids@[i as int]@);
                        lemma_observed_features_missing(self@, views(ids@), i as int);
                    }
                    return None;
                },
            }
        }
        assert(views(ids@).take(n as int) =~= views(ids@));
        Some(features)
    }

    /// Observations of the non-player characters `ids`; `None` when the world lacks one.
    pub fn observe_npcs(&self, ids: &Vec<NpcId>) -> (npcs: Option<Vec<ObservedNpc>>)
        ensures
            match npcs {
                Some(v) => observed_npcs(self@, views(ids@)) == Some(views(v@)),
                None => observed_npcs(self@, views(ids@)) is None,
            },
    {
        let mut npcs: Vec<ObservedNpc> = Vec::new();
        let n = ids.len();
        for i in 0..n
            invariant
                n == ids@.len(),
                observed_npcs(self@, views(ids@).take(i as int)) == Some(views(npcs@)),
        {
            let ghost prefix = views(ids@).take(i as int);
            assert(views(ids@).take(i + 1).drop_last() =~= prefix);
            assert(views(ids@).take(i + 1).last() == ids@[i as int]@);
            match self.world.npc(&ids[i]) {
                Some(npc) => {
                    npcs.push(
                        ObservedNpc {
                            id: npc.id.clone(),
                            name: npc.name.clone(),
                            room_description: npc.room_description.clone(),
                        },
                    );
                    assert(views(npcs@) =~= observed_npcs(self@, prefix)->0.push(
                        npcs@.last()@,
                    ));
                },
                None => {
                    proof {
                        assert(views(ids@)[i as int] == ids@[i as int]@);
                        lemma_observed_npcs_missing(self@, views(ids@), i as int);
                    }
                    return None;
                },
            }
        }
        assert(views(ids@).take(n as int) =~= views(ids@));
        Some(npcs)
    }

    /// The directions of a room's exits, in table order.
    pub fn exit_directions(exits: &Table<Direction, super::exit::Exit>) -> (directions: Vec<Direction>)
        ensures
            directions@ == table_keys(exits@),
    {
        let mut directions: Vec<Direction> = Vec::new();
        let n = exits.len();
        for i in 0..n
            invariant
                n == exits@.len(),
                directions@ == table_keys(exits@).take(i as int),
        {
            directions.push(*exits.key_at(i));
            assert(directions@ =~= table_keys(exits@).take(i + 1));
        }
        assert(table_keys(exits@).take(n as int) =~= table_keys(exits@));
        directions
    }

    /// What the character sees in its room.
    pub fn observe_current_room(&self) -> (event: Option<GameEvent>)
        ensures
            opt_view(event) == observe_room(self@),
    {
        let room = match self.world.room(&self.character.current_room) {
            Some(room) => room,
            None => {
                return None;
            },
        };
        let item_ids = self.world.item_ids_in_room(&room.id);
        let items = match self.observe_items(&item_ids) {
            Some(items) => items,
            None => {
                return None;
            },
        };
        let features = match self.observe_features(&room.features) {
            Some(features) => features,
            None => {
                return None;
            },
        };
        let npcs = match self.observe_npcs(&room.npcs) {
            Some(npcs) => npcs,
            None => {
                return None;
            },
        };
        Some(
            GameEvent::RoomObserved {
                room_id: room.id.clone(),
                name: room.name.clone(),
                description: room.description.clone(),
                items,
                features,
                npcs,
                exits: Self::exit_directions(&room.exits),
            },
        )
    }

    /// The exits of the character's room.
    pub fn observe_current_exits(&self) -> (event: Option<GameEvent>)
        ensures
            opt_view(event) == observe_exits(self@),
    {
        let room = match self.world.room(&self.character.current_room) {
            Some(room) => room,
            None => {
                return None;
            },
        };
        Some(
            GameEvent::ExitsObserved {
                room_id: room.id.clone(),
                exits: Self::exit_directions(&room.exits),
            },
        )
    }

    /// The items the character carries.
    pub fn observe_inventory(&self) -> (event: Option<GameEvent>)
        ensures
            opt_view(event) == observe_inventory(self@),
    {
        let ids = self.world.item_ids_carried_by(&self.character.id);
        match self.observe_items(&ids) {
            Some(items) => Some(GameEvent::InventoryObserved { items }),
            None => None,
        }
    }

    /// The quest journal: active and completed quests, each sorted by name.
    pub fn observe_quests(&self) -> (event: GameEvent)
        ensures
            event@ == observe_quests(self@),
    {
        let mut active: Vec<ObservedQuest> = Vec::new();
        let mut completed: Vec<ObservedQuest> = Vec::new();
        let n = self.character.quests.len();
        let ghost entries = self@.character.quests;
        for i in 0..n
            invariant
                n == entries.len(),
                entries == self@.character.quests,
                views(active@) == observed_quests_with(
                    self@,
                    entries.take(i as int),
                    QuestStatus::Active,
                ),
                views(completed@) == observed_quests_with(
                    self@,
                    entries.take(i as int),
                    QuestStatus::Completed,
                ),
        {
            let key = self.character.quests.key_at(i);
            let progress = self.character.quests.value_at(i);
            assert(entries.take(i + 1).drop_last() =~= entries.take(i as int));
            assert(entries.take(i + 1).last() == (key@, progress@));
            match self.observed_quest(key, progress) {
                None => {},
                Some(observed) => {
                    let ghost o = observed@;
                    match progress.status {
                        QuestStatus::Active => {
                            active.push(observed);
                            assert(views(active@) =~= observed_quests_with(
                                self@,
                                entries.take(i as int),
                                QuestStatus::Active,
                            ).push(o));
                        },
                        QuestStatus::Completed => {
                            completed.push(observed);
                            assert(views(completed@) =~= observed_quests_with(
                                self@,
                                entries.take(i as int),
                                QuestStatus::Completed,
                            ).push(o));
                        },
                    }
                },
            }
        }
        assert(entries.take(n as int) =~= entries);
        assert(views(active@) =~= seq_views(active@));
        assert(views(completed@) =~= seq_views(completed@));
        let active = sort_by_text(active);
        let completed = sort_by_text(completed);
        assert(views(active@) =~= seq_views(active@));
        assert(views(completed@) =~= seq_views(completed@));
        GameEvent::QuestsObserved { active, completed }
    }
}

/// The outcome of choosing among matches.
pub enum Pick {
    Picked(usize),
    NotFound,
    Ambiguous(usize),
    OutOfRange(usize, usize),
}

/// The selection a pick stands for.
pub open spec fn pick_view(pick: Pick) -> Selection {
    match pick {
        Pick::Picked(i) => Selection::Picked(i as int),
        Pick::NotFound => Selection::NotFound,
        Pick::Ambiguous(n) => Selection::Ambiguous(n),
        Pick::OutOfRange(r, a) => Selection::OutOfRange(r, a),
    }
}

/// The number an optional ordinal holds.
pub open spec fn ordinal_value(ordinal: Option<Ordinal>) -> Option<usize> {
    match ordinal {
        Some(o) => Some(o.spec_get()),
        None => None,
    }
}

/// Chooses among `count` matches: the numbered one, or the only one.
pub fn pick(count: usize, ordinal: Option<Ordinal>) -> (chosen: Pick)
    ensures
        pick_view(chosen) == select(count as nat, ordinal_value(ordinal)),
        chosen matches Pick::Picked(i) ==> i < count,
{
    match ordinal {
        Some(ordinal) => {
            let requested = ordinal.get();
            if requested - 1 < count {
                Pick::Picked(requested - 1)
            } else {
                Pick::OutOfRange(requested, count)
            }
        },
        None => {
            if count == 0 {
                Pick::NotFound
            } else if count == 1 {
                Pick::Picked(0)
            } else {
                Pick::Ambiguous(count)
            }
        },
    }
}

/// An observation fails when an item at or before the position is missing.
pub proof fn lemma_observed_items_missing(g: GameView, ids: Seq<Seq<char>>, i: int)
    requires
        0 <= i < ids.len(),
        super::table::lookup(g.world.items, ids[i]) is None,
    ensures
        observed_items(g, ids) is None,
    decreases ids.len(),
{
    if i < ids.len() - 1 {
        lemma_observed_items_missing(g, ids.drop_last(), i);
    }
}

/// An observation of features fails when a feature at the position is missing.
pub proof fn lemma_observed_features_missing(g: GameView, ids: Seq<Seq<char>>, i: int)
    requires
        0 <= i < ids.len(),
        super::table::lookup(g.world.features, ids[i]) is None,
    ensures
        observed_features(g, ids) is None,
    decreases ids.len(),
{
    if i < ids.len() - 1 {
        lemma_observed_features_missing(g, ids.drop_last(), i);
    }
}

/// An observation of characters fails when a character at the position is missing.
pub proof fn lemma_observed_npcs_missing(g: GameView, ids: Seq<Seq<char>>, i: int)
    requires
        0 <= i < ids.len(),
        super::table::lookup(g.world.npcs, ids[i]) is None,
    ensures
        observed_npcs(g, ids) is None,
    decreases ids.len(),
{
    if i < ids.len() - 1 {
        lemma_observed_npcs_missing(g, ids.drop_last(), i);
    }
}


impl Game {
    /// Those of the items `ids` that the world has and whose names normalize to `name`.
    pub fn items_named(&self, ids: &Vec<ItemId>, name: &String) -> (found: Vec<ItemId>)
        ensures
            views(found@) == items_named(self@, views(ids@), name@),
    {
        let mut found: Vec<ItemId> = Vec::new();
        let n = ids.len();
        for i in 0..n
            invariant
                n == ids@.len(),
                views(found@) == items_named(self@, views(ids@).take(i as int), name@),
        {
            let ghost prefix = views(ids@).take(i as int);
            assert(views(ids@).take(i + 1).drop_last() =~= prefix);
            assert(views(ids@).take(i + 1).last() == ids@[i as int]@);
            match self.world.item(&ids[i]) {
                Some(item) => {
                    let normalized = normalize_name(item.name.as_str());
                    if normalized == *name {
                        found.push(ids[i].clone());
                        assert(views(found@) =~= items_named(self@, prefix, name@).push(
                            ids@[i as int]@,
                        ));
                    }
                },
                None => {},
            }
        }
        assert(views(ids@).take(n as int) =~= views(ids@));
        found
    }

    /// Those of the features `ids` that the world has and whose names normalize to `name`.
    pub fn features_named(&self, ids: &Vec<FeatureId>, name: &String) -> (found: Vec<FeatureId>)
        ensures
            views(found@) == features_named(self@, views(ids@), name@),
    {
        let mut found: Vec<FeatureId> = Vec::new();
        let n = ids.len();
        for i in 0..n
            invariant
                n == ids@.len(),
                views(found@) == features_named(self@, views(ids@).take(i as int), name@),
        {
            let ghost prefix = views(ids@).take(i as int);
            assert(views(ids@).take(i + 1).drop_last() =~= prefix);
            assert(views(ids@).take(i + 1).last() == ids@[i as int]@);
            match self.world.feature(&ids[i]) {
                Some(feature) => {
                    let normalized = normalize_name(feature.name.as_str());
                    if normalized == *name {
                        found.push(ids[i].clone());
                        assert(views(found@) =~= features_named(self@, prefix, name@).push(
                            ids@[i as int]@,
                        ));
                    }
                },
                None => {},
            }
        }
        assert(views(ids@).take(n as int) =~= views(ids@));
        found
    }

    /// Those of the non-player characters `ids` that the world has and whose names
    /// normalize to `name`.
    pub fn npcs_named(&self, ids: &Vec<NpcId>, name: &String) -> (found: Vec<NpcId>)
        ensures
            views(found@) == npcs_named(self@, views(ids@), name@),
    {
        let mut found: Vec<NpcId> = Vec::new();
        let n = ids.len();
        for i in 0..n
            invariant
                n == ids@.len(),
                views(found@) == npcs_named(self@, views(ids@).take(i as int), name@),
        {
            let ghost prefix = views(ids@).take(i as int);
            assert(views(ids@).take(i + 1).drop_last() =~= prefix);
            assert(views(ids@).take(i + 1).last() == ids@[i as int]@);
            match self.world.npc(&ids[i]) {
                Some(npc) => {
                    let normalized = normalize_name(npc.name.as_str());
                    if normalized == *name {
                        found.push(ids[i].clone());
                        assert(views(found@) =~= npcs_named(self@, prefix, name@).push(
                            ids@[i as int]@,
                        ));
                    }
                },
                None => {},
            }
        }
        assert(views(ids@).take(n as int) =~= views(ids@));
        found
    }

    /// The items in the character's room whose names match `query`.
    pub fn matching_room_items(&self, query: &str) -> (found: Vec<ItemId>)
        ensures
            views(found@) == matching_room_items(self@, query@),
    {
        let room = match self.world.room(&self.character.current_room) {
            Some(room) => room,
            None => {
                let found: Vec<ItemId> = Vec::new();
                assert(views(found@) =~= Seq::<Seq<char>>::empty());
                return found;
            },
        };
        let name = normalize_name(query);
        let ids = self.world.item_ids_in_room(&room.id);
        self.items_named(&ids, &name)
    }

    /// The items the character carries whose names match `query`.
    pub fn matching_inventory_items(&self, query: &str) -> (found: Vec<ItemId>)
        ensures
            views(found@) == matching_inventory_items(self@, query@),
    {
        let name = normalize_name(query);
        let ids = self.world.item_ids_carried_by(&self.character.id);
        self.items_named(&ids, &name)
    }

    /// The items in the room, then those carried, whose names match `query`.
    pub fn matching_accessible_items(&self, query: &str) -> (found: Vec<ItemId>)
        ensures
            views(found@) == matching_accessible_items(self@, query@),
    {
        let mut found = self.matching_room_items(query);
        let mut more = self.matching_inventory_items(query);
        let ghost a = views(found@);
        let ghost b = views(more@);
        found.append(&mut more);
        assert(views(found@) =~= a + b);
        found
    }

    /// The features of the character's room whose names match `query`.
    pub fn matching_room_features(&self, query: &str) -> (found: Vec<FeatureId>)
        ensures
            views(found@) == matching_room_features(self@, query@),
    {
        let room = match self.world.room(&self.character.current_room) {
            Some(room) => room,
            None => {
                let found: Vec<FeatureId> = Vec::new();
                assert(views(found@) =~= Seq::<Seq<char>>::empty());
                return found;
            },
        };
        let name = normalize_name(query);
        self.features_named(&room.features, &name)
    }

    /// The non-player characters in the character's room whose names match `query`.
    pub fn matching_room_npcs(&self, query: &str) -> (found: Vec<NpcId>)
        ensures
            views(found@) == matching_room_npcs(self@, query@),
    {
        let room = match self.world.room(&self.character.current_room) {
            Some(room) => room,
            None => {
                let found: Vec<NpcId> = Vec::new();
                assert(views(found@) =~= Seq::<Seq<char>>::empty());
                return found;
            },
        };
        let name = normalize_name(query);
        self.npcs_named(&room.npcs, &name)
    }

    /// Whether the character meets a requirement of an exit.
    pub fn requirement_met(&self, requirement: &super::exit::ExitRequirement) -> (met: bool)
        ensures
            met == requirement_met(self@, requirement@),
    {
        match requirement {
            super::exit::ExitRequirement::CarryingItem(item) => self.carries(item),
            super::exit::ExitRequirement::KnowsFact(fact) => self.knows_fact(fact),
        }
    }

    /// Moving in `direction`.
    pub fn attempt_move(&mut self, direction: Direction) -> (events: Vec<GameEvent>)
        requires
            move_settles(old(self)@, direction),
        ensures
            (final(self)@, views(events@)) == attempt_move(old(self)@, direction),
    {
        let current_room = self.character.current_room.clone();
        let room = match self.world.room(&current_room) {
            Some(room) => room,
            None => {
                return one_event(
                    GameEvent::MovementFailed {
                        character_id: self.character.id.clone(),
                        room_id: current_room,
                        direction,
                    },
                );
            },
        };
        let exit = match room.exits.get(&direction) {
            Some(exit) => exit,
            None => {
                return one_event(
                    GameEvent::MovementFailed {
                        character_id: self.character.id.clone(),
                        room_id: current_room,
                        direction,
                    },
                );
            },
        };
        let n = exit.requirements.len();
        let mut met = true;
        for i in 0..n
            invariant
                n == exit@.requirements.len(),
                met == forall|j: int| 0 <= j < i ==> requirement_met(self@, exit@.requirements[j]),
        {
            assert(exit@.requirements[i as int] == exit.requirements[i as int]@);
            if !self.requirement_met(&exit.requirements[i]) {
                met = false;
            }
        }
        if !met {
            let message = match &exit.failure_message {
                Some(m) => m.clone(),
                None => "You cannot pass that way.".to_string(),
            };
            return one_event(
                GameEvent::MovementBlocked {
                    character_id: self.character.id.clone(),
                    room_id: current_room,
                    direction,
                    message,
                },
            );
        }
        let destination = exit.destination.clone();
        let ghost g0 = self@;
        let ghost exit_view = exit@;
        assert(requirements_met(g0, exit_view));
        self.character.current_room = destination.clone();
        let ghost moved_game = self@;
        assert(moved_game == (GameView {
            character: super::character::CharacterView {
                current_room: exit_view.destination,
                ..g0.character
            },
            ..g0
        }));
        let character_id = self.character.id.clone();
        let quest_events = self.settle_state_based_quest_objectives();
        let ghost settled = self@;
        let ghost quest_views = views(quest_events@);
        let mut events = one_event(
            GameEvent::CharacterMoved {
                character_id,
                from: current_room,
                to: destination,
                direction,
            },
        );
        let ghost moved = views(events@);
        match self.observe_current_room() {
            Some(observed) => {
                events.push(observed);
            },
            None => {},
        }
        let ghost looked = views(events@);
        assert(looked =~= moved + super::rules::opt_events(observe_room(settled)));
        let mut quest_events = quest_events;
        events.append(&mut quest_events);
        assert(views(events@) =~= looked + quest_views);
        events
    }

    /// Taking an item from the room.
    pub fn attempt_take(&mut self, query: TargetQuery) -> (events: Vec<GameEvent>)
        requires
            take_settles(old(self)@, query@),
        ensures
            (final(self)@, views(events@)) == attempt_take(old(self)@, query@),
    {
        let ghost g0 = self@;
        let name = normalize_name(query.name.as_str());
        let room_id = self.character.current_room.clone();
        let matches = self.matching_room_items(name.as_str());
        let reason = match pick(matches.len(), query.ordinal) {
            Pick::Picked(i) => None,
            Pick::NotFound => Some(TakeFailureReason::NotFound),
            Pick::Ambiguous(n) => Some(TakeFailureReason::Ambiguous { match_count: n }),
            Pick::OutOfRange(r, a) => Some(
                TakeFailureReason::OrdinalOutOfRange { requested: r, available: a },
            ),
        };
        let item_id = match pick(matches.len(), query.ordinal) {
            Pick::Picked(i) => matches[i].clone(),
            _ => {
                return one_event(
                    GameEvent::TakeFailed {
                        character_id: self.character.id.clone(),
                        room_id,
                        query: name,
                        reason: reason.unwrap(),
                    },
                );
            },
        };
        let item = match self.world.item(&item_id) {
            Some(item) => item,
            None => {
                return one_event(
                    GameEvent::TakeFailed {
                        character_id: self.character.id.clone(),
                        room_id,
                        query: name,
                        reason: TakeFailureReason::NotFound,
                    },
                );
            },
        };
        let observed = ObservedItem { id: item.id.clone(), name: item.name.clone() };
        if self.world.room(&room_id).is_none() {
            return one_event(
                GameEvent::TakeFailed {
                    character_id: self.character.id.clone(),
                    room_id,
                    query: name,
                    reason: TakeFailureReason::NotFound,
                },
            );
        }
        let character_id = self.character.id.clone();
        if !self.world.move_item(&item_id, ItemLocation::CarriedBy(self.character.id.clone())) {
            return one_event(
                GameEvent::TakeFailed {
                    character_id,
                    room_id,
                    query: name,
                    reason: TakeFailureReason::NotFound,
                },
            );
        }
        let mut events = one_event(
            GameEvent::ItemTaken { character_id, room_id, item: observed },
        );
        let ghost taken = views(events@);
        let mut more = self.settle_state_based_quest_objectives();
        let ghost settled = views(more@);
        events.append(&mut more);
        assert(views(events@) =~= taken + settled);
        events
    }

    /// Dropping a carried item into the room.
    pub fn attempt_drop(&mut self, query: TargetQuery) -> (events: Vec<GameEvent>)
        ensures
            (final(self)@, views(events@)) == attempt_drop(old(self)@, query@),
    {
        let name = normalize_name(query.name.as_str());
        let room_id = self.character.current_room.clone();
        let matches = self.matching_inventory_items(name.as_str());
        let reason = match pick(matches.len(), query.ordinal) {
            Pick::Picked(i) => None,
            Pick::NotFound => Some(DropFailureReason::NotFound),
            Pick::Ambiguous(n) => Some(DropFailureReason::Ambiguous { match_count: n }),
            Pick::OutOfRange(r, a) => Some(
                DropFailureReason::OrdinalOutOfRange { requested: r, available: a },
            ),
        };
        let item_id = match pick(matches.len(), query.ordinal) {
            Pick::Picked(i) => matches[i].clone(),
            _ => {
                return one_event(
                    GameEvent::DropFailed {
                        character_id: self.character.id.clone(),
                        room_id,
                        query: name,
                        reason: reason.unwrap(),
                    },
                );
            },
        };
        let item = match self.world.item(&item_id) {
            Some(item) => item,
            None => {
                return one_event(
                    GameEvent::DropFailed {
                        character_id: self.character.id.clone(),
                        room_id,
                        query: name,
                        reason: DropFailureReason::NotFound,
                    },
                );
            },
        };
        let observed = ObservedItem { id: item.id.clone(), name: item.name.clone() };
        if !self.carries(&item_id) || self.world.room(&room_id).is_none() {
            return one_event(
                GameEvent::DropFailed {
                    character_id: self.character.id.clone(),
                    room_id,
                    query: name,
                    reason: DropFailureReason::NotFound,
                },
            );
        }
        proof {
            super::world::lemma_placement_position(self@.world.item_placements, item_id@);
        }
        let character_id = self.character.id.clone();
        let moved = self.world.move_item(&item_id, ItemLocation::Room(room_id.clone()));
        assert(moved);
        one_event(GameEvent::ItemDropped { character_id, room_id, item: observed })
    }
}


/// Something that can be examined.
pub enum ExamineTarget {
    Item(ItemId),
    Feature(FeatureId),
    Npc(NpcId),
}

impl View for ExamineTarget {
    type V = ExamineTargetView;

    open spec fn view(&self) -> ExamineTargetView {
        match self {
            ExamineTarget::Item(id) => ExamineTargetView::Item(id@),
            ExamineTarget::Feature(id) => ExamineTargetView::Feature(id@),
            ExamineTarget::Npc(id) => ExamineTargetView::Npc(id@),
        }
    }
}

impl Game {
    /// Talking to a non-player character in the room.
    pub fn attempt_talk(&self, query: TargetQuery) -> (events: Vec<GameEvent>)
        ensures
            views(events@) == attempt_talk(self@, query@),
    {
        let name = normalize_name(query.name.as_str());
        let matches = self.matching_room_npcs(name.as_str());
        let npc_id = match pick(matches.len(), query.ordinal) {
            Pick::Picked(i) => &matches[i],
            Pick::NotFound => {
                return one_event(
                    GameEvent::TalkFailed {
                        character_id: self.character.id.clone(),
                        query: name,
                        reason: TalkFailureReason::NotFound,
                    },
                );
            },
            Pick::Ambiguous(n) => {
                return one_event(
                    GameEvent::TalkFailed {
                        character_id: self.character.id.clone(),
                        query: name,
                        reason: TalkFailureReason::Ambiguous { match_count: n },
                    },
                );
            },
            Pick::OutOfRange(r, a) => {
                return one_event(
                    GameEvent::TalkFailed {
                        character_id: self.character.id.clone(),
                        query: name,
                        reason: TalkFailureReason::OrdinalOutOfRange { requested: r, available: a },
                    },
                );
            },
        };
        let npc = match self.world.npc(npc_id) {
            Some(npc) => npc,
            None => {
                return one_event(
                    GameEvent::TalkFailed {
                        character_id: self.character.id.clone(),
                        query: name,
                        reason: TalkFailureReason::NotFound,
                    },
                );
            },
        };
        one_event(
            GameEvent::NpcSpoke {
                character_id: self.character.id.clone(),
                npc_id: npc.id.clone(),
                name: npc.name.clone(),
                greeting: npc.greeting.clone(),
                topics: self.available_topic_names(&npc.topics),
            },
        )
    }

    /// Examination targets made from identifiers.
    fn push_targets_items(targets: &mut Vec<ExamineTarget>, found: &Vec<ItemId>)
        ensures
            views(final(targets)@) == views(old(targets)@) + item_targets(views(found@)),
    {
        let ghost start = views(targets@);
        let n = found.len();
        for i in 0..n
            invariant
                n == found@.len(),
                views(targets@) == start + item_targets(views(found@).take(i as int)),
        {
            let ghost before = views(targets@);
            targets.push(ExamineTarget::Item(found[i].clone()));
            assert(views(targets@) =~= before.push(ExamineTargetView::Item(found@[i as int]@)));
            assert(views(found@).take(i + 1) =~= views(found@).take(i as int).push(found@[i as int]@));
            assert(item_targets(views(found@).take(i + 1)) =~= item_targets(views(found@).take(i as int)).push(
                ExamineTargetView::Item(found@[i as int]@),
            ));
            assert(views(targets@) =~= start + item_targets(views(found@).take(i + 1)));
        }
        assert(views(found@).take(n as int) =~= views(found@));
    }

    /// Examination targets made from identifiers.
    fn push_targets_features(targets: &mut Vec<ExamineTarget>, found: &Vec<FeatureId>)
        ensures
            views(final(targets)@) == views(old(targets)@) + feature_targets(views(found@)),
    {
        let ghost start = views(targets@);
        let n = found.len();
        for i in 0..n
            invariant
                n == found@.len(),
                views(targets@) == start + feature_targets(views(found@).take(i as int)),
        {
            let ghost before = views(targets@);
            targets.push(ExamineTarget::Feature(found[i].clone()));
            assert(views(targets@) =~= before.push(ExamineTargetView::Feature(found@[i as int]@)));
            assert(views(found@).take(i + 1) =~= views(found@).take(i as int).push(found@[i as int]@));
            assert(feature_targets(views(found@).take(i + 1)) =~= feature_targets(views(found@).take(i as int)).push(
                ExamineTargetView::Feature(found@[i as int]@),
            ));
            assert(views(targets@) =~= start + feature_targets(views(found@).take(i + 1)));
        }
        assert(views(found@).take(n as int) =~= views(found@));
    }

    /// Examination targets made from identifiers.
    fn push_targets_npcs(targets: &mut Vec<ExamineTarget>, found: &Vec<NpcId>)
        ensures
            views(final(targets)@) == views(old(targets)@) + npc_targets(views(found@)),
    {
        let ghost start = views(targets@);
        let n = found.len();
        for i in 0..n
            invariant
                n == found@.len(),
                views(targets@) == start + npc_targets(views(found@).take(i as int)),
        {
            let ghost before = views(targets@);
            targets.push(ExamineTarget::Npc(found[i].clone()));
            assert(views(targets@) =~= before.push(ExamineTargetView::Npc(found@[i as int]@)));
            assert(views(found@).take(i + 1) =~= views(found@).take(i as int).push(found@[i as int]@));
            assert(npc_targets(views(found@).take(i + 1)) =~= npc_targets(views(found@).take(i as int)).push(
                ExamineTargetView::Npc(found@[i as int]@),
            ));
            assert(views(targets@) =~= start + npc_targets(views(found@).take(i + 1)));
        }
        assert(views(found@).take(n as int) =~= views(found@));
    }

    /// The things matching `query` that can be examined: accessible items, then room
    /// features, then non-player characters, each kind only when the query allows it.
    pub fn matching_examine_targets(&self, query: &TargetQuery) -> (targets: Vec<ExamineTarget>)
        ensures
            views(targets@) == matching_examine_targets(self@, query@),
    {
        let mut targets: Vec<ExamineTarget> = Vec::new();
        assert(views(targets@) =~= Seq::<ExamineTargetView>::empty());
        match query.kind {
            None | Some(TargetKind::Item) => {
                let found = self.matching_accessible_items(query.name.as_str());
                Self::push_targets_items(&mut targets, &found);
            },
            _ => {},
        }
        let ghost after_items = views(targets@);
        match query.kind {
            None | Some(TargetKind::Feature) => {
                let found = self.matching_room_features(query.name.as_str());
                Self::push_targets_features(&mut targets, &found);
            },
            _ => {
                assert(views(targets@) =~= after_items + Seq::<ExamineTargetView>::empty());
            },
        }
        let ghost after_features = views(targets@);
        match query.kind {
            None | Some(TargetKind::Npc) => {
                let found = self.matching_room_npcs(query.name.as_str());
                Self::push_targets_npcs(&mut targets, &found);
            },
            _ => {
                assert(views(targets@) =~= after_features + Seq::<ExamineTargetView>::empty());
            },
        }
        targets
    }

    /// The kinds of the examination targets, in order.
    pub fn target_kinds(targets: &Vec<ExamineTarget>) -> (kinds: Vec<TargetKind>)
        ensures
            kinds@ == target_kinds(views(targets@)),
    {
        let mut kinds: Vec<TargetKind> = Vec::new();
        let n = targets.len();
        for i in 0..n
            invariant
                n == targets@.len(),
                kinds@ == target_kinds(views(targets@).take(i as int)),
        {
            let kind = match &targets[i] {
                ExamineTarget::Item(_) => TargetKind::Item,
                ExamineTarget::Feature(_) => TargetKind::Feature,
                ExamineTarget::Npc(_) => TargetKind::Npc,
            };
            kinds.push(kind);
            assert(views(targets@).take(i + 1) =~= views(targets@).take(i as int).push(targets@[i as int]@));
            assert(kinds@ =~= target_kinds(views(targets@).take(i + 1)));
        }
        assert(views(targets@).take(n as int) =~= views(targets@));
        kinds
    }

    /// Examining one target.
    pub fn examine_target(&self, target: &ExamineTarget, name: String) -> (events: Vec<GameEvent>)
        ensures
            views(events@) == examine_target(self@, target@, name@),
    {
        match target {
            ExamineTarget::Item(item_id) => match self.world.item(item_id) {
                None => one_event(
                    GameEvent::ExamineFailed {
                        character_id: self.character.id.clone(),
                        query: name,
                        reason: ExamineFailureReason::NotFound,
                    },
                ),
                Some(item) => one_event(
                    GameEvent::ItemExamined {
                        character_id: self.character.id.clone(),
                        item: ExaminedItem {
                            id: item.id.clone(),
                            name: item.name.clone(),
                            description: item.description.clone(),
                        },
                    },
                ),
            },
            ExamineTarget::Feature(feature_id) => match self.world.feature(feature_id) {
                None => one_event(
                    GameEvent::ExamineFailed {
                        character_id: self.character.id.clone(),
                        query: name,
                        reason: ExamineFailureReason::NotFound,
                    },
                ),
                Some(feature) => {
                    let on_it = self.world.item_ids_on_feature(&feature.id);
                    let items = self.known_items(&on_it);
                    one_event(
                        GameEvent::FeatureExamined {
                            character_id: self.character.id.clone(),
                            feature: ExaminedFeature {
                                id: feature.id.clone(),
                                name: feature.name.clone(),
                                description: feature.description.clone(),
                                items,
                            },
                        },
                    )
                },
            },
            ExamineTarget::Npc(npc_id) => match self.world.npc(npc_id) {
                None => one_event(
                    GameEvent::ExamineFailed {
                        character_id: self.character.id.clone(),
                        query: name,
                        reason: ExamineFailureReason::NotFound,
                    },
                ),
                Some(npc) => one_event(
                    GameEvent::NpcExamined {
                        character_id: self.character.id.clone(),
                        npc: ExaminedNpc {
                            id: npc.id.clone(),
                            name: npc.name.clone(),
                            description: npc.description.clone(),
                        },
                    },
                ),
            },
        }
    }

    /// Examining an accessible item, a room feature or a non-player character in the room.
    pub fn attempt_examine(&self, query: TargetQuery) -> (events: Vec<GameEvent>)
        ensures
            views(events@) == attempt_examine(self@, query@),
    {
        let mut query = query;
        query.name = normalize_name(query.name.as_str());
        let matches = self.matching_examine_targets(&query);
        let name = query.name;
        match pick(matches.len(), query.ordinal) {
            Pick::Picked(i) => self.examine_target(&matches[i], name),
            Pick::NotFound => one_event(
                GameEvent::ExamineFailed {
                    character_id: self.character.id.clone(),
                    query: name,
                    reason: ExamineFailureReason::NotFound,
                },
            ),
            Pick::Ambiguous(_) => {
                let kinds = Self::target_kinds(&matches);
                one_event(
                    GameEvent::ExamineFailed {
                        character_id: self.character.id.clone(),
                        query: name,
                        reason: ExamineFailureReason::Ambiguous { kinds },
                    },
                )
            },
            Pick::OutOfRange(r, a) => one_event(
                GameEvent::ExamineFailed {
                    character_id: self.character.id.clone(),
                    query: name,
                    reason: ExamineFailureReason::OrdinalOutOfRange { requested: r, available: a },
                },
            ),
        }
    }
}

/// Whether two lists of texts hold the same texts in the same order.
pub fn texts_eq(a: &Vec<String>, b: &Vec<String>) -> (same: bool)
    ensures
        same == (text_views(a@) == text_views(b@)),
{
    if a.len() != b.len() {
        assert(text_views(a@).len() != text_views(b@).len());
        return false;
    }
    let n = a.len();
    for i in 0..n
        invariant
            n == a@.len(),
            n == b@.len(),
            forall|j: int| 0 <= j < i ==> a@[j]@ == b@[j]@,
    {
        if !(a[i] == b[i]) {
            assert(text_views(a@)[i as int] != text_views(b@)[i as int]);
            return false;
        }
    }
    assert(text_views(a@) =~= text_views(b@));
    true
}

impl Game {
    /// The first of `topics` that may be raised and whose name normalizes to `name`.
    pub fn find_topic<'a>(&self, topics: &'a Vec<NpcTopic>, name: &String) -> (topic: Option<&'a NpcTopic>)
        ensures
            super::world::opt_ref_view(topic) == find_topic(self@, views(topics@), name@),
    {
        let n = topics.len();
        let mut i: usize = 0;
        let ghost all = views(topics@);
        assert(all.skip(0) =~= all);
        while i < n
            invariant
                0 <= i <= n,
                n == all.len(),
                all == views(topics@),
                find_topic(self@, all, name@) == find_topic(self@, all.skip(i as int), name@),
            decreases n - i,
        {
            assert(all.skip(i as int)[0] == topics@[i as int]@);
            if self.topic_is_available(&topics[i]) {
                let normalized = normalize_name(topics[i].name.as_str());
                if normalized == *name {
                    return Some(&topics[i]);
                }
            }
            assert(all.skip(i as int).drop_first() =~= all.skip(i + 1));
            i = i + 1;
        }
        assert(all.skip(i as int).len() == 0);
        None
    }

    /// Asking a non-player character in the room about one of its available topics.
    pub fn attempt_ask(&mut self, query: AskQuery) -> (events: Vec<GameEvent>)
        requires
            ask_settles(old(self)@, query@),
        ensures
            (final(self)@, views(events@)) == attempt_ask(old(self)@, query@),
    {
        let ghost g0 = self@;
        let npc_query = normalize_name(query.npc.name.as_str());
        let topic_query = normalize_name(query.topic.as_str());
        let matches = self.matching_room_npcs(npc_query.as_str());
        let index = match pick(matches.len(), query.npc.ordinal) {
            Pick::Picked(i) => i,
            Pick::NotFound => {
                return one_event(
                    GameEvent::AskFailed {
                        character_id: self.character.id.clone(),
                        npc_query,
                        topic_query,
                        reason: AskFailureReason::NpcNotFound,
                    },
                );
            },
            Pick::Ambiguous(n) => {
                return one_event(
                    GameEvent::AskFailed {
                        character_id: self.character.id.clone(),
                        npc_query,
                        topic_query,
                        reason: AskFailureReason::NpcAmbiguous { match_count: n },
                    },
                );
            },
            Pick::OutOfRange(r, a) => {
                return one_event(
                    GameEvent::AskFailed {
                        character_id: self.character.id.clone(),
                        npc_query,
                        topic_query,
                        reason: AskFailureReason::NpcOrdinalOutOfRange {
                            requested: r,
                            available: a,
                        },
                    },
                );
            },
        };
        let npc = match self.world.npc(&matches[index]) {
            Some(npc) => npc,
            None => {
                return one_event(
                    GameEvent::AskFailed {
                        character_id: self.character.id.clone(),
                        npc_query,
                        topic_query,
                        reason: AskFailureReason::NpcNotFound,
                    },
                );
            },
        };
        let topic = match self.find_topic(&npc.topics, &topic_query) {
            Some(topic) => topic,
            None => {
                return one_event(
                    GameEvent::AskFailed {
                        character_id: self.character.id.clone(),
                        npc_query,
                        topic_query,
                        reason: AskFailureReason::TopicNotFound { npc_name: npc.name.clone() },
                    },
                );
            },
        };
        let npc_id = npc.id.clone();
        let npc_name = npc.name.clone();
        let topic_id = topic.id.clone();
        let previous_topics = self.available_topic_names(&npc.topics);
        let ghost npc_view = npc@;
        let ghost topic_view = topic@;

        let mut learned_facts: Vec<FactKey> = Vec::new();
        let grants = &topic.grants_facts;
        let n = grants.len();
        assert(views(grants@).take(0) =~= Seq::<Seq<char>>::empty());
        assert(views(learned_facts@) =~= Seq::<super::ids::FactKeyView>::empty());
        for i in 0..n
            invariant
                n == grants@.len(),
                (self@.character.facts, views(learned_facts@)) == learn_facts(
                    g0,
                    views(grants@).take(i as int),
                ),
                self@ == (GameView {
                    character: super::character::CharacterView {
                        facts: self@.character.facts,
                        ..g0.character
                    },
                    ..g0
                }),
        {
            assert(views(grants@).take(i + 1).drop_last() =~= views(grants@).take(i as int));
            assert(views(grants@).take(i + 1).last() == grants@[i as int]@);
            let fact = FactKey { world_id: self.world.id.clone(), fact_id: grants[i].clone() };
            let ghost before = views(learned_facts@);
            if self.character.facts.insert(fact.clone()) {
                learned_facts.push(fact);
                assert(views(learned_facts@) =~= before.push(fact@));
            }
        }
        assert(views(grants@).take(n as int) =~= views(grants@));
        let ghost g1 = self@;
        let current_topics = match self.world.npc(&npc_id) {
            Some(current) => self.available_topic_names(&current.topics),
            None => {
                let none: Vec<String> = Vec::new();
                assert(text_views(none@) =~= Seq::<Seq<char>>::empty());
                none
            },
        };
        let updated_topics = if !texts_eq(&previous_topics, &current_topics) {
            Some(current_topics)
        } else {
            None
        };
        let mut events = one_event(
            GameEvent::NpcAnswered {
                character_id: self.character.id.clone(),
                npc_id: npc_id.clone(),
                npc_name,
                topic_id: topic_id.clone(),
                topic_name: topic.name.clone(),
                response: topic.response.clone(),
                learned_facts,
                updated_topics,
            },
        );
        let ghost answered = views(events@);

        let starts = &topic.starts_quests;
        let m = starts.len();
        let mut started: Vec<GameEvent> = Vec::new();
        assert(views(starts@).take(0) =~= Seq::<Seq<char>>::empty());
        assert(views(started@) =~= Seq::<super::event::GameEventView>::empty());
        for i in 0..m
            invariant
                m == starts@.len(),
                (self@, views(started@)) == start_quests(g1, views(starts@).take(i as int)),
        {
            assert(views(starts@).take(i + 1).drop_last() =~= views(starts@).take(i as int));
            assert(views(starts@).take(i + 1).last() == starts@[i as int]@);
            let quest_id = &starts[i];
            let key = QuestKey { world_id: self.world.id.clone(), quest_id: quest_id.clone() };
            if !self.character.quests.contains_key(&key) {
                match self.world.quest(quest_id) {
                    None => {},
                    Some(quest) => {
                        let current_objective = match quest.step(&quest.starting_step) {
                            Some(step) => Some(step.description.clone()),
                            None => None,
                        };
                        let observed = ObservedQuest {
                            key: key.clone(),
                            name: quest.name.clone(),
                            description: quest.description.clone(),
                            current_objective,
                        };
                        let progress = QuestProgress {
                            status: QuestStatus::Active,
                            current_step: quest.starting_step.clone(),
                        };
                        let character_id = self.character.id.clone();
                        self.character.quests.insert(key, progress);
                        let ghost before = views(started@);
                        started.push(GameEvent::QuestStarted { character_id, quest: observed });
                        assert(views(started@) =~= before.push(started@.last()@));
                    },
                }
            }
        }
        assert(views(starts@).take(m as int) =~= views(starts@));
        let ghost g2 = self@;
        let ghost started_views = views(started@);
        events.append(&mut started);
        assert(g2.world == g0.world) by {
            lemma_start_quests_world(g1, views(starts@));
        }
        let mut settled = self.settle_state_based_quest_objectives();
        let ghost e3 = views(settled@);
        let ghost g3 = self@;
        events.append(&mut settled);
        let mut updated = self.update_quests_for_topic(&npc_id, &topic_id);
        let ghost e4 = views(updated@);
        let ghost g4 = self@;
        events.append(&mut updated);
        proof {
            lemma_transitions_keep_world(g3, quests_asking(g3, g3.character.quests, npc_id@, topic_id@));
        }
        let mut resettled = self.settle_state_based_quest_objectives();
        let ghost e5 = views(resettled@);
        events.append(&mut resettled);
        assert(views(events@) =~= answered + started_views + e3 + e4 + e5);
        events
    }
}

/// Starting quests leaves the world alone.
pub proof fn lemma_start_quests_world(g: GameView, quests: Seq<Seq<char>>)
    ensures
        start_quests(g, quests).0.world == g.world,
    decreases quests.len(),
{
    if quests.len() > 0 {
        lemma_start_quests_world(g, quests.drop_last());
    }
}

/// Transitions leave the world alone.
pub proof fn lemma_transitions_keep_world(g: GameView, keys: Seq<QuestKeyView>)
    ensures
        apply_transitions(g, keys).0.world == g.world,
{
    lemma_transitions_in_order_keep_world(g, sorted_by_text::<QuestKey>(keys));
}

/// Transitions in order leave the world alone.
pub proof fn lemma_transitions_in_order_keep_world(g: GameView, keys: Seq<QuestKeyView>)
    ensures
        apply_transitions_in_order(g, keys).0.world == g.world,
    decreases keys.len(),
{
    if keys.len() > 0 {
        lemma_transitions_in_order_keep_world(g, keys.drop_last());
    }
}

impl Game {
    /// Carries out a command, reporting what happened. The quest transitions the command
    /// runs must come to rest.
    pub fn process(&mut self, command: Command) -> (events: Vec<GameEvent>)
        requires
            command_settles(old(self)@, command@),
        ensures
            (final(self)@, views(events@)) == process(old(self)@, command@),
    {
        match command {
            Command::Look => match self.observe_current_room() {
                Some(event) => one_event(event),
                None => no_events(),
            },
            Command::Exits => match self.observe_current_exits() {
                Some(event) => one_event(event),
                None => no_events(),
            },
            Command::Help => one_event(GameEvent::HelpRequested),
            Command::Move(direction) => self.attempt_move(direction),
            Command::Take(query) => self.attempt_take(query),
            Command::Inventory => match self.observe_inventory() {
                Some(event) => one_event(event),
                None => no_events(),
            },
            Command::Quests => one_event(self.observe_quests()),
            Command::Drop(query) => self.attempt_drop(query),
            Command::Examine(query) => self.attempt_examine(query),
            Command::Talk(query) => self.attempt_talk(query),
            Command::Ask(query) => self.attempt_ask(query),
        }
    }

    /// Carries out a command when every quest chain of the world ends, which is what lets the
    /// command's quest transitions come to rest; otherwise changes nothing and returns `None`.
    pub fn process_checked(&mut self, command: Command) -> (events: Option<Vec<GameEvent>>)
        ensures
            events matches Some(e) ==> quests_end(old(self)@.world) && (final(self)@, views(e@))
                == process(old(self)@, command@),
            events is None ==> final(self)@ == old(self)@,
            (forall|j: int|
                0 <= j < old(self)@.world.quests.len() ==> #[trigger] old(self)@.world.quests[j].1.steps.len()
                    < usize::MAX) ==> (events is Some <==> quests_end(old(self)@.world)),
    {
        if !self.world.quest_chains_end() {
            return None;
        }
        proof {
            use_type_invariant(&self.character.quests);
            super::table::Table::lemma_unique(&self.character.quests);
            super::laws::law_ending_quests_let_every_command_settle(self@, command@);
        }
        Some(self.process(command))
    }
}

/// How many more steps `quest` can take from `step`, following next steps at most `fuel`
/// times.
pub fn chain_length_of(quest: &super::quest::Quest, step: &super::ids::QuestStepId, fuel: usize) -> (n: usize)
    ensures
        n == chain_length(quest@, step@, fuel as nat),
        n <= fuel,
    decreases fuel,
{
    if fuel == 0 {
        return 0;
    }
    match quest.step(step) {
        None => 0,
        Some(s) => match &s.next_step {
            None => 1,
            Some(next) => 1 + chain_length_of(quest, next, fuel - 1),
        },
    }
}

/// A found step is one of the steps.
pub proof fn lemma_find_step_in(steps: Seq<super::quest::QuestStepView>, id: Seq<char>)
    requires
        find_step(steps, id) is Some,
    ensures
        exists|k: int| 0 <= k < steps.len() && steps[k] == find_step(steps, id)->0 && steps[k].id == id,
    decreases steps.len(),
{
    if steps[0].id == id {
        assert(steps[0] == find_step(steps, id)->0);
    } else {
        lemma_find_step_in(steps.drop_first(), id);
        let k = choose|k: int|
            0 <= k < steps.drop_first().len() && steps.drop_first()[k] == find_step(steps, id)->0
                && steps.drop_first()[k].id == id;
        assert(steps[k + 1] == steps.drop_first()[k]);
    }
}

/// Whether following next steps from every step of `quest` ends. Answers false for a quest
/// with `usize::MAX` steps, which no memory can hold.
pub fn quest_chains_end_of(quest: &super::quest::Quest) -> (ends: bool)
    ensures
        ends ==> quest_chains_end(quest@),
        quest@.steps.len() < usize::MAX ==> (ends == quest_chains_end(quest@)),
{
    let l = quest.steps.len();
    if l == usize::MAX {
        return false;
    }
    for k in 0..l
        invariant
            l == quest@.steps.len(),
            l < usize::MAX,
            forall|j: int|
                0 <= j < k ==> chain_length(quest@, quest@.steps[j].id, l as nat) == chain_length(
                    quest@,
                    quest@.steps[j].id,
                    (l + 1) as nat,
                ),
    {
        assert(quest@.steps[k as int] == quest.steps[k as int]@);
        let id = &quest.steps[k].id;
        if chain_length_of(quest, id, l) != chain_length_of(quest, id, l + 1) {
            assert(!quest_chains_end(quest@)) by {
                assert(chain_length(quest@, quest@.steps[k as int].id, quest@.steps.len()) != chain_length(
                    quest@,
                    quest@.steps[k as int].id,
                    quest@.steps.len() + 1,
                ));
            }
            return false;
        }
    }
    assert forall|step: Seq<char>|
        #[trigger] chain_length(quest@, step, quest@.steps.len()) == chain_length(
            quest@,
            step,
            quest@.steps.len() + 1,
        ) by {
        if find_step(quest@.steps, step) is Some {
            lemma_find_step_in(quest@.steps, step);
        }
    }
    true
}

impl World {
    /// Whether following next steps from every step of every quest of the world ends, which
    /// is enough for quest transitions to come to rest whatever the command.
    pub fn quest_chains_end(&self) -> (ends: bool)
        ensures
            ends ==> quests_end(self@),
            (forall|j: int|
                0 <= j < self@.quests.len() ==> #[trigger] self@.quests[j].1.steps.len()
                    < usize::MAX) ==> ends == quests_end(self@),
    {
        let n = self.quests.len();
        for i in 0..n
            invariant
                n == self@.quests.len(),
                forall|j: int| 0 <= j < i ==> #[trigger] quest_chains_end(self@.quests[j].1),
        {
            if !quest_chains_end_of(self.quests.value_at(i)) {
                proof {
                    if forall|j: int|
                        0 <= j < self@.quests.len() ==> #[trigger] self@.quests[j].1.steps.len()
                            < usize::MAX {
                        assert(self@.quests[i as int].1.steps.len() < usize::MAX);
                        assert(!quest_chains_end(self@.quests[i as int].1));
                    }
                }
                return false;
            }
        }
        true
    }
}

} // verus!
