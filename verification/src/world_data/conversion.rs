use vstd::prelude::*;

use super::definition::{
    ExitDefinition, FeatureDefinition, FeaturePlacementDefinition, ItemDefinition,
    NpcDefinition, NpcTopicDefinition, PlacementRelationDefinition, QuestDefinition,
    QuestObjectiveDefinition, QuestStepDefinition, RoomDefinition, WorldDefinition,
};
use crate::game::direction::{direction_named, Direction};
use crate::game::event::text_views;
use crate::game::exit::{opt_view, views, Exit, ExitRequirement, ExitRequirementView, ExitView};
use crate::game::feature::{RoomFeature, RoomFeatureView, Supporter, SupporterView};
use crate::game::ids::{
    FactId, FeatureId, ItemId, NpcId, NpcTopicId, QuestId, QuestStepId, RoomId, WorldId,
};
use crate::game::item::{Item, ItemView};
use crate::game::item_location::{ItemLocation, ItemLocationView, ItemPlacement, ItemPlacementView};
use crate::game::npc::{Npc, NpcTopic, NpcTopicView, NpcView};
use crate::game::quest::{
    Quest, QuestObjective, QuestObjectiveView, QuestStep, QuestStepView, QuestView,
};
use crate::game::room::{Room, RoomView};
use crate::game::table::{table_insert, KeySet, Table};
use crate::game::world::{lemma_placement_scan, placement_position, World, WorldView};
use crate::text::push_text;

verus! {

/// The item an item definition describes.
pub open spec fn item_from(d: ItemDefinition) -> ItemView {
    ItemView { id: d.id@, name: d.name@, description: d.description@ }
}

/// What a placement definition lets be put on a feature.
pub open spec fn supporter_from(p: FeaturePlacementDefinition) -> SupporterView {
    SupporterView {
        capacity: p.capacity,
        accepts_items: text_views(p.accepts_items@),
        rejection_message: opt_view(p.rejection_message),
        full_message: opt_view(p.full_message),
    }
}

/// The feature a feature definition describes.
pub open spec fn feature_from(d: FeatureDefinition) -> RoomFeatureView {
    RoomFeatureView {
        id: d.id@,
        name: d.name@,
        room_description: d.room_description@,
        description: d.description@,
        supporter: match d.placement {
            Some(p) => Some(supporter_from(p)),
            None => None,
        },
    }
}

/// The topic a topic definition describes.
pub open spec fn topic_from(d: NpcTopicDefinition) -> NpcTopicView {
    NpcTopicView {
        id: d.id@,
        name: d.name@,
        response: d.response@,
        requires_facts: text_views(d.requires_facts@),
        excludes_facts: text_views(d.excludes_facts@),
        grants_facts: text_views(d.grants_facts@),
        starts_quests: text_views(d.starts_quests@),
    }
}

/// The non-player character an NPC definition describes.
pub open spec fn npc_from(d: NpcDefinition) -> NpcView {
    NpcView {
        id: d.id@,
        name: d.name@,
        room_description: d.room_description@,
        description: d.description@,
        greeting: d.greeting@,
        topics: Seq::new(d.topics@.len(), |i: int| topic_from(d.topics@[i])),
    }
}

/// The objective an objective definition describes.
pub open spec fn objective_from(d: QuestObjectiveDefinition) -> QuestObjectiveView {
    match d {
        QuestObjectiveDefinition::ReachRoom { room } => QuestObjectiveView::ReachRoom(room@),
        QuestObjectiveDefinition::PossessItem { item } => QuestObjectiveView::PossessItem(item@),
        QuestObjectiveDefinition::AskTopic { npc, topic } => QuestObjectiveView::AskTopic {
            npc_id: npc@,
            topic_id: topic@,
        },
    }
}

/// The step a step definition describes.
pub open spec fn step_from(d: QuestStepDefinition) -> QuestStepView {
    QuestStepView {
        id: d.id@,
        description: d.description@,
        objective: objective_from(d.objective),
        next_step: opt_view(d.next_step),
    }
}

/// The quest a quest definition describes.
pub open spec fn quest_from(d: QuestDefinition) -> QuestView {
    QuestView {
        id: d.id@,
        name: d.name@,
        description: d.description@,
        starting_step: d.starting_step@,
        steps: Seq::new(d.steps@.len(), |i: int| step_from(d.steps@[i])),
    }
}

/// Item identifiers from their texts.
fn item_ids(texts: &Vec<String>) -> (ids: Vec<ItemId>)
    ensures
        views(ids@) == text_views(texts@),
{
    let mut ids: Vec<ItemId> = Vec::new();
    for i in 0..texts.len()
        invariant
            ids@.len() == i,
            forall|k: int| 0 <= k < i ==> #[trigger] ids@[k]@ == texts@[k]@,
    {
        ids.push(ItemId(texts[i].clone()));
    }
    assert(views(ids@) =~= text_views(texts@));
    ids
}

/// Fact identifiers from their texts.
fn fact_ids(texts: &Vec<String>) -> (ids: Vec<FactId>)
    ensures
        views(ids@) == text_views(texts@),
{
    let mut ids: Vec<FactId> = Vec::new();
    for i in 0..texts.len()
        invariant
            ids@.len() == i,
            forall|k: int| 0 <= k < i ==> #[trigger] ids@[k]@ == texts@[k]@,
    {
        ids.push(FactId(texts[i].clone()));
    }
    assert(views(ids@) =~= text_views(texts@));
    ids
}

/// Quest identifiers from their texts.
fn quest_ids(texts: &Vec<String>) -> (ids: Vec<QuestId>)
    ensures
        views(ids@) == text_views(texts@),
{
    let mut ids: Vec<QuestId> = Vec::new();
    for i in 0..texts.len()
        invariant
            ids@.len() == i,
            forall|k: int| 0 <= k < i ==> #[trigger] ids@[k]@ == texts@[k]@,
    {
        ids.push(QuestId(texts[i].clone()));
    }
    assert(views(ids@) =~= text_views(texts@));
    ids
}

/// Feature identifiers from their texts.
fn feature_ids(texts: &Vec<String>) -> (ids: Vec<FeatureId>)
    ensures
        views(ids@) == text_views(texts@),
{
    let mut ids: Vec<FeatureId> = Vec::new();
    for i in 0..texts.len()
        invariant
            ids@.len() == i,
            forall|k: int| 0 <= k < i ==> #[trigger] ids@[k]@ == texts@[k]@,
    {
        ids.push(FeatureId(texts[i].clone()));
    }
    assert(views(ids@) =~= text_views(texts@));
    ids
}

/// NPC identifiers from their texts.
fn npc_ids(texts: &Vec<String>) -> (ids: Vec<NpcId>)
    ensures
        views(ids@) == text_views(texts@),
{
    let mut ids: Vec<NpcId> = Vec::new();
    for i in 0..texts.len()
        invariant
            ids@.len() == i,
            forall|k: int| 0 <= k < i ==> #[trigger] ids@[k]@ == texts@[k]@,
    {
        ids.push(NpcId(texts[i].clone()));
    }
    assert(views(ids@) =~= text_views(texts@));
    ids
}

/// A copy of an optional text.
fn copy_text(text: &Option<String>) -> (copy: Option<String>)
    ensures
        opt_view(copy) == opt_view(*text),
{
    match text {
        Some(t) => Some(t.clone()),
        None => None,
    }
}

/// Turns an item definition into an item.
pub fn convert_item(definition: ItemDefinition) -> (item: Item)
    ensures
        item@ == item_from(definition),
{
    let ItemDefinition { id, name, description } = definition;
    Item { id: ItemId(id), name, description }
}

/// Turns a feature definition into a room feature; a placement definition makes it a
/// supporter.
pub fn convert_feature(definition: FeatureDefinition) -> (feature: RoomFeature)
    ensures
        feature@ == feature_from(definition),
{
    let supporter = match &definition.placement {
        Some(placement) => match placement.relation {
            PlacementRelationDefinition::On => Some(
                Supporter {
                    capacity: placement.capacity,
                    accepts_items: item_ids(&placement.accepts_items),
                    rejection_message: copy_text(&placement.rejection_message),
                    full_message: copy_text(&placement.full_message),
                },
            ),
        },
        None => None,
    };
    let FeatureDefinition { id, name, room_description, description, .. } = definition;
    RoomFeature { id: FeatureId(id), name, room_description, description, supporter }
}

/// Turns a topic definition into a topic.
pub fn convert_npc_topic(definition: NpcTopicDefinition) -> (topic: NpcTopic)
    ensures
        topic@ == topic_from(definition),
{
    let requires_facts = fact_ids(&definition.requires_facts);
    let excludes_facts = fact_ids(&definition.excludes_facts);
    let grants_facts = fact_ids(&definition.grants_facts);
    let starts_quests = quest_ids(&definition.starts_quests);
    let NpcTopicDefinition { id, name, response, .. } = definition;
    NpcTopic {
        id: NpcTopicId(id),
        name,
        response,
        requires_facts,
        excludes_facts,
        grants_facts,
        starts_quests,
    }
}

/// Turns an NPC definition into a non-player character.
pub fn convert_npc(definition: NpcDefinition) -> (npc: Npc)
    ensures
        npc@ == npc_from(definition),
{
    let NpcDefinition { id, name, room_description, description, greeting, topics: defs } =
        definition;
    let ghost all = defs@;
    let mut rest = defs;
    let mut topics: Vec<NpcTopic> = Vec::new();
    let n = rest.len();
    assert(rest@ =~= all.skip(0));
    while rest.len() > 0
        invariant
            n == all.len(),
            topics@.len() + rest@.len() == n,
            rest@ == all.skip(topics@.len() as int),
            forall|k: int| 0 <= k < topics@.len() ==> #[trigger] topics@[k]@ == topic_from(all[k]),
        decreases rest.len(),
    {
        let ghost i: int = topics@.len() as int;
        let d = rest.remove(0);
        assert(d == all[i]);
        assert(rest@ =~= all.skip(i + 1));
        topics.push(convert_npc_topic(d));
    }
    let npc = Npc { id: NpcId(id), name, room_description, description, greeting, topics };
    assert(npc@.topics =~= Seq::new(all.len(), |i: int| topic_from(all[i])));
    npc
}


/// The requirements a conditional exit sets: carrying its item, then knowing its fact.
pub open spec fn requirements_from(item: Option<String>, fact: Option<String>) -> Seq<
    ExitRequirementView,
> {
    (match item {
        Some(i) => seq![ExitRequirementView::CarryingItem(i@)],
        None => Seq::empty(),
    }) + (match fact {
        Some(f) => seq![ExitRequirementView::KnowsFact(f@)],
        None => Seq::empty(),
    })
}

/// The exit an exit definition describes.
pub open spec fn exit_from(d: ExitDefinition) -> ExitView {
    match d {
        ExitDefinition::Simple(destination) => ExitView {
            destination: destination@,
            requirements: Seq::empty(),
            failure_message: None,
        },
        ExitDefinition::Conditional {
            destination,
            requires_item,
            requires_fact,
            failure_message,
        } => ExitView {
            destination: destination@,
            requirements: requirements_from(requires_item, requires_fact),
            failure_message: Some(failure_message@),
        },
    }
}

/// The exits `acc` becomes when the written exits `defs` are added in order, or the error
/// for the first one whose direction word is unknown.
pub open spec fn exits_from(
    acc: Seq<(Direction, ExitView)>,
    defs: Seq<(String, ExitDefinition)>,
) -> Result<Seq<(Direction, ExitView)>, Seq<char>>
    decreases defs.len(),
{
    if defs.len() == 0 {
        Ok(acc)
    } else {
        match direction_named(defs[0].0@) {
            None => Err("unknown direction '"@ + defs[0].0@ + "'"@),
            Some(d) => exits_from(table_insert(acc, d, exit_from(defs[0].1)), defs.drop_first()),
        }
    }
}

/// The room a room definition describes, or why it has none.
pub open spec fn room_from(d: RoomDefinition) -> Result<RoomView, Seq<char>> {
    match exits_from(Seq::empty(), d.exits@) {
        Err(e) => Err(e),
        Ok(exits) => Ok(
            RoomView {
                id: d.id@,
                name: d.name@,
                description: d.description@,
                features: text_views(d.features@),
                npcs: text_views(d.npcs@),
                exits,
            },
        ),
    }
}

/// The exit an exit definition describes.
fn convert_exit(definition: &ExitDefinition) -> (exit: Exit)
    ensures
        exit@ == exit_from(*definition),
{
    match definition {
        ExitDefinition::Simple(destination) => Exit::unrestricted(RoomId(destination.clone())),
        ExitDefinition::Conditional {
            destination,
            requires_item,
            requires_fact,
            failure_message,
        } => {
            let mut requirements: Vec<ExitRequirement> = Vec::new();
            match requires_item {
                Some(item) => requirements.push(ExitRequirement::CarryingItem(ItemId(item.clone()))),
                None => {},
            }
            match requires_fact {
                Some(fact) => requirements.push(ExitRequirement::KnowsFact(FactId(fact.clone()))),
                None => {},
            }
            let exit = Exit {
                destination: RoomId(destination.clone()),
                requirements,
                failure_message: Some(failure_message.clone()),
            };
            assert(exit@.requirements =~= requirements_from(*requires_item, *requires_fact));
            exit
        },
    }
}

/// Turns a room definition into a room; an exit whose direction word is unknown is an
/// error.
pub fn convert_room(definition: RoomDefinition) -> (room: Result<Room, String>)
    ensures
        match room {
            Ok(r) => room_from(definition) == Ok::<RoomView, Seq<char>>(r@),
            Err(e) => room_from(definition) == Err::<RoomView, Seq<char>>(e@),
        },
{
    let ghost all = definition.exits@;
    let mut exits: Table<Direction, Exit> = Table::new();
    let n = definition.exits.len();
    assert(all.skip(0) =~= all);
    for i in 0..n
        invariant
            n == all.len(),
            all == definition.exits@,
            exits_from(Seq::empty(), all) == exits_from(exits@, all.skip(i as int)),
    {
        let entry = &definition.exits[i];
        proof {
            assert(all.skip(i as int)[0] == all[i as int]);
            assert(all.skip(i as int).drop_first() =~= all.skip(i + 1));
        }
        match Direction::from_str(entry.0.as_str()) {
            None => {
                let mut message = "unknown direction '".to_string();
                push_text(&mut message, entry.0.as_str());
                push_text(&mut message, "'");
                return Err(message);
            },
            Some(direction) => {
                let exit = convert_exit(&entry.1);
                exits.insert(direction, exit);
            },
        }
    }
    assert(all.skip(n as int) =~= Seq::<(String, ExitDefinition)>::empty());
    let features = feature_ids(&definition.features);
    let npcs = npc_ids(&definition.npcs);
    let RoomDefinition { id, name, description, .. } = definition;
    Ok(Room { id: RoomId(id), name, description, features, npcs, exits })
}

/// Where the items a room lists start: in that room, in the order listed.
pub open spec fn room_placements(room: RoomDefinition) -> Seq<ItemPlacementView> {
    Seq::new(
        room.items@.len(),
        |k: int|
            ItemPlacementView {
                item_id: room.items@[k]@,
                location: ItemLocationView::Room(room.id@),
            },
    )
}

/// Where the items the rooms list start, room by room.
pub open spec fn placed_in_rooms(rooms: Seq<RoomDefinition>) -> Seq<ItemPlacementView>
    decreases rooms.len(),
{
    if rooms.len() == 0 {
        Seq::empty()
    } else {
        placed_in_rooms(rooms.drop_last()) + room_placements(rooms.last())
    }
}

/// `placements`, with each declared item that has no placement yet placed nowhere, in the
/// order the items are declared.
pub open spec fn with_unplaced(placements: Seq<ItemPlacementView>, items: Seq<ItemDefinition>) -> Seq<
    ItemPlacementView,
>
    decreases items.len(),
{
    if items.len() == 0 {
        placements
    } else {
        let next = if placement_position(placements, items[0].id@) >= 0 {
            placements
        } else {
            placements.push(
                ItemPlacementView { item_id: items[0].id@, location: ItemLocationView::Nowhere },
            )
        };
        with_unplaced(next, items.drop_first())
    }
}

/// The declared facts added to `acc` in order, each once.
pub open spec fn facts_from(acc: Seq<Seq<char>>, facts: Seq<super::definition::FactDefinition>) -> Seq<
    Seq<char>,
>
    decreases facts.len(),
{
    if facts.len() == 0 {
        acc
    } else {
        let next = if acc.contains(facts[0].id@) {
            acc
        } else {
            acc.push(facts[0].id@)
        };
        facts_from(next, facts.drop_first())
    }
}

/// The quests added to the table `acc` in order, keyed by identifier.
pub open spec fn quests_from(acc: Seq<(Seq<char>, QuestView)>, defs: Seq<QuestDefinition>) -> Seq<
    (Seq<char>, QuestView),
>
    decreases defs.len(),
{
    if defs.len() == 0 {
        acc
    } else {
        quests_from(table_insert(acc, defs[0].id@, quest_from(defs[0])), defs.drop_first())
    }
}

/// The items added to the table `acc` in order, keyed by identifier.
pub open spec fn items_from(acc: Seq<(Seq<char>, ItemView)>, defs: Seq<ItemDefinition>) -> Seq<
    (Seq<char>, ItemView),
>
    decreases defs.len(),
{
    if defs.len() == 0 {
        acc
    } else {
        items_from(table_insert(acc, defs[0].id@, item_from(defs[0])), defs.drop_first())
    }
}

/// The features added to the table `acc` in order, keyed by identifier.
pub open spec fn features_from(
    acc: Seq<(Seq<char>, RoomFeatureView)>,
    defs: Seq<FeatureDefinition>,
) -> Seq<(Seq<char>, RoomFeatureView)>
    decreases defs.len(),
{
    if defs.len() == 0 {
        acc
    } else {
        features_from(table_insert(acc, defs[0].id@, feature_from(defs[0])), defs.drop_first())
    }
}

/// The non-player characters added to the table `acc` in order, keyed by identifier.
pub open spec fn npcs_from(acc: Seq<(Seq<char>, NpcView)>, defs: Seq<NpcDefinition>) -> Seq<
    (Seq<char>, NpcView),
>
    decreases defs.len(),
{
    if defs.len() == 0 {
        acc
    } else {
        npcs_from(table_insert(acc, defs[0].id@, npc_from(defs[0])), defs.drop_first())
    }
}

/// The rooms added to the table `acc` in order, keyed by identifier, or the error of the
/// first room that has none.
pub open spec fn rooms_from(acc: Seq<(Seq<char>, RoomView)>, defs: Seq<RoomDefinition>) -> Result<
    Seq<(Seq<char>, RoomView)>,
    Seq<char>,
>
    decreases defs.len(),
{
    if defs.len() == 0 {
        Ok(acc)
    } else {
        match room_from(defs[0]) {
            Err(e) => Err(e),
            Ok(room) => rooms_from(table_insert(acc, defs[0].id@, room), defs.drop_first()),
        }
    }
}

/// The world a world definition describes, or the error of its first room that cannot be
/// turned into a room.
pub open spec fn world_from(d: WorldDefinition) -> Result<WorldView, Seq<char>> {
    match rooms_from(Seq::empty(), d.rooms@) {
        Err(e) => Err(e),
        Ok(rooms) => Ok(
            WorldView {
                id: d.id@,
                name: d.name@,
                starting_room: d.starting_room@,
                facts: facts_from(Seq::empty(), d.facts@),
                quests: quests_from(Seq::empty(), d.quests@),
                items: items_from(Seq::empty(), d.items@),
                item_placements: with_unplaced(placed_in_rooms(d.rooms@), d.items@),
                features: features_from(Seq::empty(), d.features@),
                npcs: npcs_from(Seq::empty(), d.npcs@),
                rooms,
            },
        ),
    }
}


/// The quest a quest definition describes.
fn convert_quest(definition: &QuestDefinition) -> (quest: Quest)
    ensures
        quest@ == quest_from(*definition),
{
    let mut steps: Vec<QuestStep> = Vec::new();
    let n = definition.steps.len();
    for i in 0..n
        invariant
            n == definition.steps@.len(),
            steps@.len() == i,
            forall|k: int| 0 <= k < i ==> #[trigger] steps@[k]@ == step_from(definition.steps@[k]),
    {
        let d = &definition.steps[i];
        let objective = match &d.objective {
            QuestObjectiveDefinition::ReachRoom { room } => QuestObjective::ReachRoom(
                RoomId(room.clone()),
            ),
            QuestObjectiveDefinition::PossessItem { item } => QuestObjective::PossessItem(
                ItemId(item.clone()),
            ),
            QuestObjectiveDefinition::AskTopic { npc, topic } => QuestObjective::AskTopic {
                npc_id: NpcId(npc.clone()),
                topic_id: NpcTopicId(topic.clone()),
            },
        };
        let next_step = match &d.next_step {
            Some(next) => Some(QuestStepId(next.clone())),
            None => None,
        };
        steps.push(
            QuestStep {
                id: QuestStepId(d.id.clone()),
                description: d.description.clone(),
                objective,
                next_step,
            },
        );
    }
    let quest = Quest {
        id: QuestId(definition.id.clone()),
        name: definition.name.clone(),
        description: definition.description.clone(),
        starting_step: QuestStepId(definition.starting_step.clone()),
        steps,
    };
    assert(quest@.steps =~= quest_from(*definition).steps);
    quest
}

/// Whether some placement is of the item with identifier `id`.
fn has_placement(placements: &Vec<ItemPlacement>, id: &String) -> (found: bool)
    ensures
        found == (placement_position(views(placements@), id@) >= 0),
{
    let ghost all = views(placements@);
    let n = placements.len();
    for i in 0..n
        invariant
            n == placements@.len(),
            all == views(placements@),
            forall|j: int| 0 <= j < i ==> all[j].item_id != id@,
    {
        if crate::text::str_eq(placements[i].item_id.0.as_str(), id.as_str()) {
            proof {
                lemma_placement_scan(all, id@, i as int);
            }
            return true;
        }
    }
    proof {
        lemma_placement_scan(all, id@, n as int);
    }
    false
}

/// Where the items start: those the rooms list in their rooms, room by room, then each
/// declared item not listed by any room nowhere.
fn initial_placements(rooms: &Vec<RoomDefinition>, items: &Vec<ItemDefinition>) -> (placements:
    Vec<ItemPlacement>)
    ensures
        views(placements@) == with_unplaced(placed_in_rooms(rooms@), items@),
{
    let mut placements: Vec<ItemPlacement> = Vec::new();
    let n = rooms.len();
    for r in 0..n
        invariant
            n == rooms@.len(),
            views(placements@) == placed_in_rooms(rooms@.take(r as int)),
    {
        let room = &rooms[r];
        let ghost before = views(placements@);
        let m = room.items.len();
        for k in 0..m
            invariant
                m == room.items@.len(),
                views(placements@) == before + room_placements(*room).take(k as int),
        {
            let ghost old_views = views(placements@);
            let placement = ItemPlacement {
                item_id: ItemId(room.items[k].clone()),
                location: ItemLocation::Room(RoomId(room.id.clone())),
            };
            assert(placement@ == room_placements(*room)[k as int]);
            placements.push(placement);
            assert(views(placements@) =~= old_views.push(placement@));
            assert(views(placements@) =~= before + room_placements(*room).take(k + 1));
        }
        proof {
            let t = rooms@.take(r + 1);
            assert(t.drop_last() =~= rooms@.take(r as int));
            assert(t.last() == *room);
            assert(room_placements(*room).take(m as int) =~= room_placements(*room));
        }
    }
    assert(rooms@.take(n as int) =~= rooms@);
    let ghost placed = placed_in_rooms(rooms@);
    let n_items = items.len();
    assert(items@.skip(0) =~= items@);
    for i in 0..n_items
        invariant
            n_items == items@.len(),
            with_unplaced(placed, items@) == with_unplaced(
                views(placements@),
                items@.skip(i as int),
            ),
    {
        let item = &items[i];
        proof {
            assert(items@.skip(i as int)[0] == *item);
            assert(items@.skip(i as int).drop_first() =~= items@.skip(i + 1));
        }
        let ghost old_views = views(placements@);
        if !has_placement(&placements, &item.id) {
            let placement = ItemPlacement {
                item_id: ItemId(item.id.clone()),
                location: ItemLocation::Nowhere,
            };
            placements.push(placement);
            assert(views(placements@) =~= old_views.push(placement@));
        }
    }
    assert(items@.skip(n_items as int) =~= Seq::<ItemDefinition>::empty());
    placements
}


/// Turns a world definition into a world: the items start where the rooms list them (items
/// no room lists start nowhere), and each kind of thing is keyed by its identifier. A room
/// that cannot be turned into a room makes the whole conversion fail with its error.
pub fn convert_world(definition: WorldDefinition) -> (world: Result<World, String>)
    ensures
        match world {
            Ok(w) => world_from(definition) == Ok::<WorldView, Seq<char>>(w@),
            Err(e) => world_from(definition) == Err::<WorldView, Seq<char>>(e@),
        },
{
    let ghost d = definition;
    let item_placements = initial_placements(&definition.rooms, &definition.items);
    let WorldDefinition { id, name, starting_room, items, features, npcs, facts, quests, rooms } =
        definition;

    let mut fact_set: KeySet<FactId> = KeySet::new();
    let n_facts = facts.len();
    assert(facts@.skip(0) =~= facts@);
    for i in 0..n_facts
        invariant
            n_facts == facts@.len(),
            facts_from(Seq::empty(), facts@) == facts_from(fact_set@, facts@.skip(i as int)),
    {
        proof {
            assert(facts@.skip(i as int)[0] == facts@[i as int]);
            assert(facts@.skip(i as int).drop_first() =~= facts@.skip(i + 1));
        }
        fact_set.insert(FactId(facts[i].id.clone()));
    }
    assert(facts@.skip(n_facts as int) =~= Seq::<super::definition::FactDefinition>::empty());

    let mut quest_table: Table<QuestId, Quest> = Table::new();
    let n_quests = quests.len();
    assert(quests@.skip(0) =~= quests@);
    for i in 0..n_quests
        invariant
            n_quests == quests@.len(),
            quests_from(Seq::empty(), quests@) == quests_from(
                quest_table@,
                quests@.skip(i as int),
            ),
    {
        proof {
            assert(quests@.skip(i as int)[0] == quests@[i as int]);
            assert(quests@.skip(i as int).drop_first() =~= quests@.skip(i + 1));
        }
        let quest = convert_quest(&quests[i]);
        quest_table.insert(quest.id.clone(), quest);
    }
    assert(quests@.skip(n_quests as int) =~= Seq::<QuestDefinition>::empty());

    let ghost room_defs = rooms@;
    let mut rest = rooms;
    let mut room_table: Table<RoomId, Room> = Table::new();
    let mut i: usize = 0;
    let n_rooms = rest.len();
    assert(room_defs.skip(0) =~= room_defs);
    while rest.len() > 0
        invariant
            i + rest@.len() == n_rooms,
            n_rooms == room_defs.len(),
            rest@ == room_defs.skip(i as int),
            rooms_from(Seq::empty(), room_defs) == rooms_from(
                room_table@,
                room_defs.skip(i as int),
            ),
            room_defs == d.rooms@,
            d == definition,
        decreases rest.len(),
    {
        let room_definition = rest.remove(0);
        proof {
            assert(room_definition == room_defs[i as int]);
            assert(room_defs.skip(i as int)[0] == room_defs[i as int]);
            assert(room_defs.skip(i as int).drop_first() =~= room_defs.skip(i + 1));
            assert(rest@ =~= room_defs.skip(i + 1));
        }
        let room = convert_room(room_definition);
        match room {
            Err(e) => {
                return Err(e);
            },
            Ok(room) => {
                room_table.insert(room.id.clone(), room);
            },
        }
        i = i + 1;
    }
    assert(room_defs.skip(i as int) =~= Seq::<RoomDefinition>::empty());

    let ghost item_defs = items@;
    let mut rest_items = items;
    let mut item_table: Table<ItemId, Item> = Table::new();
    let mut i: usize = 0;
    let n_items = rest_items.len();
    assert(item_defs.skip(0) =~= item_defs);
    while rest_items.len() > 0
        invariant
            i + rest_items@.len() == n_items,
            n_items == item_defs.len(),
            rest_items@ == item_defs.skip(i as int),
            items_from(Seq::empty(), item_defs) == items_from(
                item_table@,
                item_defs.skip(i as int),
            ),
        decreases rest_items.len(),
    {
        let item_definition = rest_items.remove(0);
        proof {
            assert(item_definition == item_defs[i as int]);
            assert(item_defs.skip(i as int)[0] == item_defs[i as int]);
            assert(item_defs.skip(i as int).drop_first() =~= item_defs.skip(i + 1));
            assert(rest_items@ =~= item_defs.skip(i + 1));
        }
        let item = convert_item(item_definition);
        item_table.insert(item.id.clone(), item);
        i = i + 1;
    }
    assert(item_defs.skip(i as int) =~= Seq::<ItemDefinition>::empty());

    let ghost feature_defs = features@;
    let mut rest_features = features;
    let mut feature_table: Table<FeatureId, RoomFeature> = Table::new();
    let mut i: usize = 0;
    let n_features = rest_features.len();
    assert(feature_defs.skip(0) =~= feature_defs);
    while rest_features.len() > 0
        invariant
            i + rest_features@.len() == n_features,
            n_features == feature_defs.len(),
            rest_features@ == feature_defs.skip(i as int),
            features_from(Seq::empty(), feature_defs) == features_from(
                feature_table@,
                feature_defs.skip(i as int),
            ),
        decreases rest_features.len(),
    {
        let feature_definition = rest_features.remove(0);
        proof {
            assert(feature_definition == feature_defs[i as int]);
            assert(feature_defs.skip(i as int)[0] == feature_defs[i as int]);
            assert(feature_defs.skip(i as int).drop_first() =~= feature_defs.skip(i + 1));
            assert(rest_features@ =~= feature_defs.skip(i + 1));
        }
        let feature = convert_feature(feature_definition);
        feature_table.insert(feature.id.clone(), feature);
        i = i + 1;
    }
    assert(feature_defs.skip(i as int) =~= Seq::<FeatureDefinition>::empty());

    let ghost npc_defs = npcs@;
    let mut rest_npcs = npcs;
    let mut npc_table: Table<NpcId, Npc> = Table::new();
    let mut i: usize = 0;
    let n_npcs = rest_npcs.len();
    assert(npc_defs.skip(0) =~= npc_defs);
    while rest_npcs.len() > 0
        invariant
            i + rest_npcs@.len() == n_npcs,
            n_npcs == npc_defs.len(),
            rest_npcs@ == npc_defs.skip(i as int),
            npcs_from(Seq::empty(), npc_defs) == npcs_from(npc_table@, npc_defs.skip(i as int)),
        decreases rest_npcs.len(),
    {
        let npc_definition = rest_npcs.remove(0);
        proof {
            assert(npc_definition == npc_defs[i as int]);
            assert(npc_defs.skip(i as int)[0] == npc_defs[i as int]);
            assert(npc_defs.skip(i as int).drop_first() =~= npc_defs.skip(i + 1));
            assert(rest_npcs@ =~= npc_defs.skip(i + 1));
        }
        let npc = convert_npc(npc_definition);
        npc_table.insert(npc.id.clone(), npc);
        i = i + 1;
    }
    assert(npc_defs.skip(i as int) =~= Seq::<NpcDefinition>::empty());

    Ok(
        World {
            id: WorldId(id),
            name,
            starting_room: RoomId(starting_room),
            facts: fact_set,
            quests: quest_table,
            items: item_table,
            item_placements,
            features: feature_table,
            npcs: npc_table,
            rooms: room_table,
        },
    )
}

} // verus!
