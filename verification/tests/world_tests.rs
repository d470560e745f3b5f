use adventure::game::direction::Direction;
use adventure::game::feature::RoomFeature;
use adventure::game::ids::{CharacterId, FactId, FeatureId, ItemId, NpcId, QuestId, QuestStepId, RoomId, WorldId};
use adventure::game::item::{normalize_item_name, Item};
use adventure::game::item_location::{ItemLocation, ItemPlacement};
use adventure::game::naming::normalize_name;
use adventure::game::npc::Npc;
use adventure::game::quest::{Quest, QuestObjective, QuestStep};
use adventure::game::room::Room;
use adventure::game::table::{KeySet, Table};
use adventure::game::world::World;

fn valid_room() -> Room {
    Room {
        id: RoomId("start".to_string()),
        name: "Starting Room".to_string(),
        description: "A test room.".to_string(),
        features: vec![],
        npcs: vec![],
        exits: Table::new(),
    }
}

fn valid_world() -> World {
    let mut rooms = Table::new();
    let room = valid_room();
    rooms.insert(room.id.clone(), room);

    let item = Item {
        id: ItemId("test_item".to_string()),
        name: "Test Item".to_string(),
        description: "An item used for testing.".to_string(),
    };
    let mut items = Table::new();
    items.insert(item.id.clone(), item);

    let feature = RoomFeature {
        id: FeatureId("test_feature".to_string()),
        name: "Test Feature".to_string(),
        room_description: "A test feature stands here.".to_string(),
        description: "A feature used for testing.".to_string(),
        supporter: None,
    };

    let mut features = Table::new();
    features.insert(feature.id.clone(), feature);

    let npc = Npc {
        id: NpcId("test_npc".to_string()),
        name: "Test NPC".to_string(),
        room_description: "A test NPC stands here.".to_string(),
        description: "An NPC used for testing.".to_string(),
        greeting: "Hello from the test NPC.".to_string(),
        topics: vec![],
    };
    let mut npcs = Table::new();
    npcs.insert(npc.id.clone(), npc);

    World {
        id: WorldId("test_world".to_string()),
        name: "Test World".to_string(),
        starting_room: RoomId("start".to_string()),
        facts: KeySet::new(),
        quests: Table::new(),
        items,
        item_placements: vec![ItemPlacement {
            item_id: ItemId("test_item".to_string()),
            location: ItemLocation::Nowhere,
        }],
        features,
        npcs,
        rooms,
    }
}

#[test]
fn existing_room_returns_borrowed_room() {
    let world = valid_world();
    let room = world
        .room(&RoomId("start".to_string()))
        .expect("starting room should exist");

    assert_eq!(room.name, "Starting Room");
}

#[test]
fn missing_room_returns_none() {
    let world = valid_world();
    assert!(world.room(&RoomId("missing".to_string())).is_none());
}

#[test]
fn existing_item_returns_borrowed_item() {
    let world = valid_world();

    let item = world
        .item(&ItemId("test_item".to_string()))
        .expect("Item should exist");

    assert_eq!(item.name, "Test Item");
}

#[test]
fn missing_item_returns_none() {
    let world = valid_world();

    assert!(world.item(&ItemId("missing".to_string())).is_none());
}

#[test]
fn item_location_can_be_changed() {
    let mut world = valid_world();
    assert!(world.move_item(
        &ItemId("test_item".to_string()),
        ItemLocation::Room(RoomId("start".to_string()))
    ));
    let character_id = CharacterId("player".to_string());
    assert!(world.move_item(
        &ItemId("test_item".to_string()),
        ItemLocation::CarriedBy(character_id.clone())
    ));
    assert_eq!(
        world.item_location(&ItemId("test_item".to_string())),
        Some(&ItemLocation::CarriedBy(character_id))
    );
    assert_eq!(world.item_placements.len(), 1);
}

#[test]
fn existing_feature_returns_borrowed_feature() {
    let world = valid_world();

    let feature = world
        .feature(&FeatureId("test_feature".to_string()))
        .expect("feature should exist");

    assert_eq!(feature.name, "Test Feature");
}

#[test]
fn missing_feature_returns_none() {
    let world = valid_world();

    assert!(world.feature(&FeatureId("missing".to_string())).is_none());
}

#[test]
fn existing_npc_returns_borrowed_npc() {
    let world = valid_world();

    let npc = world
        .npc(&NpcId("test_npc".to_string()))
        .expect("NPC should exist");

    assert_eq!(npc.name, "Test NPC");
}

#[test]
fn missing_npc_returns_none() {
    let world = valid_world();
    assert!(world.npc(&NpcId("missing".to_string())).is_none());
}

#[test]
fn declared_fact_can_be_found() {
    let mut world = valid_world();
    world.facts.insert(FactId("known_fact".to_string()));

    assert!(world.declares_fact(&FactId("known_fact".to_string())));
    assert!(!world.declares_fact(&FactId("missing_fact".to_string())));
}

#[test]
fn existing_quest_returns_borrowed_quest() {
    let mut world = valid_world();
    let quest = Quest {
        id: QuestId("test_quest".to_string()),
        name: "Test Quest".to_string(),
        description: "A quest used for testing.".to_string(),
        starting_step: QuestStepId("first_step".to_string()),
        steps: vec![QuestStep {
            id: QuestStepId("first_step".to_string()),
            description: "Complete the first objective.".to_string(),
            objective: QuestObjective::ReachRoom(RoomId("start".to_string())),
            next_step: None,
        }],
    };
    world.quests.insert(quest.id.clone(), quest);

    assert_eq!(
        world
            .quest(&QuestId("test_quest".to_string()))
            .map(|quest| quest.name.as_str()),
        Some("Test Quest")
    );
    assert!(world.quest(&QuestId("missing".to_string())).is_none());
    assert_eq!(
        world
            .quest(&QuestId("test_quest".to_string()))
            .and_then(|quest| quest.step(&QuestStepId("first_step".to_string())))
            .map(|step| step.description.as_str()),
        Some("Complete the first objective.")
    );
}

#[test]
fn parse_known_direction() {
    assert_eq!(Direction::from_str("north"), Some(Direction::North));
}

#[test]
fn rejects_unknown_direction() {
    assert_eq!(Direction::from_str("sideways"), None);
}

#[test]
fn normalization_ignores_case_and_extra_whitespace() {
    assert_eq!(normalize_name("  Rusty   KEY  "), "rusty key");
}

#[test]
fn normalization_ignores_quotes_and_apostrophes() {
    assert_eq!(normalize_name("\"Founder’s Plaque\""), "founders plaque");
    assert_eq!(normalize_name("Founder's Plaque"), "founders plaque");
}

#[test]
fn normalization_treats_other_punctuation_as_word_boundaries() {
    assert_eq!(normalize_name("iron-bound/chest"), "iron bound chest");
}

#[test]
fn item_name_normalization_ignores_case_and_extra_whitespace() {
    assert_eq!(normalize_item_name("  Rusty   KEY  "), "rusty key");
}

#[test]
fn normalizing_an_ascii_name_twice_changes_nothing() {
    let once = normalize_name("  The Old-Town's  GATE, No.7 \t");
    assert_eq!(once, "the old towns gate no 7");
    assert_eq!(normalize_name(&once), once);
}

#[test]
fn changing_a_room_in_place_keeps_its_place_among_the_rooms() {
    let mut rooms = Table::new();
    rooms.insert(RoomId("a".to_string()), 1u8);
    rooms.insert(RoomId("b".to_string()), 2u8);
    *rooms.get_mut(&RoomId("a".to_string())).expect("a is there") = 7;
    assert_eq!(rooms.get(&RoomId("a".to_string())), Some(&7));
    assert_eq!(rooms.key_at(0), &RoomId("a".to_string()));
    assert_eq!(rooms.len(), 2);
    assert!(rooms.get_mut(&RoomId("c".to_string())).is_none());
}

#[test]
fn names_normalize_the_same_in_any_ascii_case() {
    assert_eq!(normalize_name("Old  Rusty KEY"), normalize_name("old rusty key"));
    assert_eq!(normalize_name("OLD RUSTY KEY"), "old rusty key");
}

#[test]
fn ascii_item_names_are_lower_cased_with_single_spaces() {
    assert_eq!(normalize_item_name("  Brass   LAMP "), "brass lamp");
}
