use adventure::game::direction::Direction;
use adventure::game::exit::ExitRequirement;
use adventure::game::ids::{
    FactId, FeatureId, ItemId, NpcId, NpcTopicId, QuestId, QuestStepId, RoomId, WorldId,
};
use adventure::game::item_location::ItemLocation;
use adventure::game::quest::QuestObjective;
use adventure::world_data::conversion::{
    convert_feature, convert_item, convert_npc, convert_room, convert_world,
};
use adventure::world_data::definition::{
    ExitDefinition, FactDefinition, FeatureDefinition, FeaturePlacementDefinition,
    ItemDefinition, NpcDefinition, NpcTopicDefinition, PlacementRelationDefinition,
    QuestDefinition, QuestObjectiveDefinition, QuestStepDefinition, RoomDefinition,
    WorldDefinition,
};

fn valid_room_definition() -> RoomDefinition {
    let mut exits = Vec::new();
    exits.push((
        "north".to_string(),
        ExitDefinition::Simple("next_room".to_string()),
    ));

    RoomDefinition {
        id: "start".to_string(),
        name: "Starting Room".to_string(),
        description: "A test room.".to_string(),
        items: vec!["test_item".to_string()],
        features: vec!["test_feature".to_string()],
        npcs: vec!["test_npc".to_string()],
        exits,
    }
}

fn valid_world_definition() -> WorldDefinition {
    WorldDefinition {
        id: "test_world".to_string(),
        name: "Test World".to_string(),
        starting_room: "start".to_string(),
        facts: vec![FactDefinition {
            id: "knows_secret".to_string(),
        }],
        quests: vec![QuestDefinition {
            id: "test_quest".to_string(),
            name: "Test Quest".to_string(),
            description: "A quest used for testing.".to_string(),
            starting_step: "first_step".to_string(),
            steps: vec![QuestStepDefinition {
                id: "first_step".to_string(),
                description: "Complete the first objective.".to_string(),
                objective: QuestObjectiveDefinition::ReachRoom {
                    room: "next_room".to_string(),
                },
                next_step: None,
            }],
        }],
        items: vec![ItemDefinition {
            id: "test_item".to_string(),
            name: "Test Item".to_string(),
            description: "An item used for testing.".to_string(),
        }],
        features: vec![FeatureDefinition {
            id: "test_feature".to_string(),
            name: "Test Feature".to_string(),
            room_description: "A test feature stands here.".to_string(),
            description: "A feature used for testing.".to_string(),
            placement: None,
        }],
        npcs: vec![NpcDefinition {
            id: "test_npc".to_string(),
            name: "Test NPC".to_string(),
            room_description: "A test NPC stands here.".to_string(),
            description: "An NPC used for testing.".to_string(),
            greeting: "Hello from the test NPC.".to_string(),
            topics: vec![NpcTopicDefinition {
                id: "test_topic".to_string(),
                name: "Test Topic".to_string(),
                response: "This is the test topic response.".to_string(),
                requires_facts: vec!["knows_secret".to_string()],
                excludes_facts: vec![],
                grants_facts: vec!["knows_secret".to_string()],
                starts_quests: vec!["test_quest".to_string()],
            }],
        }],
        rooms: vec![
            valid_room_definition(),
            RoomDefinition {
                id: "next_room".to_string(),
                name: "Next Room".to_string(),
                description: "Another test room.".to_string(),
                items: vec![],
                features: vec![],
                npcs: vec![],
                exits: vec![],
            },
        ],
    }
}

#[test]
fn valid_world_definition_converts() {
    let definition = valid_world_definition();

    let world = convert_world(definition).expect("valid world should convert");

    let item = world
        .items
        .get(&ItemId("test_item".to_string()))
        .expect("converted item should exist");
    let feature = world
        .features
        .get(&FeatureId("test_feature".to_string()))
        .expect("converted feature should exist");
    let npc = world
        .npcs
        .get(&NpcId("test_npc".to_string()))
        .expect("converted NPC should exist");

    assert_eq!(world.id, WorldId("test_world".to_string()));
    assert_eq!(world.name, "Test World");
    assert_eq!(world.starting_room, RoomId("start".to_string()));
    assert_eq!(world.rooms.len(), 2);
    assert_eq!(world.items.len(), 1);
    assert_eq!(world.features.len(), 1);
    assert_eq!(world.npcs.len(), 1);
    assert_eq!(
        world.item_location(&ItemId("test_item".to_string())),
        Some(&ItemLocation::Room(RoomId("start".to_string())))
    );
    assert!(world.declares_fact(&FactId("knows_secret".to_string())));
    assert_eq!(
        world
            .quest(&QuestId("test_quest".to_string()))
            .map(|quest| quest.name.as_str()),
        Some("Test Quest")
    );
    let quest = world
        .quest(&QuestId("test_quest".to_string()))
        .expect("converted quest should exist");
    assert_eq!(quest.starting_step, QuestStepId("first_step".to_string()));
    assert_eq!(
        quest
            .step(&QuestStepId("first_step".to_string()))
            .map(|step| step.description.as_str()),
        Some("Complete the first objective.")
    );
    assert_eq!(
        quest
            .step(&QuestStepId("first_step".to_string()))
            .map(|step| &step.objective),
        Some(&QuestObjective::ReachRoom(RoomId("next_room".to_string())))
    );
    assert!(
        quest
            .step(&QuestStepId("first_step".to_string()))
            .expect("converted step should exist")
            .next_step
            .is_none()
    );
    assert_eq!(item.name, "Test Item");
    assert_eq!(feature.name, "Test Feature");
    assert_eq!(npc.name, "Test NPC");
    assert!(world.rooms.contains_key(&RoomId("start".to_string())));
    assert!(world.rooms.contains_key(&RoomId("next_room".to_string())));
}

#[test]
fn declared_unplaced_item_converts_with_nowhere_location() {
    let mut definition = valid_world_definition();
    definition.items.push(ItemDefinition {
        id: "unplaced_item".to_string(),
        name: "Unplaced Item".to_string(),
        description: "An item not initially present in a room.".to_string(),
    });

    let world = convert_world(definition).expect("valid world should convert");

    assert_eq!(
        world.item_location(&ItemId("unplaced_item".to_string())),
        Some(&ItemLocation::Nowhere)
    );
}

#[test]
fn invalid_room_prevents_world_conversion() {
    let mut definition = valid_world_definition();

    definition.rooms[0].exits.push((
        "sideways".to_string(),
        ExitDefinition::Simple("next_room".to_string()),
    ));

    let error =
        convert_world(definition).expect_err("world containing an invalid room should fail");

    assert_eq!(error, "unknown direction 'sideways'");
}

#[test]
fn ask_topic_objective_converts_to_typed_npc_and_topic_ids() {
    let mut definition = valid_world_definition();
    definition.quests[0].steps[0].objective = QuestObjectiveDefinition::AskTopic {
        npc: "test_npc".to_string(),
        topic: "test_topic".to_string(),
    };

    let world = convert_world(definition).expect("valid world should convert");
    let objective = &world
        .quest(&QuestId("test_quest".to_string()))
        .unwrap()
        .steps[0]
        .objective;

    assert_eq!(
        objective,
        &QuestObjective::AskTopic {
            npc_id: NpcId("test_npc".to_string()),
            topic_id: NpcTopicId("test_topic".to_string()),
        }
    );
}

#[test]
fn possess_item_objective_converts_to_typed_item_id() {
    let mut definition = valid_world_definition();
    definition.quests[0].steps[0].objective = QuestObjectiveDefinition::PossessItem {
        item: "test_item".to_string(),
    };

    let world = convert_world(definition).expect("valid world should convert");
    let objective = &world
        .quest(&QuestId("test_quest".to_string()))
        .unwrap()
        .steps[0]
        .objective;

    assert_eq!(
        objective,
        &QuestObjective::PossessItem(ItemId("test_item".to_string()))
    );
}

#[test]
fn valid_room_definition_converts() {
    let room_definition = valid_room_definition();
    let room = convert_room(room_definition).expect("valid room should convert");

    assert_eq!(room.id, RoomId("start".to_string()));
    assert_eq!(room.name, "Starting Room");
    assert_eq!(
        room.exits
            .get(&Direction::North)
            .map(|exit| &exit.destination),
        Some(&RoomId("next_room".to_string()))
    );
    assert_eq!(room.features, vec![FeatureId("test_feature".to_string())]);
    assert_eq!(room.npcs, vec![NpcId("test_npc".to_string())]);
}

#[test]
fn combined_exit_requirements_convert_to_typed_runtime_requirements() {
    let mut room_definition = valid_room_definition();
    room_definition.exits.push((
        "east".to_string(),
        ExitDefinition::Conditional {
            destination: "next_room".to_string(),
            requires_item: Some("test_item".to_string()),
            requires_fact: Some("test_fact".to_string()),
            failure_message: "The door is locked.".to_string(),
        },
    ));

    let room = convert_room(room_definition).expect("valid room should convert");
    let exit = room.exits.get(&Direction::East).unwrap();

    assert_eq!(exit.destination, RoomId("next_room".to_string()));
    assert_eq!(
        exit.requirements,
        vec![
            ExitRequirement::CarryingItem(ItemId("test_item".to_string())),
            ExitRequirement::KnowsFact(FactId("test_fact".to_string()))
        ]
    );
    assert_eq!(exit.failure_message.as_deref(), Some("The door is locked."));
}

#[test]
fn invalid_direction_does_not_convert() {
    let mut room_definition = valid_room_definition();

    room_definition.exits.push((
        "sideways".to_string(),
        ExitDefinition::Simple("start".to_string()),
    ));

    let error = convert_room(room_definition).expect_err("unknown direction should fail");

    assert_eq!(error, "unknown direction 'sideways'");
}

#[test]
fn item_definition_converts() {
    let definition = ItemDefinition {
        id: "test_item".to_string(),
        name: "Test Item".to_string(),
        description: "An item used for testing.".to_string(),
    };

    let item = convert_item(definition);

    assert_eq!(item.id, ItemId("test_item".to_string()));
    assert_eq!(item.name, "Test Item");
    assert_eq!(item.description, "An item used for testing.");
}

#[test]
fn feature_definition_converts() {
    let definition = FeatureDefinition {
        id: "test_feature".to_string(),
        name: "Test Feature".to_string(),
        room_description: "A test feature stands here.".to_string(),
        description: "A feature used for testing.".to_string(),
        placement: None,
    };

    let feature = convert_feature(definition);

    assert_eq!(feature.id, FeatureId("test_feature".to_string()));
    assert_eq!(feature.name, "Test Feature");
    assert_eq!(feature.room_description, "A test feature stands here.");
    assert_eq!(feature.description, "A feature used for testing.");
}

#[test]
fn supporter_definition_converts_with_typed_accepted_items() {
    let definition = FeatureDefinition {
        id: "hook".to_string(),
        name: "Hook".to_string(),
        room_description: "A hook is mounted here.".to_string(),
        description: "A sturdy hook.".to_string(),
        placement: Some(FeaturePlacementDefinition {
            relation: PlacementRelationDefinition::On,
            capacity: Some(1),
            accepts_items: vec!["test_item".to_string()],
            rejection_message: Some("That will not hang.".to_string()),
            full_message: Some("The hook is occupied.".to_string()),
        }),
    };

    let feature = convert_feature(definition);
    let supporter = feature.supporter.expect("supporter should convert");

    assert_eq!(supporter.capacity, Some(1));
    assert_eq!(
        supporter.accepts_items,
        vec![ItemId("test_item".to_string())]
    );
    assert_eq!(
        supporter.rejection_message.as_deref(),
        Some("That will not hang.")
    );
}

#[test]
fn npc_definition_converts() {
    let npc = convert_npc(NpcDefinition {
        id: "test_npc".to_string(),
        name: "Test NPC".to_string(),
        room_description: "A test NPC stands here.".to_string(),
        description: "An NPC used for testing.".to_string(),
        greeting: "Hello from the test NPC.".to_string(),
        topics: vec![NpcTopicDefinition {
            id: "test_topic".to_string(),
            name: "Test Topic".to_string(),
            response: "This is the test topic response.".to_string(),
            requires_facts: vec![],
            excludes_facts: vec![],
            grants_facts: vec![],
            starts_quests: vec![],
        }],
    });

    assert_eq!(npc.id, NpcId("test_npc".to_string()));
    assert_eq!(npc.name, "Test NPC");
    assert_eq!(npc.room_description, "A test NPC stands here.");
    assert_eq!(npc.description, "An NPC used for testing.");
    assert_eq!(npc.greeting, "Hello from the test NPC.");
    assert_eq!(npc.topics.len(), 1);
    assert_eq!(npc.topics[0].id, NpcTopicId("test_topic".to_string()));
    assert!(npc.topics[0].requires_facts.is_empty());
    assert!(npc.topics[0].excludes_facts.is_empty());
    assert!(npc.topics[0].grants_facts.is_empty());
    assert!(npc.topics[0].starts_quests.is_empty());
}
