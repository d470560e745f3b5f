use adventure::world_data::definition::{
    ExitDefinition, FactDefinition, FeatureDefinition, ItemDefinition, NpcDefinition,
    NpcTopicDefinition, QuestDefinition, QuestObjectiveDefinition, QuestStepDefinition,
    RoomDefinition, WorldDefinition,
};
use adventure::world_data::validation::validate_world;

fn valid_world() -> WorldDefinition {
    WorldDefinition {
        id: "test_world".to_string(),
        name: "Test World".to_string(),
        starting_room: "start".to_string(),
        facts: vec![],
        quests: vec![],
        items: vec![],
        features: vec![],
        npcs: vec![],
        rooms: vec![RoomDefinition {
            id: "start".to_string(),
            name: "Starting Room".to_string(),
            description: "A test room.".to_string(),
            items: vec![],
            features: vec![],
            npcs: vec![],
            exits: vec![],
        }],
    }
}

#[test]
fn valid_world_passes_validation() {
    let world = valid_world();

    assert!(validate_world(&world).is_ok());
}

#[test]
fn empty_world_id_fails_validation() {
    let mut world = valid_world();
    world.id = "  ".to_string();

    let result = validate_world(&world);

    assert_eq!(result, Err("World id is empty".to_string()));
}

#[test]
fn invalid_world_id_fails_validation() {
    let mut world = valid_world();
    world.id = "test!".to_string();

    let result = validate_world(&world);

    assert_eq!(
        result,
        Err("World id has invalid characters: test!".to_string())
    );
}

#[test]
fn invalid_room_id_fails_validation() {
    let mut world = valid_world();
    world.rooms[0].id = "test!".to_string();

    let result = validate_world(&world);

    assert_eq!(
        result,
        Err("Id for room 'Starting Room' has invalid characters: test!".to_string())
    );
}

#[test]
fn empty_room_id_fails_validation() {
    let mut world = valid_world();
    world.rooms[0].id = "  ".to_string();

    let result = validate_world(&world);

    assert_eq!(result, Err("Room 'Starting Room' has no id".to_string()));
}

#[test]
fn missing_exit_destination_fails_validation() {
    let mut world = valid_world();
    world.rooms[0]
        .exits.push(("north".to_string(), ExitDefinition::Simple("missing_room".to_string())));

    let result = validate_world(&world);

    assert_eq!(
        result,
        Err(
            "Room with id 'start' has exit 'north' pointing to missing room 'missing_room'"
                .to_string()
        )
    );
}

#[test]
fn duplicate_room_ids_fail_validation() {
    let mut world = valid_world();
    world.rooms.push(RoomDefinition {
        id: "start".to_string(),
        name: "New Room".to_string(),
        description: "A second test room.".to_string(),
        items: vec![],
        features: vec![],
        npcs: vec![],
        exits: vec![],
    });

    let result = validate_world(&world);

    assert_eq!(
        result,
        Err("The room named New Room has the duplicate id: start".to_string())
    );
}

#[test]
fn missing_starting_room_fails_validation() {
    let mut world = valid_world();
    world.starting_room = "end".to_string();

    let result = validate_world(&world);

    assert_eq!(
        result,
        Err("Starting room 'end' does not exist".to_string())
    );
}

#[test]
fn unknown_direction_fails_validation() {
    let mut world = valid_world();
    world.rooms[0]
        .exits.push(("sideways".to_string(), ExitDefinition::Simple("start".to_string())));

    let result = validate_world(&world);

    assert_eq!(
        result,
        Err("Room with id 'start' has invalid exit direction 'sideways'".to_string())
    );
}

#[test]
fn empty_item_id_fails_validation() {
    let mut world = valid_world();

    world.items.push(ItemDefinition {
        id: "  ".to_string(),
        name: "Test Item".to_string(),
        description: "An item used for testing.".to_string(),
    });

    let result = validate_world(&world);

    assert_eq!(result, Err("Item 'Test Item' has no id".to_string()));
}

#[test]
fn invalid_item_id_fails_validation() {
    let mut world = valid_world();

    world.items.push(ItemDefinition {
        id: "bad!".to_string(),
        name: "Test Item".to_string(),
        description: "An item used for testing.".to_string(),
    });

    let result = validate_world(&world);

    assert_eq!(
        result,
        Err("Id for item 'Test Item' has invalid characters: bad!".to_string())
    );
}

#[test]
fn duplicate_item_ids_fail_validation() {
    let mut world = valid_world();

    world.items.push(ItemDefinition {
        id: "test_item".to_string(),
        name: "First Item".to_string(),
        description: "The first item.".to_string(),
    });

    world.items.push(ItemDefinition {
        id: "test_item".to_string(),
        name: "Second Item".to_string(),
        description: "The second item".to_string(),
    });

    let result = validate_world(&world);

    assert_eq!(
        result,
        Err("The item named Second Item has the duplicate id: test_item".to_string())
    );
}

#[test]
fn room_item_reference_must_exist() {
    let mut world = valid_world();

    world.rooms[0].items.push("missing_item".to_string());

    let result = validate_world(&world);

    assert_eq!(
        result,
        Err("Room 'start' references missing item 'missing_item'".to_string())
    );
}

#[test]
fn item_cannot_start_in_multiple_rooms() {
    let mut world = valid_world();

    world.items.push(ItemDefinition {
        id: "test_item".to_string(),
        name: "Test Item".to_string(),
        description: "An item used for testing.".to_string(),
    });

    world.rooms[0].items.push("test_item".to_string());

    world.rooms.push(RoomDefinition {
        id: "second_room".to_string(),
        name: "Second Room".to_string(),
        description: "Another room".to_string(),
        items: vec!["test_item".to_string()],
        features: vec![],
        npcs: vec![],
        exits: vec![],
    });

    let result = validate_world(&world);

    assert_eq!(
        result,
        Err("Item 'test_item' is placed more than once".to_string())
    );
}

#[test]
fn empty_feature_id_fails_validation() {
    let mut world = valid_world();

    world.features.push(FeatureDefinition {
        id: "  ".to_string(),
        name: "Test Feature".to_string(),
        room_description: "A test feature stands here.".to_string(),
        description: "A feature used for testing.".to_string(),
        placement: None,
    });

    let result = validate_world(&world);

    assert_eq!(result, Err("Feature 'Test Feature' has no id".to_string()));
}

#[test]
fn invalid_feature_id_fails_validation() {
    let mut world = valid_world();

    world.features.push(FeatureDefinition {
        id: "bad!".to_string(),
        name: "Test Feature".to_string(),
        room_description: "A test feature stands here.".to_string(),
        description: "A feature used for testing.".to_string(),
        placement: None,
    });

    let result = validate_world(&world);

    assert_eq!(
        result,
        Err("Id for feature 'Test Feature' has invalid characters: bad!".to_string())
    );
}

#[test]
fn duplicate_feature_ids_fail_validation() {
    let mut world = valid_world();

    world.features.push(FeatureDefinition {
        id: "test_feature".to_string(),
        name: "First Feature".to_string(),
        room_description: "The first feature stands here.".to_string(),
        description: "The first feature.".to_string(),
        placement: None,
    });

    world.features.push(FeatureDefinition {
        id: "test_feature".to_string(),
        name: "Second Feature".to_string(),
        room_description: "The second feature stands here.".to_string(),
        description: "The second feature.".to_string(),
        placement: None,
    });

    let result = validate_world(&world);

    assert_eq!(
        result,
        Err("The feature named Second Feature has the duplicate id: test_feature".to_string())
    );
}

#[test]
fn room_feature_reference_must_exist() {
    let mut world = valid_world();

    world.rooms[0].features.push("missing_feature".to_string());

    let result = validate_world(&world);

    assert_eq!(
        result,
        Err("Room 'start' references missing feature 'missing_feature'".to_string())
    );
}

#[test]
fn feature_cannot_be_placed_in_multiple_rooms() {
    let mut world = valid_world();

    world.features.push(FeatureDefinition {
        id: "test_feature".to_string(),
        name: "Test Feature".to_string(),
        room_description: "A test feature stands here.".to_string(),
        description: "A feature used for testing.".to_string(),
        placement: None,
    });

    world.rooms[0].features.push("test_feature".to_string());

    world.rooms.push(RoomDefinition {
        id: "second_room".to_string(),
        name: "Second Room".to_string(),
        description: "Another room.".to_string(),
        items: vec![],
        features: vec!["test_feature".to_string()],
        npcs: vec![],
        exits: vec![],
    });

    let result = validate_world(&world);

    assert_eq!(
        result,
        Err("Feature 'test_feature' is placed more than once".to_string())
    );
}

fn test_npc(id: &str, name: &str) -> NpcDefinition {
    NpcDefinition {
        id: id.to_string(),
        name: name.to_string(),
        room_description: "A test NPC stands here.".to_string(),
        description: "An NPC used for testing.".to_string(),
        greeting: "Hello from the test NPC.".to_string(),
        topics: vec![],
    }
}

#[test]
fn empty_npc_id_fails_validation() {
    let mut world = valid_world();
    world.npcs.push(test_npc("  ", "Test NPC"));

    assert_eq!(
        validate_world(&world),
        Err("NPC 'Test NPC' has no id".to_string())
    );
}

#[test]
fn invalid_npc_id_fails_validation() {
    let mut world = valid_world();
    world.npcs.push(test_npc("bad!", "Test NPC"));

    assert_eq!(
        validate_world(&world),
        Err("Id for NPC 'Test NPC' has invalid characters: bad!".to_string())
    );
}

#[test]
fn duplicate_npc_ids_fail_validation() {
    let mut world = valid_world();
    world.npcs.push(test_npc("test_npc", "First NPC"));
    world.npcs.push(test_npc("test_npc", "Second NPC"));

    assert_eq!(
        validate_world(&world),
        Err("The NPC named Second NPC has the duplicate id: test_npc".to_string())
    );
}

#[test]
fn room_npc_reference_must_exist() {
    let mut world = valid_world();
    world.rooms[0].npcs.push("missing_npc".to_string());

    assert_eq!(
        validate_world(&world),
        Err("Room 'start' references missing NPC 'missing_npc'".to_string())
    );
}

#[test]
fn npc_cannot_start_in_multiple_rooms() {
    let mut world = valid_world();
    world.npcs.push(test_npc("test_npc", "Test NPC"));
    world.rooms[0].npcs.push("test_npc".to_string());
    world.rooms.push(RoomDefinition {
        id: "second_room".to_string(),
        name: "Second Room".to_string(),
        description: "Another room.".to_string(),
        items: vec![],
        features: vec![],
        npcs: vec!["test_npc".to_string()],
        exits: vec![],
    });

    assert_eq!(
        validate_world(&world),
        Err("NPC 'test_npc' is placed more than once".to_string())
    );
}

fn test_topic(id: &str, name: &str) -> NpcTopicDefinition {
    NpcTopicDefinition {
        id: id.to_string(),
        name: name.to_string(),
        response: "A test response.".to_string(),
        requires_facts: vec![],
        excludes_facts: vec![],
        grants_facts: vec![],
        starts_quests: vec![],
    }
}

#[test]
fn empty_npc_topic_id_fails_validation() {
    let mut world = valid_world();
    let mut npc = test_npc("test_npc", "Test NPC");
    npc.topics.push(test_topic("  ", "Test Topic"));
    world.npcs.push(npc);
    assert_eq!(
        validate_world(&world),
        Err("Topic 'Test Topic' on NPC 'test_npc' has no id".to_string())
    );
}

#[test]
fn invalid_npc_topic_id_fails_validation() {
    let mut world = valid_world();
    let mut npc = test_npc("test_npc", "Test NPC");
    npc.topics.push(test_topic("bad!", "Test Topic"));
    world.npcs.push(npc);
    assert_eq!(
        validate_world(&world),
        Err(
            "Id for topic 'Test Topic' on NPC 'test_npc' has invalid characters: bad!"
                .to_string()
        )
    );
}

#[test]
fn duplicate_npc_topic_ids_fail_validation() {
    let mut world = valid_world();
    let mut npc = test_npc("test_npc", "Test NPC");
    npc.topics.push(test_topic("shared", "First Topic"));
    npc.topics.push(test_topic("shared", "Second Topic"));
    world.npcs.push(npc);
    assert_eq!(
        validate_world(&world),
        Err("NPC 'test_npc' has duplicate topic id 'shared'".to_string())
    );
}

#[test]
fn duplicate_normalized_npc_topic_names_fail_validation() {
    let mut world = valid_world();
    let mut npc = test_npc("test_npc", "Test NPC");
    npc.topics.push(test_topic("first", "Old-Gate"));
    npc.topics.push(test_topic("second", "old gate"));
    world.npcs.push(npc);
    assert_eq!(
        validate_world(&world),
        Err("NPC 'test_npc' has duplicate normalized topic name 'old gate'".to_string())
    );
}

#[test]
fn untargetable_npc_topic_name_fails_validation() {
    let mut world = valid_world();
    let mut npc = test_npc("test_npc", "Test NPC");
    npc.topics.push(test_topic("punctuation", "---"));
    world.npcs.push(npc);
    assert_eq!(
        validate_world(&world),
        Err("Topic 'punctuation' on NPC 'test_npc' has no targetable name".to_string())
    );
}

#[test]
fn valid_declared_fact_passes_validation() {
    let mut world = valid_world();
    world.facts.push(FactDefinition {
        id: "knows_secret".to_string(),
    });

    assert!(validate_world(&world).is_ok());
}

#[test]
fn empty_fact_id_fails_validation() {
    let mut world = valid_world();
    world.facts.push(FactDefinition {
        id: "  ".to_string(),
    });

    assert_eq!(validate_world(&world), Err("Fact has no id".to_string()));
}

#[test]
fn invalid_fact_id_fails_validation() {
    let mut world = valid_world();
    world.facts.push(FactDefinition {
        id: "bad!".to_string(),
    });

    assert_eq!(
        validate_world(&world),
        Err("Fact id has invalid characters: bad!".to_string())
    );
}

#[test]
fn duplicate_fact_ids_fail_validation() {
    let mut world = valid_world();
    world.facts.push(FactDefinition {
        id: "shared_fact".to_string(),
    });
    world.facts.push(FactDefinition {
        id: "shared_fact".to_string(),
    });

    assert_eq!(
        validate_world(&world),
        Err("World has duplicate fact id 'shared_fact'".to_string())
    );
}

#[test]
fn topic_required_fact_must_be_declared() {
    let mut world = valid_world();
    let mut npc = test_npc("test_npc", "Test NPC");
    let mut topic = test_topic("secret", "Secret");
    topic.requires_facts.push("missing_fact".to_string());
    npc.topics.push(topic);
    world.npcs.push(npc);

    assert_eq!(
        validate_world(&world),
        Err(
            "Topic 'secret' on NPC 'test_npc' requires missing fact 'missing_fact'".to_string()
        )
    );
}

#[test]
fn topic_excluded_fact_must_be_declared() {
    let mut world = valid_world();
    let mut npc = test_npc("test_npc", "Test NPC");
    let mut topic = test_topic("secret", "Secret");
    topic.excludes_facts.push("missing_fact".to_string());
    npc.topics.push(topic);
    world.npcs.push(npc);

    assert_eq!(
        validate_world(&world),
        Err(
            "Topic 'secret' on NPC 'test_npc' excludes missing fact 'missing_fact'".to_string()
        )
    );
}

#[test]
fn duplicate_topic_fact_condition_fails_validation() {
    let mut world = valid_world();
    world.facts.push(FactDefinition {
        id: "known_fact".to_string(),
    });
    let mut npc = test_npc("test_npc", "Test NPC");
    let mut topic = test_topic("secret", "Secret");
    topic.requires_facts = vec!["known_fact".to_string(), "known_fact".to_string()];
    npc.topics.push(topic);
    world.npcs.push(npc);

    assert_eq!(
        validate_world(&world),
        Err(
            "Topic 'secret' on NPC 'test_npc' requires fact 'known_fact' more than once"
                .to_string()
        )
    );
}

#[test]
fn duplicate_excluded_topic_fact_condition_fails_validation() {
    let mut world = valid_world();
    world.facts.push(FactDefinition {
        id: "known_fact".to_string(),
    });
    let mut npc = test_npc("test_npc", "Test NPC");
    let mut topic = test_topic("secret", "Secret");
    topic.excludes_facts = vec!["known_fact".to_string(), "known_fact".to_string()];
    npc.topics.push(topic);
    world.npcs.push(npc);

    assert_eq!(
        validate_world(&world),
        Err(
            "Topic 'secret' on NPC 'test_npc' excludes fact 'known_fact' more than once"
                .to_string()
        )
    );
}

#[test]
fn topic_granted_fact_must_be_declared() {
    let mut world = valid_world();
    let mut npc = test_npc("test_npc", "Test NPC");
    let mut topic = test_topic("secret", "Secret");
    topic.grants_facts.push("missing_fact".to_string());
    npc.topics.push(topic);
    world.npcs.push(npc);

    assert_eq!(
        validate_world(&world),
        Err("Topic 'secret' on NPC 'test_npc' grants missing fact 'missing_fact'".to_string())
    );
}

#[test]
fn duplicate_granted_topic_fact_fails_validation() {
    let mut world = valid_world();
    world.facts.push(FactDefinition {
        id: "known_fact".to_string(),
    });
    let mut npc = test_npc("test_npc", "Test NPC");
    let mut topic = test_topic("secret", "Secret");
    topic.grants_facts = vec!["known_fact".to_string(), "known_fact".to_string()];
    npc.topics.push(topic);
    world.npcs.push(npc);

    assert_eq!(
        validate_world(&world),
        Err(
            "Topic 'secret' on NPC 'test_npc' grants fact 'known_fact' more than once"
                .to_string()
        )
    );
}

#[test]
fn topic_may_exclude_and_grant_same_fact() {
    let mut world = valid_world();
    world.facts.push(FactDefinition {
        id: "known_fact".to_string(),
    });
    let mut npc = test_npc("test_npc", "Test NPC");
    let mut topic = test_topic("secret", "Secret");
    topic.excludes_facts.push("known_fact".to_string());
    topic.grants_facts.push("known_fact".to_string());
    npc.topics.push(topic);
    world.npcs.push(npc);

    assert!(validate_world(&world).is_ok());
}

fn test_quest(id: &str, name: &str) -> QuestDefinition {
    QuestDefinition {
        id: id.to_string(),
        name: name.to_string(),
        description: "A quest used for testing.".to_string(),
        starting_step: "first_step".to_string(),
        steps: vec![QuestStepDefinition {
            id: "first_step".to_string(),
            description: "Complete the first objective.".to_string(),
            objective: QuestObjectiveDefinition::ReachRoom {
                room: "start".to_string(),
            },
            next_step: None,
        }],
    }
}

#[test]
fn valid_quest_passes_validation() {
    let mut world = valid_world();
    world.quests.push(test_quest("test_quest", "Test Quest"));

    assert!(validate_world(&world).is_ok());
}

#[test]
fn empty_quest_id_fails_validation() {
    let mut world = valid_world();
    world.quests.push(test_quest("  ", "Test Quest"));

    assert_eq!(
        validate_world(&world),
        Err("Quest 'Test Quest' has no id".to_string())
    );
}

#[test]
fn invalid_quest_id_fails_validation() {
    let mut world = valid_world();
    world.quests.push(test_quest("bad!", "Test Quest"));

    assert_eq!(
        validate_world(&world),
        Err("Id for quest 'Test Quest' has invalid characters: bad!".to_string())
    );
}

#[test]
fn duplicate_quest_ids_fail_validation() {
    let mut world = valid_world();
    world.quests.push(test_quest("test_quest", "First Quest"));
    world.quests.push(test_quest("test_quest", "Second Quest"));

    assert_eq!(
        validate_world(&world),
        Err("The quest named Second Quest has the duplicate id: test_quest".to_string())
    );
}

#[test]
fn quest_name_and_description_must_not_be_empty() {
    let mut unnamed_world = valid_world();
    unnamed_world.quests.push(test_quest("test_quest", "  "));
    assert_eq!(
        validate_world(&unnamed_world),
        Err("Quest 'test_quest' has no name".to_string())
    );

    let mut undescribed_world = valid_world();
    let mut quest = test_quest("test_quest", "Test Quest");
    quest.description = "  ".to_string();
    undescribed_world.quests.push(quest);
    assert_eq!(
        validate_world(&undescribed_world),
        Err("Quest 'test_quest' has no description".to_string())
    );
}

#[test]
fn quest_starting_step_must_not_be_empty() {
    let mut world = valid_world();
    let mut quest = test_quest("test_quest", "Test Quest");
    quest.starting_step = "  ".to_string();
    world.quests.push(quest);

    assert_eq!(
        validate_world(&world),
        Err("Quest 'test_quest' has no starting step".to_string())
    );
}

#[test]
fn invalid_quest_starting_step_id_fails_validation() {
    let mut world = valid_world();
    let mut quest = test_quest("test_quest", "Test Quest");
    quest.starting_step = "bad!".to_string();
    world.quests.push(quest);

    assert_eq!(
        validate_world(&world),
        Err("Starting step for quest 'test_quest' has invalid characters: bad!".to_string())
    );
}

#[test]
fn empty_quest_step_id_fails_validation() {
    let mut world = valid_world();
    let mut quest = test_quest("test_quest", "Test Quest");
    quest.steps[0].id = "  ".to_string();
    world.quests.push(quest);

    assert_eq!(
        validate_world(&world),
        Err("A step on quest 'test_quest' has no id".to_string())
    );
}

#[test]
fn invalid_quest_step_id_fails_validation() {
    let mut world = valid_world();
    let mut quest = test_quest("test_quest", "Test Quest");
    quest.steps[0].id = "bad!".to_string();
    world.quests.push(quest);

    assert_eq!(
        validate_world(&world),
        Err("Step id on quest 'test_quest' has invalid characters: bad!".to_string())
    );
}

#[test]
fn duplicate_quest_step_ids_fail_validation() {
    let mut world = valid_world();
    let mut quest = test_quest("test_quest", "Test Quest");
    quest.steps.push(QuestStepDefinition {
        id: "first_step".to_string(),
        description: "A duplicate step.".to_string(),
        objective: QuestObjectiveDefinition::ReachRoom {
            room: "start".to_string(),
        },
        next_step: None,
    });
    world.quests.push(quest);

    assert_eq!(
        validate_world(&world),
        Err("Quest 'test_quest' has duplicate step id 'first_step'".to_string())
    );
}

#[test]
fn quest_step_description_must_not_be_empty() {
    let mut world = valid_world();
    let mut quest = test_quest("test_quest", "Test Quest");
    quest.steps[0].description = "  ".to_string();
    world.quests.push(quest);

    assert_eq!(
        validate_world(&world),
        Err("Step 'first_step' on quest 'test_quest' has no description".to_string())
    );
}

#[test]
fn quest_starting_step_must_reference_declared_step() {
    let mut world = valid_world();
    let mut quest = test_quest("test_quest", "Test Quest");
    quest.starting_step = "missing_step".to_string();
    world.quests.push(quest);

    assert_eq!(
        validate_world(&world),
        Err("Quest 'test_quest' references missing starting step 'missing_step'".to_string())
    );
}

#[test]
fn reach_room_objective_must_reference_declared_room() {
    let mut world = valid_world();
    let mut quest = test_quest("test_quest", "Test Quest");
    quest.steps[0].objective = QuestObjectiveDefinition::ReachRoom {
        room: "missing_room".to_string(),
    };
    world.quests.push(quest);

    assert_eq!(
        validate_world(&world),
        Err(
            "Step 'first_step' on quest 'test_quest' references missing room 'missing_room'"
                .to_string()
        )
    );
}

#[test]
fn quest_next_step_must_not_be_empty() {
    let mut world = valid_world();
    let mut quest = test_quest("test_quest", "Test Quest");
    quest.steps[0].next_step = Some("  ".to_string());
    world.quests.push(quest);

    assert_eq!(
        validate_world(&world),
        Err("Step 'first_step' on quest 'test_quest' has an empty next step".to_string())
    );
}

#[test]
fn invalid_quest_next_step_id_fails_validation() {
    let mut world = valid_world();
    let mut quest = test_quest("test_quest", "Test Quest");
    quest.steps[0].next_step = Some("bad!".to_string());
    world.quests.push(quest);

    assert_eq!(
        validate_world(&world),
        Err(
            "Next step for 'first_step' on quest 'test_quest' has invalid characters: bad!"
                .to_string()
        )
    );
}

#[test]
fn quest_next_step_must_reference_declared_step() {
    let mut world = valid_world();
    let mut quest = test_quest("test_quest", "Test Quest");
    quest.steps[0].next_step = Some("missing_step".to_string());
    world.quests.push(quest);

    assert_eq!(
        validate_world(&world),
        Err("Step 'first_step' on quest 'test_quest' references missing next step 'missing_step'".to_string())
    );
}

#[test]
fn cyclic_quest_steps_fail_validation() {
    let mut world = valid_world();
    let mut quest = test_quest("test_quest", "Test Quest");
    quest.steps[0].next_step = Some("second_step".to_string());
    quest.steps.push(QuestStepDefinition {
        id: "second_step".to_string(),
        description: "Complete the second objective.".to_string(),
        objective: QuestObjectiveDefinition::ReachRoom {
            room: "start".to_string(),
        },
        next_step: Some("first_step".to_string()),
    });
    world.quests.push(quest);

    assert_eq!(
        validate_world(&world),
        Err("Quest 'test_quest' contains a cycle at step 'first_step'".to_string())
    );
}

#[test]
fn unreachable_quest_steps_fail_validation() {
    let mut world = valid_world();
    let mut quest = test_quest("test_quest", "Test Quest");
    quest.steps.push(QuestStepDefinition {
        id: "orphaned_step".to_string(),
        description: "An unreachable objective.".to_string(),
        objective: QuestObjectiveDefinition::ReachRoom {
            room: "start".to_string(),
        },
        next_step: None,
    });
    world.quests.push(quest);

    assert_eq!(
        validate_world(&world),
        Err(
            "Step 'orphaned_step' on quest 'test_quest' is unreachable from the starting step"
                .to_string()
        )
    );
}

#[test]
fn topic_started_quest_must_be_declared() {
    let mut world = valid_world();
    let mut npc = test_npc("test_npc", "Test NPC");
    let mut topic = test_topic("quest_offer", "Quest Offer");
    topic.starts_quests.push("missing_quest".to_string());
    npc.topics.push(topic);
    world.npcs.push(npc);

    assert_eq!(
        validate_world(&world),
        Err(
            "Topic 'quest_offer' on NPC 'test_npc' starts missing quest 'missing_quest'"
                .to_string()
        )
    );
}

#[test]
fn duplicate_started_quest_fails_validation() {
    let mut world = valid_world();
    world.quests.push(test_quest("test_quest", "Test Quest"));
    let mut npc = test_npc("test_npc", "Test NPC");
    let mut topic = test_topic("quest_offer", "Quest Offer");
    topic.starts_quests = vec!["test_quest".to_string(), "test_quest".to_string()];
    npc.topics.push(topic);
    world.npcs.push(npc);

    assert_eq!(
        validate_world(&world),
        Err(
            "Topic 'quest_offer' on NPC 'test_npc' starts quest 'test_quest' more than once"
                .to_string()
        )
    );
}

#[test]
fn contradictory_topic_fact_condition_fails_validation() {
    let mut world = valid_world();
    world.facts.push(FactDefinition {
        id: "known_fact".to_string(),
    });
    let mut npc = test_npc("test_npc", "Test NPC");
    let mut topic = test_topic("secret", "Secret");
    topic.requires_facts.push("known_fact".to_string());
    topic.excludes_facts.push("known_fact".to_string());
    npc.topics.push(topic);
    world.npcs.push(npc);

    assert_eq!(
        validate_world(&world),
        Err(
            "Topic 'secret' on NPC 'test_npc' both requires and excludes fact 'known_fact'"
                .to_string()
        )
    );
}
