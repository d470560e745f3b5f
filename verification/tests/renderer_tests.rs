use adventure::game::command::TargetKind;
use adventure::game::direction::Direction;
use adventure::game::event::{
    AskFailureReason, DropFailureReason, ExamineFailureReason, ExaminedFeature, ExaminedItem,
    ExaminedNpc, GameEvent, ObservedFeature, ObservedItem, ObservedNpc, ObservedQuest,
    PutOnFailureReason, TakeFailureReason, TalkFailureReason,
};
use adventure::game::ids::{
    CharacterId, FeatureId, ItemId, NpcId, NpcTopicId, QuestId, QuestKey, RoomId, WorldId,
};
use adventure::terminal::renderer::render_event;

#[test]
fn room_observation_renders_room_details() {
    let event = GameEvent::RoomObserved {
        room_id: RoomId("start".to_string()),
        name: "Starting Room".to_string(),
        description: "A test room.".to_string(),
        items: vec![ObservedItem {
            id: ItemId("test_item".to_string()),
            name: "Test Item".to_string(),
        }],
        features: vec![ObservedFeature {
            id: FeatureId("test_feature".to_string()),
            name: "Test Feature".to_string(),
            room_description: "A test feature stands here.".to_string(),
            items: vec![],
        }],
        npcs: vec![ObservedNpc {
            id: NpcId("test_npc".to_string()),
            name: "Test NPC".to_string(),
            room_description: "A test NPC stands here.".to_string(),
        }],
        exits: vec![Direction::West, Direction::North, Direction::East],
    };

    assert_eq!(
        render_event(&event),
        "Starting Room\nA test room.\nA test feature stands here.\nA test NPC stands here.\nItems: Test Item\nExits: east, north, west"
    );
}

#[test]
fn room_without_features_omits_feature_paragraph() {
    let event = GameEvent::RoomObserved {
        room_id: RoomId("start".to_string()),
        name: "Starting Room".to_string(),
        description: "A test room.".to_string(),
        items: vec![],
        features: vec![],
        npcs: vec![],
        exits: vec![],
    };

    assert_eq!(
        render_event(&event),
        "Starting Room\nA test room.\nItems: none\nExits: none"
    );
}

#[test]
fn room_observation_identifies_items_on_features() {
    let event = GameEvent::RoomObserved {
        room_id: RoomId("start".to_string()),
        name: "Starting Room".to_string(),
        description: "A test room.".to_string(),
        items: vec![],
        features: vec![ObservedFeature {
            id: FeatureId("hook".to_string()),
            name: "Brass Hook".to_string(),
            room_description: "A brass hook is mounted here.".to_string(),
            items: vec![ObservedItem {
                id: ItemId("cloak".to_string()),
                name: "Traveler's Cloak".to_string(),
            }],
        }],
        npcs: vec![],
        exits: vec![],
    };

    assert!(render_event(&event).contains("On Brass Hook: Traveler's Cloak"));
    assert!(render_event(&event).contains("Items: none"));
}

#[test]
fn placed_item_renders_supporter_name() {
    let event = GameEvent::ItemPlacedOnFeature {
        character_id: CharacterId("player".to_string()),
        item: ObservedItem {
            id: ItemId("cloak".to_string()),
            name: "Traveler's Cloak".to_string(),
        },
        feature_id: FeatureId("hook".to_string()),
        feature_name: "Brass Hook".to_string(),
    };

    assert_eq!(
        render_event(&event),
        "You put Traveler's Cloak on Brass Hook."
    );
}

#[test]
fn successful_movement_renders_message() {
    let event = GameEvent::CharacterMoved {
        character_id: CharacterId("player".to_string()),
        from: RoomId("start".to_string()),
        to: RoomId("next_room".to_string()),
        direction: Direction::North,
    };

    assert_eq!(render_event(&event), "You move north.");
}

#[test]
fn exits_are_rendered_in_sorted_order() {
    let event = GameEvent::ExitsObserved {
        room_id: RoomId("start".to_string()),
        exits: vec![Direction::West, Direction::North, Direction::East],
    };

    assert_eq!(render_event(&event), "Exits: east, north, west");
}

#[test]
fn room_without_exits_renders_none() {
    let event = GameEvent::ExitsObserved {
        room_id: RoomId("start".to_string()),
        exits: vec![],
    };

    assert_eq!(render_event(&event), "Exits: none");
}

#[test]
fn help_lists_core_commands() {
    let rendered = render_event(&GameEvent::HelpRequested);

    assert!(rendered.starts_with("Commands:\n"));
    assert!(rendered.contains("go <direction>"));
    assert!(rendered.contains("look [item|feature|npc] <target>"));
    assert!(rendered.contains("help (commands)"));
    assert!(rendered.contains("talk to <npc>"));
    assert!(rendered.contains("ask <npc> about <topic>"));
}

#[test]
fn failed_movement_renders_message() {
    let event = GameEvent::MovementFailed {
        character_id: CharacterId("player".to_string()),
        room_id: RoomId("start".to_string()),
        direction: Direction::East,
    };

    assert_eq!(render_event(&event), "You cannot go east.");
}

#[test]
fn blocked_movement_renders_authored_message() {
    let event = GameEvent::MovementBlocked {
        character_id: CharacterId("player".to_string()),
        room_id: RoomId("start".to_string()),
        direction: Direction::East,
        message: "The iron gate is locked.".to_string(),
    };

    assert_eq!(render_event(&event), "The iron gate is locked.");
}

#[test]
fn taken_item_renders_message() {
    let event = GameEvent::ItemTaken {
        character_id: CharacterId("player".to_string()),
        room_id: RoomId("start".to_string()),
        item: ObservedItem {
            id: ItemId("rusty_key".to_string()),
            name: "Rusty Key".to_string(),
        },
    };

    assert_eq!(render_event(&event), "You take Rusty Key.");
}

#[test]
fn missing_take_target_renders_message() {
    let event = GameEvent::TakeFailed {
        character_id: CharacterId("player".to_string()),
        room_id: RoomId("start".to_string()),
        query: "silver key".to_string(),
        reason: TakeFailureReason::NotFound,
    };

    assert_eq!(render_event(&event), "You do not see 'silver key' here.");
}

#[test]
fn ambiguous_take_target_renders_message() {
    let event = GameEvent::TakeFailed {
        character_id: CharacterId("player".to_string()),
        room_id: RoomId("start".to_string()),
        query: "key".to_string(),
        reason: TakeFailureReason::Ambiguous { match_count: 2 },
    };

    assert_eq!(
        render_event(&event),
        "More than one item matches 'key':\n1. key (item)\n2. key (item)\nTry 'take 1 key' or another listed number."
    );
}

#[test]
fn inventory_renders_item_names() {
    let event = GameEvent::InventoryObserved {
        items: vec![ObservedItem {
            id: ItemId("rusty_key".to_string()),
            name: "Rusty Key".to_string(),
        }],
    };

    assert_eq!(render_event(&event), "Inventory: Rusty Key");
}

#[test]
fn empty_quest_journal_renders_none() {
    let event = GameEvent::QuestsObserved {
        active: vec![],
        completed: vec![],
    };

    assert_eq!(render_event(&event), "Quests: none");
}

#[test]
fn quest_journal_renders_active_and_completed_sections() {
    let quest = |id: &str, name: &str| ObservedQuest {
        key: QuestKey {
            world_id: WorldId("origin".to_string()),
            quest_id: QuestId(id.to_string()),
        },
        name: name.to_string(),
        description: format!("The description for {name}."),
        current_objective: (id == "active").then(|| "Do the active thing.".to_string()),
    };
    let event = GameEvent::QuestsObserved {
        active: vec![quest("active", "Active Quest")],
        completed: vec![quest("complete", "Completed Quest")],
    };

    assert_eq!(
        render_event(&event),
        "Active quests:\n- Active Quest\n  The description for Active Quest.\n  Current objective: Do the active thing.\nCompleted quests:\n- Completed Quest\n  The description for Completed Quest."
    );
}

#[test]
fn started_quest_renders_name_and_description() {
    let event = GameEvent::QuestStarted {
        character_id: CharacterId("player".to_string()),
        quest: ObservedQuest {
            key: QuestKey {
                world_id: WorldId("origin".to_string()),
                quest_id: QuestId("observatory".to_string()),
            },
            name: "Lights in the Old Observatory".to_string(),
            description: "Investigate the strange lights.".to_string(),
            current_objective: Some("Find the old observatory.".to_string()),
        },
    };

    assert_eq!(
        render_event(&event),
        "Quest started: Lights in the Old Observatory\nInvestigate the strange lights.\nCurrent objective: Find the old observatory."
    );
}

#[test]
fn advanced_quest_renders_new_objective() {
    let event = GameEvent::QuestAdvanced {
        character_id: CharacterId("player".to_string()),
        quest: ObservedQuest {
            key: QuestKey {
                world_id: WorldId("origin".to_string()),
                quest_id: QuestId("observatory".to_string()),
            },
            name: "Lights in the Old Observatory".to_string(),
            description: "Investigate the strange lights.".to_string(),
            current_objective: Some("Return to Mara Voss.".to_string()),
        },
    };

    assert_eq!(
        render_event(&event),
        "Quest updated: Lights in the Old Observatory\nCurrent objective: Return to Mara Voss."
    );
}

#[test]
fn completed_quest_renders_name() {
    let event = GameEvent::QuestCompleted {
        character_id: CharacterId("player".to_string()),
        quest: ObservedQuest {
            key: QuestKey {
                world_id: WorldId("origin".to_string()),
                quest_id: QuestId("observatory".to_string()),
            },
            name: "Lights in the Old Observatory".to_string(),
            description: "Investigate the strange lights.".to_string(),
            current_objective: None,
        },
    };

    assert_eq!(
        render_event(&event),
        "Quest completed: Lights in the Old Observatory"
    );
}

#[test]
fn dropped_item_renders_message() {
    let event = GameEvent::ItemDropped {
        character_id: CharacterId("player".to_string()),
        room_id: RoomId("start".to_string()),
        item: ObservedItem {
            id: ItemId("rusty_key".to_string()),
            name: "Rusty Key".to_string(),
        },
    };

    assert_eq!(render_event(&event), "You drop Rusty Key.");
}

#[test]
fn missing_drop_target_renders_message() {
    let event = GameEvent::DropFailed {
        character_id: CharacterId("player".to_string()),
        room_id: RoomId("start".to_string()),
        query: "silver key".to_string(),
        reason: DropFailureReason::NotFound,
    };

    assert_eq!(render_event(&event), "You are not carrying 'silver key'.");
}

#[test]
fn ambiguous_drop_target_renders_message() {
    let event = GameEvent::DropFailed {
        character_id: CharacterId("player".to_string()),
        room_id: RoomId("start".to_string()),
        query: "key".to_string(),
        reason: DropFailureReason::Ambiguous { match_count: 2 },
    };

    assert_eq!(
        render_event(&event),
        "More than one carried item matches 'key':\n1. key (item)\n2. key (item)\nTry 'drop 1 key' or another listed number."
    );
}

#[test]
fn examined_item_renders_description() {
    let event = GameEvent::ItemExamined {
        character_id: CharacterId("player".to_string()),
        item: ExaminedItem {
            id: ItemId("rusty_key".to_string()),
            name: "Rusty Key".to_string(),
            description: "A small iron key covered with rust.".to_string(),
        },
    };

    assert_eq!(
        render_event(&event),
        "Rusty Key\nA small iron key covered with rust."
    );
}

#[test]
fn examined_feature_renders_description() {
    let event = GameEvent::FeatureExamined {
        character_id: CharacterId("player".to_string()),
        feature: ExaminedFeature {
            id: FeatureId("founders_plaque".to_string()),
            name: "Founder's Plaque".to_string(),
            description: "A weathered bronze plaque.".to_string(),
            items: vec![],
        },
    };

    assert_eq!(
        render_event(&event),
        "Founder's Plaque\nA weathered bronze plaque."
    );
}

#[test]
fn examined_npc_renders_description() {
    let event = GameEvent::NpcExamined {
        character_id: CharacterId("player".to_string()),
        npc: ExaminedNpc {
            id: NpcId("mara_voss".to_string()),
            name: "Mara Voss".to_string(),
            description: "A sharp-eyed innkeeper.".to_string(),
        },
    };

    assert_eq!(render_event(&event), "Mara Voss\nA sharp-eyed innkeeper.");
}

#[test]
fn npc_greeting_renders_as_speech() {
    let event = GameEvent::NpcSpoke {
        character_id: CharacterId("player".to_string()),
        npc_id: NpcId("mara_voss".to_string()),
        name: "Mara Voss".to_string(),
        greeting: "Welcome to the Rusty Tavern.".to_string(),
        topics: vec![],
    };

    assert_eq!(
        render_event(&event),
        "Mara Voss says, \"Welcome to the Rusty Tavern.\""
    );
}

#[test]
fn npc_greeting_lists_public_topics() {
    let event = GameEvent::NpcSpoke {
        character_id: CharacterId("player".to_string()),
        npc_id: NpcId("mara_voss".to_string()),
        name: "Mara Voss".to_string(),
        greeting: "Welcome.".to_string(),
        topics: vec!["Origin Plaza".to_string()],
    };
    assert_eq!(
        render_event(&event),
        "Mara Voss says, \"Welcome.\"\nYou could ask Mara Voss about: Origin Plaza."
    );
}

#[test]
fn npc_topic_response_renders_as_speech() {
    let event = GameEvent::NpcAnswered {
        character_id: CharacterId("player".to_string()),
        npc_id: NpcId("mara_voss".to_string()),
        npc_name: "Mara Voss".to_string(),
        topic_id: NpcTopicId("origin_plaza".to_string()),
        topic_name: "Origin Plaza".to_string(),
        response: "It is west.".to_string(),
        learned_facts: vec![],
        updated_topics: None,
    };
    assert_eq!(render_event(&event), "Mara Voss says, \"It is west.\"");
}

#[test]
fn npc_answer_renders_topics_when_availability_changes() {
    let event = GameEvent::NpcAnswered {
        character_id: CharacterId("player".to_string()),
        npc_id: NpcId("mara_voss".to_string()),
        npc_name: "Mara Voss".to_string(),
        topic_id: NpcTopicId("strange_lights".to_string()),
        topic_name: "the strange lights".to_string(),
        response: "Look toward the old dome.".to_string(),
        learned_facts: vec![],
        updated_topics: Some(vec!["the old observatory".to_string()]),
    };

    assert_eq!(
        render_event(&event),
        "Mara Voss says, \"Look toward the old dome.\"\nYou could now ask Mara Voss about: the old observatory."
    );
}

#[test]
fn npc_answer_reports_when_no_discussion_topics_remain() {
    let event = GameEvent::NpcAnswered {
        character_id: CharacterId("player".to_string()),
        npc_id: NpcId("mara_voss".to_string()),
        npc_name: "Mara Voss".to_string(),
        topic_id: NpcTopicId("final_topic".to_string()),
        topic_name: "the final topic".to_string(),
        response: "That is all I know.".to_string(),
        learned_facts: vec![],
        updated_topics: Some(vec![]),
    };

    assert_eq!(
        render_event(&event),
        "Mara Voss says, \"That is all I know.\"\nThere are no remaining discussion topics."
    );
}

#[test]
fn unknown_npc_topic_renders_message() {
    let event = GameEvent::AskFailed {
        character_id: CharacterId("player".to_string()),
        npc_query: "mara voss".to_string(),
        topic_query: "dragon".to_string(),
        reason: AskFailureReason::TopicNotFound {
            npc_name: "Mara Voss".to_string(),
        },
    };
    assert_eq!(
        render_event(&event),
        "Mara Voss has nothing to say about 'dragon'."
    );
}

#[test]
fn missing_ask_npc_renders_message() {
    let event = GameEvent::AskFailed {
        character_id: CharacterId("player".to_string()),
        npc_query: "missing npc".to_string(),
        topic_query: "plaza".to_string(),
        reason: AskFailureReason::NpcNotFound,
    };
    assert_eq!(
        render_event(&event),
        "You do not see 'missing npc' here to ask."
    );
}

#[test]
fn ambiguous_ask_npc_renders_numbered_command() {
    let event = GameEvent::AskFailed {
        character_id: CharacterId("player".to_string()),
        npc_query: "guard".to_string(),
        topic_query: "old gate".to_string(),
        reason: AskFailureReason::NpcAmbiguous { match_count: 2 },
    };
    assert_eq!(
        render_event(&event),
        "More than one NPC matches 'guard':\n1. guard (npc)\n2. guard (npc)\nTry 'ask 1 guard about old gate' or another listed number."
    );
}

#[test]
fn out_of_range_ask_npc_renders_counts() {
    let event = GameEvent::AskFailed {
        character_id: CharacterId("player".to_string()),
        npc_query: "guard".to_string(),
        topic_query: "old gate".to_string(),
        reason: AskFailureReason::NpcOrdinalOutOfRange {
            requested: 3,
            available: 2,
        },
    };
    assert_eq!(
        render_event(&event),
        "There is no #3 'guard' here; 2 NPCs matched for the topic 'old gate'."
    );
}

#[test]
fn missing_talk_target_renders_message() {
    let event = GameEvent::TalkFailed {
        character_id: CharacterId("player".to_string()),
        query: "missing npc".to_string(),
        reason: TalkFailureReason::NotFound,
    };

    assert_eq!(
        render_event(&event),
        "You do not see 'missing npc' here to talk to."
    );
}

#[test]
fn ambiguous_talk_target_renders_numbered_choices() {
    let event = GameEvent::TalkFailed {
        character_id: CharacterId("player".to_string()),
        query: "guard".to_string(),
        reason: TalkFailureReason::Ambiguous { match_count: 2 },
    };

    assert_eq!(
        render_event(&event),
        "More than one NPC matches 'guard':\n1. guard (npc)\n2. guard (npc)\nTry 'talk to 1 guard' or another listed number."
    );
}

#[test]
fn out_of_range_talk_target_renders_counts() {
    let event = GameEvent::TalkFailed {
        character_id: CharacterId("player".to_string()),
        query: "guard".to_string(),
        reason: TalkFailureReason::OrdinalOutOfRange {
            requested: 3,
            available: 2,
        },
    };

    assert_eq!(
        render_event(&event),
        "There is no #3 'guard' here; 2 NPCs matched."
    );
}

#[test]
fn missing_examine_target_renders_message() {
    let event = GameEvent::ExamineFailed {
        character_id: CharacterId("player".to_string()),
        query: "silver key".to_string(),
        reason: ExamineFailureReason::NotFound,
    };

    assert_eq!(
        render_event(&event),
        "You cannot find 'silver key' to examine."
    );
}

#[test]
fn ambiguous_examine_target_renders_message() {
    let event = GameEvent::ExamineFailed {
        character_id: CharacterId("player".to_string()),
        query: "key".to_string(),
        reason: ExamineFailureReason::Ambiguous {
            kinds: vec![TargetKind::Item, TargetKind::Feature],
        },
    };

    assert_eq!(
        render_event(&event),
        "More than one accessible target matches 'key':\n1. key (item)\n2. key (feature)\nTry 'examine 1 key', 'examine item key', 'examine feature key', or 'examine npc key'."
    );
}

#[test]
fn exit_listing_is_the_same_for_any_order_of_exits() {
    let listing = |exits: Vec<Direction>| {
        render_event(&GameEvent::ExitsObserved {
            room_id: RoomId("hall".to_string()),
            exits,
        })
    };
    let expected = "Exits: east, north, south, west".to_string();
    assert_eq!(
        listing(vec![Direction::West, Direction::South, Direction::North, Direction::East]),
        expected
    );
    assert_eq!(
        listing(vec![Direction::North, Direction::East, Direction::West, Direction::South]),
        expected
    );
}
