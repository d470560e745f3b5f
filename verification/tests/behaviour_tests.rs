use adventure::game::character::Character;
use adventure::game::command::{AskQuery, Command, TargetQuery};
use adventure::game::direction::Direction;
use adventure::game::event::{GameEvent, TakeFailureReason, ObservedItem};
use adventure::game::exit::Exit;
use adventure::game::game::Game;
use adventure::game::ids::{
    CharacterId, FactId, FactKey, ItemId, NpcId, NpcTopicId, QuestId, QuestKey, QuestStepId,
    RoomId, WorldId,
};
use adventure::game::item::Item;
use adventure::game::item_location::{ItemLocation, ItemPlacement};
use adventure::game::npc::{Npc, NpcTopic};
use adventure::game::quest::{Quest, QuestObjective, QuestProgress, QuestStatus, QuestStep};
use adventure::game::room::Room;
use adventure::game::table::{KeySet, Table};
use adventure::game::world::World;
use adventure::terminal::renderer::render_event;
use adventure::terminal::{interpret_line, LineAction};
use adventure::world_data::conversion::convert_world;
use adventure::world_data::definition::{
    ExitDefinition, QuestDefinition, QuestObjectiveDefinition, QuestStepDefinition,
    RoomDefinition, WorldDefinition,
};
use adventure::world_data::validation::validate_world;

fn small_game() -> Game {
    let mut exits = Table::new();
    exits.insert(Direction::North, Exit::unrestricted(RoomId("hall".to_string())));
    let mut rooms = Table::new();
    rooms.insert(
        RoomId("porch".to_string()),
        Room {
            id: RoomId("porch".to_string()),
            name: "Porch".to_string(),
            description: "A creaking porch.".to_string(),
            features: vec![],
            npcs: vec![NpcId("guide".to_string())],
            exits,
        },
    );
    rooms.insert(
        RoomId("hall".to_string()),
        Room {
            id: RoomId("hall".to_string()),
            name: "Hall".to_string(),
            description: "A dusty hall.".to_string(),
            features: vec![],
            npcs: vec![],
            exits: Table::new(),
        },
    );
    let mut items = Table::new();
    items.insert(
        ItemId("lamp".to_string()),
        Item {
            id: ItemId("lamp".to_string()),
            name: "Brass Lamp".to_string(),
            description: "It still has oil.".to_string(),
        },
    );
    let mut npcs = Table::new();
    npcs.insert(
        NpcId("guide".to_string()),
        Npc {
            id: NpcId("guide".to_string()),
            name: "Guide".to_string(),
            room_description: "A guide waits here.".to_string(),
            description: "A patient guide.".to_string(),
            greeting: "Welcome.".to_string(),
            topics: vec![NpcTopic {
                id: NpcTopicId("hall".to_string()),
                name: "Hall".to_string(),
                response: "The hall lies north.".to_string(),
                requires_facts: vec![],
                excludes_facts: vec![],
                grants_facts: vec![FactId("hall_known".to_string())],
                starts_quests: vec![QuestId("visit".to_string())],
            }],
        },
    );
    let mut quests = Table::new();
    quests.insert(
        QuestId("visit".to_string()),
        Quest {
            id: QuestId("visit".to_string()),
            name: "Visit".to_string(),
            description: "See the hall.".to_string(),
            starting_step: QuestStepId("go".to_string()),
            steps: vec![QuestStep {
                id: QuestStepId("go".to_string()),
                description: "Walk into the hall.".to_string(),
                objective: QuestObjective::ReachRoom(RoomId("hall".to_string())),
                next_step: None,
            }],
        },
    );
    let mut facts = KeySet::new();
    facts.insert(FactId("hall_known".to_string()));
    let world = World {
        id: WorldId("house".to_string()),
        name: "House".to_string(),
        starting_room: RoomId("porch".to_string()),
        facts,
        quests,
        items,
        item_placements: vec![ItemPlacement {
            item_id: ItemId("lamp".to_string()),
            location: ItemLocation::Room(RoomId("porch".to_string())),
        }],
        features: Table::new(),
        npcs,
        rooms,
    };
    let character = Character {
        id: CharacterId("hero".to_string()),
        name: "Hero".to_string(),
        current_room: RoomId("porch".to_string()),
        facts: KeySet::new(),
        quests: Table::new(),
    };
    Game::new(world, character)
}

#[test]
fn quitting_words_are_read_in_any_case() {
    assert_eq!(interpret_line("  QuIt \n"), LineAction::Quit);
    assert_eq!(interpret_line("EXIT"), LineAction::Quit);
}

#[test]
fn other_lines_are_read_as_commands_or_reported() {
    assert_eq!(interpret_line("look\n"), LineAction::Run(Command::Look));
    assert_eq!(
        interpret_line("  dance  wildly \n"),
        LineAction::Report("unknown command 'dance  wildly'".to_string())
    );
}

#[test]
fn table_gives_back_what_was_written() {
    let mut table: Table<ItemId, u8> = Table::new();
    table.insert(ItemId("a".to_string()), 1);
    table.insert(ItemId("b".to_string()), 2);
    table.insert(ItemId("a".to_string()), 3);
    assert_eq!(table.get(&ItemId("a".to_string())), Some(&3));
    assert_eq!(table.get(&ItemId("b".to_string())), Some(&2));
    assert_eq!(table.len(), 2);
    assert_eq!(table.key_at(0), &ItemId("a".to_string()));
}

#[test]
fn moved_item_is_found_at_its_new_place() {
    let mut game = small_game();
    assert!(game.world.move_item(
        &ItemId("lamp".to_string()),
        ItemLocation::CarriedBy(CharacterId("hero".to_string()))
    ));
    assert_eq!(
        game.world.item_location(&ItemId("lamp".to_string())),
        Some(&ItemLocation::CarriedBy(CharacterId("hero".to_string())))
    );
    assert_eq!(game.world.item_placements.len(), 1);
    assert!(!game.world.move_item(&ItemId("ghost".to_string()), ItemLocation::Nowhere));
}

#[test]
fn refused_take_changes_nothing() {
    let mut game = small_game();
    let events = game.process(Command::Take(TargetQuery::item("spoon".to_string())));
    assert_eq!(
        events,
        vec![GameEvent::TakeFailed {
            character_id: CharacterId("hero".to_string()),
            room_id: RoomId("porch".to_string()),
            query: "spoon".to_string(),
            reason: TakeFailureReason::NotFound,
        }]
    );
    assert_eq!(
        game.world.item_location(&ItemId("lamp".to_string())),
        Some(&ItemLocation::Room(RoomId("porch".to_string())))
    );
}

#[test]
fn taken_item_is_carried_and_dropped_item_lies_here() {
    let mut game = small_game();
    let events = game.process(Command::Take(TargetQuery::item("brass  LAMP".to_string())));
    assert!(matches!(events.as_slice(), [GameEvent::ItemTaken { .. }]));
    assert_eq!(
        game.world.item_location(&ItemId("lamp".to_string())),
        Some(&ItemLocation::CarriedBy(CharacterId("hero".to_string())))
    );
    game.process(Command::Move(Direction::North));
    game.process(Command::Drop(TargetQuery::item("brass lamp".to_string())));
    assert_eq!(
        game.world.item_location(&ItemId("lamp".to_string())),
        Some(&ItemLocation::Room(RoomId("hall".to_string())))
    );
}

#[test]
fn answer_teaches_facts_that_are_kept_and_quests_settle() {
    let mut game = small_game();
    let events = game.process(Command::Ask(AskQuery {
        npc: TargetQuery::npc("guide".to_string()),
        topic: "hall".to_string(),
    }));
    assert!(matches!(
        events.as_slice(),
        [GameEvent::NpcAnswered { .. }, GameEvent::QuestStarted { .. }]
    ));
    let fact = FactKey {
        world_id: WorldId("house".to_string()),
        fact_id: FactId("hall_known".to_string()),
    };
    assert!(game.character.facts.contains(&fact));
    let events = game.process(Command::Move(Direction::North));
    assert!(matches!(
        events.as_slice(),
        [
            GameEvent::CharacterMoved { .. },
            GameEvent::RoomObserved { .. },
            GameEvent::QuestCompleted { .. }
        ]
    ));
    assert!(game.character.facts.contains(&fact));
    let key = QuestKey {
        world_id: WorldId("house".to_string()),
        quest_id: QuestId("visit".to_string()),
    };
    assert_eq!(
        game.character.quests.get(&key),
        Some(&QuestProgress {
            status: QuestStatus::Completed,
            current_step: QuestStepId("go".to_string()),
        })
    );
}

#[test]
fn numbers_in_messages_are_written_in_decimal() {
    let event = GameEvent::TakeFailed {
        character_id: CharacterId("hero".to_string()),
        room_id: RoomId("porch".to_string()),
        query: "coin".to_string(),
        reason: TakeFailureReason::OrdinalOutOfRange {
            requested: 120,
            available: 7,
        },
    };
    assert_eq!(render_event(&event), "There is no #120 'coin' here; 7 matched.");
}

#[test]
fn items_and_exits_are_listed_in_sorted_order() {
    let event = GameEvent::RoomObserved {
        room_id: RoomId("porch".to_string()),
        name: "Porch".to_string(),
        description: "A creaking porch.".to_string(),
        items: vec![
            ObservedItem { id: ItemId("b".to_string()), name: "Zither".to_string() },
            ObservedItem { id: ItemId("a".to_string()), name: "Apple".to_string() },
        ],
        features: vec![],
        npcs: vec![],
        exits: vec![Direction::West, Direction::East],
    };
    assert_eq!(
        render_event(&event),
        "Porch\nA creaking porch.\nItems: Apple, Zither\nExits: east, west"
    );
}

fn quest_world(steps: Vec<QuestStepDefinition>) -> WorldDefinition {
    WorldDefinition {
        id: "w".to_string(),
        name: "W".to_string(),
        starting_room: "start".to_string(),
        items: vec![],
        features: vec![],
        npcs: vec![],
        facts: vec![],
        quests: vec![QuestDefinition {
            id: "q".to_string(),
            name: "Q".to_string(),
            description: "A quest.".to_string(),
            starting_step: "a".to_string(),
            steps,
        }],
        rooms: vec![RoomDefinition {
            id: "start".to_string(),
            name: "Start".to_string(),
            description: "The start.".to_string(),
            items: vec![],
            features: vec![],
            npcs: vec![],
            exits: vec![("north".to_string(), ExitDefinition::Simple("start".to_string()))],
        }],
    }
}

fn step(id: &str, next: Option<&str>) -> QuestStepDefinition {
    QuestStepDefinition {
        id: id.to_string(),
        description: "A step.".to_string(),
        objective: QuestObjectiveDefinition::ReachRoom { room: "start".to_string() },
        next_step: next.map(|n| n.to_string()),
    }
}

#[test]
fn validated_world_converts_and_its_quest_chains_end() {
    let definition = quest_world(vec![step("a", Some("b")), step("b", None)]);
    assert_eq!(validate_world(&definition), Ok(()));
    let world = convert_world(definition).expect("a validated world converts");
    assert!(world.quest_chains_end());
}

#[test]
fn cyclic_chain_is_refused_and_would_not_end() {
    let definition = quest_world(vec![step("a", Some("b")), step("b", Some("a"))]);
    assert_eq!(
        validate_world(&definition),
        Err("Quest 'q' contains a cycle at step 'a'".to_string())
    );
    let world = convert_world(definition).expect("conversion does not look at quests");
    assert!(!world.quest_chains_end());
}

#[test]
fn unknown_exit_word_fails_conversion_and_validation() {
    let mut definition = quest_world(vec![step("a", None)]);
    definition.rooms[0]
        .exits
        .push(("up".to_string(), ExitDefinition::Simple("start".to_string())));
    assert_eq!(
        validate_world(&definition),
        Err("Room with id 'start' has invalid exit direction 'up'".to_string())
    );
    assert_eq!(
        convert_world(definition).err(),
        Some("unknown direction 'up'".to_string())
    );
}

#[test]
fn looking_changes_nothing() {
    let mut game = small_game();
    let before = game.observe_current_room();
    let events = game.process(Command::Look);
    assert_eq!(events, vec![before.expect("the porch exists")]);
    game.process(Command::Inventory);
    game.process(Command::Examine(TargetQuery::any("lamp".to_string())));
    game.process(Command::Talk(TargetQuery::npc("guide".to_string())));
    assert_eq!(game.character.current_room, RoomId("porch".to_string()));
    assert_eq!(
        game.world.item_location(&ItemId("lamp".to_string())),
        Some(&ItemLocation::Room(RoomId("porch".to_string())))
    );
    assert!(game.character.quests.is_empty());
    assert!(game.character.facts.is_empty());
}

#[test]
fn checked_processing_runs_only_where_quest_chains_end() {
    let mut game = small_game();
    assert_eq!(
        game.process_checked(Command::Help),
        Some(vec![GameEvent::HelpRequested])
    );
    assert!(game.process_checked(Command::Move(Direction::North)).is_some());
    assert_eq!(game.character.current_room, RoomId("hall".to_string()));

    let definition = quest_world(vec![step("a", Some("b")), step("b", Some("a"))]);
    let world = convert_world(definition).expect("conversion does not look at quests");
    let character = Character {
        id: CharacterId("hero".to_string()),
        name: "Hero".to_string(),
        current_room: RoomId("start".to_string()),
        facts: KeySet::new(),
        quests: Table::new(),
    };
    let mut looping = Game::new(world, character);
    assert_eq!(looping.process_checked(Command::Move(Direction::North)), None);
    assert_eq!(looping.character.current_room, RoomId("start".to_string()));
}
