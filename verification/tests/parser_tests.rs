use adventure::game::command::{AskQuery, Command, Ordinal, TargetQuery};
use adventure::game::direction::Direction;
use adventure::terminal::parser::parse_command;

#[test]
fn look_input_returns_look_command() {
    assert_eq!(parse_command("look"), Ok(Command::Look));
}

#[test]
fn direction_input_returns_move_command() {
    assert_eq!(parse_command(" N "), Ok(Command::Move(Direction::North)));
}

#[test]
fn unknown_input_returns_error() {
    assert_eq!(
        parse_command("unknown"),
        Err("unknown command 'unknown'".to_string())
    );
}

#[test]
fn take_input_returns_take_command_with_normalized_target() {
    assert_eq!(
        parse_command("  TAKE   Rusty   Key "),
        Ok(Command::Take(TargetQuery::item("rusty key".to_string())))
    );
}

#[test]
fn take_without_target_returns_error() {
    assert_eq!(parse_command("take"), Err("take what?".to_string()));
}

#[test]
fn inventory_alias_returns_inventory_command() {
    assert_eq!(parse_command(" INV "), Ok(Command::Inventory));
}

#[test]
fn drop_input_returns_drop_command_with_normalized_target() {
    assert_eq!(
        parse_command("  DROP   Rusty   Key "),
        Ok(Command::Drop(TargetQuery::item("rusty key".to_string())))
    );
}

#[test]
fn drop_without_target_returns_error() {
    assert_eq!(parse_command("drop"), Err("drop what?".to_string()));
}

#[test]
fn examine_input_returns_examine_command() {
    assert_eq!(
        parse_command(" EXAMINE   Rusty Key "),
        Ok(Command::Examine(TargetQuery::any("rusty key".to_string())))
    );
}

#[test]
fn examine_short_alias_returns_examine_command() {
    assert_eq!(
        parse_command("x rusty key"),
        Ok(Command::Examine(TargetQuery::any("rusty key".to_string())))
    );
}

#[test]
fn look_at_returns_examine_command() {
    assert_eq!(
        parse_command("look   at   rusty key"),
        Ok(Command::Examine(TargetQuery::any("rusty key".to_string())))
    );
}

#[test]
fn examine_without_target_returns_error() {
    assert_eq!(parse_command("examine"), Err("examine what?".to_string()));
}

#[test]
fn examine_item_qualifier_returns_typed_query() {
    assert_eq!(
        parse_command("x item rusty key"),
        Ok(Command::Examine(TargetQuery::item("rusty key".to_string())))
    );
}

#[test]
fn examine_feature_qualifier_returns_typed_query() {
    assert_eq!(
        parse_command("look at feature plaque"),
        Ok(Command::Examine(TargetQuery::feature("plaque".to_string())))
    );
}

#[test]
fn quoted_examine_target_is_normalized() {
    assert_eq!(
        parse_command("x \"Founder's Plaque\""),
        Ok(Command::Examine(TargetQuery::any(
            "founders plaque".to_string()
        )))
    );
}

#[test]
fn take_ordinal_returns_numbered_item_query() {
    assert_eq!(
        parse_command("take 2 rusty key"),
        Ok(Command::Take(
            TargetQuery::item("rusty key".to_string())
                .with_ordinal(Ordinal::new(2).expect("2 is nonzero"))
        ))
    );
}

#[test]
fn qualified_examine_ordinal_returns_numbered_query() {
    assert_eq!(
        parse_command("x feature 2 rusty key"),
        Ok(Command::Examine(
            TargetQuery::feature("rusty key".to_string())
                .with_ordinal(Ordinal::new(2).expect("2 is nonzero"))
        ))
    );
}

#[test]
fn zero_ordinal_is_rejected() {
    assert_eq!(
        parse_command("take 0 rusty key"),
        Err("target number must be at least 1".to_string())
    );
}

#[test]
fn help_words_return_help_command() {
    assert_eq!(parse_command("help"), Ok(Command::Help));
    assert_eq!(parse_command(" COMMANDS "), Ok(Command::Help));
}

#[test]
fn exits_word_returns_exits_command() {
    assert_eq!(parse_command("Exits"), Ok(Command::Exits));
}

#[test]
fn quest_words_return_quests_command() {
    assert_eq!(parse_command("quests"), Ok(Command::Quests));
    assert_eq!(parse_command("journal"), Ok(Command::Quests));
}

#[test]
fn go_with_direction_returns_move_command() {
    assert_eq!(
        parse_command("go north"),
        Ok(Command::Move(Direction::North))
    );
    assert_eq!(parse_command("GO  w"), Ok(Command::Move(Direction::West)));
}

#[test]
fn go_without_known_direction_returns_error() {
    assert_eq!(parse_command("go"), Err("go where?".to_string()));
    assert_eq!(
        parse_command("go up"),
        Err("unknown direction 'up'".to_string())
    );
}

#[test]
fn get_alias_returns_take_command() {
    assert_eq!(
        parse_command("get Rusty Key"),
        Ok(Command::Take(TargetQuery::item("rusty key".to_string())))
    );
    assert_eq!(parse_command("get"), Err("take what?".to_string()));
}

#[test]
fn talk_to_returns_talk_command_for_npc() {
    assert_eq!(
        parse_command("talk to Old Sage"),
        Ok(Command::Talk(TargetQuery::npc("old sage".to_string())))
    );
    assert_eq!(
        parse_command("talk sage"),
        Ok(Command::Talk(TargetQuery::npc("sage".to_string())))
    );
    assert_eq!(parse_command("talk to"), Err("talk to whom?".to_string()));
}

#[test]
fn ask_about_returns_ask_command() {
    assert_eq!(
        parse_command("Ask Sage about the Old Tower"),
        Ok(Command::Ask(AskQuery {
            npc: TargetQuery::npc("sage".to_string()),
            topic: "the old tower".to_string(),
        }))
    );
    assert_eq!(
        parse_command("ask 2 guard about gate"),
        Ok(Command::Ask(AskQuery {
            npc: TargetQuery::npc("guard".to_string())
                .with_ordinal(Ordinal::new(2).expect("2 is nonzero")),
            topic: "gate".to_string(),
        }))
    );
}

#[test]
fn ask_without_npc_or_topic_returns_error() {
    assert_eq!(parse_command("ask"), Err("ask whom about what?".to_string()));
    assert_eq!(
        parse_command("ask sage"),
        Err("ask whom about what?".to_string())
    );
    assert_eq!(parse_command("ask about gate"), Err("ask whom?".to_string()));
    assert_eq!(
        parse_command("ask sage about"),
        Err("ask about what?".to_string())
    );
}

#[test]
fn look_with_target_returns_examine_command() {
    assert_eq!(
        parse_command("look key"),
        Ok(Command::Examine(TargetQuery::any("key".to_string())))
    );
    assert_eq!(
        parse_command("look item key"),
        Ok(Command::Examine(TargetQuery::item("key".to_string())))
    );
    assert_eq!(
        parse_command("x npc Sage"),
        Ok(Command::Examine(TargetQuery::npc("sage".to_string())))
    );
}
