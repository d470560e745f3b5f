use vstd::prelude::*;

use super::command::CommandView;
use super::event::{DropFailureReason, GameEventView, TakeFailureReason};
use super::ids::{FactKeyView, QuestKeyView};
use super::item_location::{ItemLocationView, ItemPlacementView};
use super::progress::{lemma_round_measure, lemma_transitions_measure};
use super::quest::{QuestProgressView, QuestStatus};
use super::rules::{
    apply_transitions, attempt_ask, attempt_drop, attempt_move, attempt_take, command_settles,
    learn_facts, process, quests_end, rounds_done, satisfied_quests, settle, settle_rounds,
    settles, start_quests, steps_ahead, GameView,
};
use super::table::{keys_unique, lemma_insert_keeps_unique};
use crate::order::sorted_by_text;
use super::naming::{lemma_ascii_name_chars_folded, lemma_name_chars_of_folded, name_chars, normalized_name};
use crate::text::{
    ascii_uppercase_text, folded_or_space, folded_word, is_ascii_char, join, lemma_join_folded,
    lemma_join_single_spaced, lemma_words_folded, single_spaced,
    lemma_words_of_join, solid_word, words,
};
use super::table::{
    key_position, lemma_key_position_found, lemma_key_position_scan, lookup, table_insert,
};
use super::world::{lemma_placement_position, location_of, placement_position, placements_after_move};

verus! {

/// Reading a key back after setting it gives the value set, and every other key reads as it
/// did before.
pub proof fn law_table_read_after_write<A, B>(entries: Seq<(A, B)>, key: A, value: B, other: A)
    ensures
        lookup(table_insert(entries, key, value), key) == Some(value),
        other != key ==> lookup(table_insert(entries, key, value), other) == lookup(
            entries,
            other,
        ),
{
    let written = table_insert(entries, key, value);
    lemma_key_position_found(entries, key);
    lemma_key_position_found(entries, other);
    lemma_key_position_found(written, key);
    lemma_key_position_found(written, other);
    let p = key_position(entries, key);
    if p >= 0 {
        assert(written == entries.update(p, (key, value)));
        assert forall|j: int| 0 <= j < p implies written[j].0 != key by {
            assert(written[j] == entries[j]);
        }
        lemma_key_position_scan(written, key, p);
        if other != key {
            let q = key_position(entries, other);
            if q >= 0 {
                assert forall|j: int| 0 <= j < q implies written[j].0 != other by {
                    if j != p {
                        assert(written[j] == entries[j]);
                    }
                }
                assert(written[q] == entries[q]);
                lemma_key_position_scan(written, other, q);
            } else {
                assert forall|j: int| 0 <= j < written.len() implies written[j].0 != other by {
                    if j != p {
                        assert(written[j] == entries[j]);
                    }
                }
                lemma_key_position_scan(written, other, written.len() as int);
            }
        }
    } else {
        assert(written == entries.push((key, value)));
        assert forall|j: int| 0 <= j < entries.len() implies written[j].0 != key by {
            assert(written[j] == entries[j]);
        }
        lemma_key_position_scan(written, key, entries.len() as int);
        if other != key {
            let q = key_position(entries, other);
            if q >= 0 {
                assert forall|j: int| 0 <= j < q implies written[j].0 != other by {
                    assert(written[j] == entries[j]);
                }
                assert(written[q] == entries[q]);
                lemma_key_position_scan(written, other, q);
            } else {
                assert forall|j: int| 0 <= j < written.len() implies written[j].0 != other by {
                    if j < entries.len() {
                        assert(written[j] == entries[j]);
                    }
                }
                lemma_key_position_scan(written, other, written.len() as int);
            }
        }
    }
}

/// Whether an item has exactly one placement.
pub open spec fn placed_once(placements: Seq<ItemPlacementView>, item: Seq<char>) -> bool {
    placement_position(placements, item) >= 0 && forall|i: int, j: int|
        0 <= i < placements.len() && 0 <= j < placements.len() && placements[i].item_id == item
            && placements[j].item_id == item ==> i == j
}

/// Moving an item that is placed once puts it at the new location and keeps it placed once;
/// every other item stays where it was, and the number of placements does not change.
pub proof fn law_move_item(
    placements: Seq<ItemPlacementView>,
    item: Seq<char>,
    location: ItemLocationView,
    other: Seq<char>,
)
    requires
        placed_once(placements, item),
    ensures
        location_of(placements_after_move(placements, item, location), item) == Some(location),
        placed_once(placements_after_move(placements, item, location), item),
        placements_after_move(placements, item, location).len() == placements.len(),
        other != item ==> location_of(placements_after_move(placements, item, location), other)
            == location_of(placements, other),
{
    lemma_placement_position(placements, item);
    lemma_placement_position(placements, other);
    let p = placement_position(placements, item);
    let moved = placements_after_move(placements, item, location);
    let removed = placements.remove(p);
    assert(moved == removed.push(ItemPlacementView { item_id: item, location }));
    lemma_placement_position(moved, item);
    lemma_placement_position(moved, other);
    assert forall|j: int| 0 <= j < removed.len() implies moved[j].item_id != item by {
        if j < p {
            assert(moved[j] == placements[j]);
        } else {
            assert(moved[j] == placements[j + 1]);
        }
    }
    super::world::lemma_placement_scan(moved, item, removed.len() as int);
    if other != item {
        let q = placement_position(placements, other);
        if q >= 0 {
            let q2 = if q < p {
                q
            } else {
                q - 1
            };
            assert(moved[q2] == placements[q]);
            assert forall|j: int| 0 <= j < q2 implies moved[j].item_id != other by {
                if j < p {
                    assert(moved[j] == placements[j]);
                } else {
                    assert(moved[j] == placements[j + 1]);
                }
            }
            super::world::lemma_placement_scan(moved, other, q2);
        } else {
            assert forall|j: int| 0 <= j < moved.len() implies moved[j].item_id != other by {
                if j < removed.len() {
                    if j < p {
                        assert(moved[j] == placements[j]);
                    } else {
                        assert(moved[j] == placements[j + 1]);
                    }
                }
            }
            super::world::lemma_placement_scan(moved, other, moved.len() as int);
        }
    }
}


/// What a game keeps through quest transitions: the world, who the character is, where it
/// is and what it knows; and the tracked quests stay keyed uniquely.
pub open spec fn keeps_all_but_quests(before: GameView, after: GameView) -> bool {
    &&& after.world == before.world
    &&& after.character.id == before.character.id
    &&& after.character.current_room == before.character.current_room
    &&& after.character.facts == before.character.facts
    &&& keys_unique(after.character.quests)
}

/// Rounds of transitions touch nothing but the tracked quests; with more fuel than there are
/// steps ahead they end with no objective met.
proof fn lemma_settle_rounds(g: GameView, fuel: nat)
    requires
        quests_end(g.world),
        keys_unique(g.character.quests),
    ensures
        keeps_all_but_quests(g, settle_rounds(g, fuel).0),
        fuel > steps_ahead(g.world, g.character.quests) ==> rounds_done(g, fuel),
    decreases fuel,
{
    if fuel > 0 {
        let keys = satisfied_quests(g, g.character.quests);
        if keys.len() > 0 {
            lemma_round_measure(g);
            let g1 = apply_transitions(g, keys).0;
            lemma_settle_rounds(g1, (fuel - 1) as nat);
        }
    }
}

/// Where every quest's chains end, quest transitions always come to rest.
pub proof fn law_ending_quests_settle(g: GameView)
    requires
        quests_end(g.world),
        keys_unique(g.character.quests),
    ensures
        settles(g),
{
    lemma_settle_rounds(g, (steps_ahead(g.world, g.character.quests) + 1) as nat);
}

/// A transition touches nothing but the tracked quests.
proof fn lemma_transition_keeps(g: GameView, key: QuestKeyView)
    requires
        keys_unique(g.character.quests),
    ensures
        keeps_all_but_quests(g, super::rules::apply_transition(g, key).0),
{
    let s = g.character.quests;
    match super::table::lookup(s, key) {
        Some(progress) => match super::table::lookup(g.world.quests, key.quest_id) {
            Some(quest) => match super::quest::find_step(quest.steps, progress.current_step) {
                Some(step) => {
                    let next = super::rules::advanced_progress(progress, step.next_step);
                    lemma_insert_keeps_unique(s, key, next);
                },
                None => {},
            },
            None => {},
        },
        None => {},
    }
}

/// Transitions in any order touch nothing but the tracked quests.
proof fn lemma_transitions_keep(g: GameView, keys: Seq<QuestKeyView>)
    requires
        keys_unique(g.character.quests),
    ensures
        keeps_all_but_quests(g, super::rules::apply_transitions_in_order(g, keys).0),
    decreases keys.len(),
{
    if keys.len() > 0 {
        lemma_transitions_keep(g, keys.drop_last());
        let g1 = super::rules::apply_transitions_in_order(g, keys.drop_last()).0;
        lemma_transition_keeps(g1, keys.last());
    }
}

/// Any number of rounds of transitions touches nothing but the tracked quests.
proof fn lemma_settle_rounds_keep(g: GameView, fuel: nat)
    requires
        keys_unique(g.character.quests),
    ensures
        keeps_all_but_quests(g, settle_rounds(g, fuel).0),
    decreases fuel,
{
    if fuel > 0 {
        let keys = satisfied_quests(g, g.character.quests);
        if keys.len() > 0 {
            lemma_transitions_keep(g, sorted_by_text::<super::ids::QuestKey>(keys));
            let g1 = apply_transitions(g, keys).0;
            lemma_settle_rounds_keep(g1, (fuel - 1) as nat);
        }
    }
}

/// Where quest transitions come to rest, settling leaves no tracked quest whose current
/// objective is met, and touches nothing but the tracked quests: the world, the character's
/// place and what it knows stay as they were.
pub proof fn law_settle_leaves_nothing_met(g: GameView)
    requires
        settles(g),
        keys_unique(g.character.quests),
    ensures
        satisfied_quests(settle(g).0, settle(g).0.character.quests).len() == 0,
        keeps_all_but_quests(g, settle(g).0),
{
    let fuel = choose|fuel: nat| rounds_done(g, fuel);
    lemma_settle_rounds_keep(g, fuel);
}

/// Starting quests touches nothing but the tracked quests.
proof fn lemma_start_quests(g: GameView, quests: Seq<Seq<char>>)
    requires
        keys_unique(g.character.quests),
    ensures
        keeps_all_but_quests(g, start_quests(g, quests).0),
    decreases quests.len(),
{
    if quests.len() > 0 {
        lemma_start_quests(g, quests.drop_last());
        let g1 = start_quests(g, quests.drop_last()).0;
        let key = super::rules::quest_key(g1, quests.last());
        lemma_insert_keeps_unique(
            g1.character.quests,
            key,
            QuestProgressView {
                status: QuestStatus::Active,
                current_step: super::table::lookup(g1.world.quests, quests.last()).unwrap().starting_step,
            },
        );
    }
}

/// Learning facts keeps every fact known before and adds every fact learned.
proof fn lemma_learn_facts(g: GameView, facts: Seq<Seq<char>>)
    ensures
        forall|f: FactKeyView| #[trigger]
            g.character.facts.contains(f) ==> learn_facts(g, facts).0.contains(f),
        forall|f: FactKeyView| #[trigger]
            learn_facts(g, facts).1.contains(f) ==> learn_facts(g, facts).0.contains(f),
    decreases facts.len(),
{
    if facts.len() > 0 {
        lemma_learn_facts(g, facts.drop_last());
        let (known, learned) = learn_facts(g, facts.drop_last());
        let key = super::rules::fact_key(g, facts.last());
        if !known.contains(key) {
            assert forall|f: FactKeyView| #[trigger] known.contains(f) implies known.push(key).contains(
                f,
            ) by {
                let i = choose|i: int| 0 <= i < known.len() && known[i] == f;
                assert(known.push(key)[i] == f);
            }
            assert(known.push(key)[known.len() as int] == key);
            assert forall|f: FactKeyView| #[trigger] learned.push(key).contains(f) implies known.push(
                key,
            ).contains(f) by {
                let i = choose|i: int| 0 <= i < learned.push(key).len() && learned.push(key)[i] == f;
                if i < learned.len() {
                    assert(learned[i] == f);
                    assert(learned.contains(f));
                    assert(known.contains(f));
                }
            }
        }
    }
}



/// Whether an event says the command was refused.
pub open spec fn is_refusal(event: GameEventView) -> bool {
    ||| event is MovementFailed
    ||| event is MovementBlocked
    ||| event is TakeFailed
    ||| event is DropFailed
    ||| event is TalkFailed
    ||| event is AskFailed
    ||| event is ExamineFailed
}

/// Whether a command only looks: it reports and changes nothing.
pub open spec fn only_looks(command: CommandView) -> bool {
    ||| command is Look
    ||| command is Exits
    ||| command is Help
    ||| command is Inventory
    ||| command is Quests
    ||| command is Examine
    ||| command is Talk
}

/// A command that only looks changes nothing, and a command that is refused changes nothing
/// and is answered by the refusal alone.
pub proof fn law_refusals_and_looks_change_nothing(g: GameView, command: CommandView)
    ensures
        only_looks(command) ==> process(g, command).0 == g,
        process(g, command).1.len() > 0 && is_refusal(process(g, command).1[0]) ==> process(
            g,
            command,
        ).0 == g && process(g, command).1.len() == 1,
{
}

/// Whether the tracked quests are keyed uniquely and every quest of the world ends: what a
/// game needs for quests to settle.
pub open spec fn quests_settle(g: GameView) -> bool {
    quests_end(g.world) && keys_unique(g.character.quests)
}

/// Asking keeps the world and the character's place, keeps every fact known before, and
/// knows every fact the answer taught; what quests do in between touches nothing else.
proof fn lemma_ask(g: GameView, query: super::command::AskQueryView)
    requires
        super::rules::ask_settles(g, query),
        keys_unique(g.character.quests),
    ensures
        attempt_ask(g, query).0.world == g.world,
        attempt_ask(g, query).0.character.current_room == g.character.current_room,
        keys_unique(attempt_ask(g, query).0.character.quests),
        forall|f: FactKeyView| #[trigger]
            g.character.facts.contains(f) ==> attempt_ask(g, query).0.character.facts.contains(f),
        attempt_ask(g, query).1.len() > 0 ==> (attempt_ask(g, query).1[0] matches GameEventView::NpcAnswered {
            learned_facts,
            ..
        } ==> forall|f: FactKeyView| #[trigger]
            learned_facts.contains(f) ==> attempt_ask(g, query).0.character.facts.contains(f)),
        attempt_ask(g, query).1.len() > 0 && attempt_ask(g, query).1[0] is NpcAnswered
            ==> satisfied_quests(
            attempt_ask(g, query).0,
            attempt_ask(g, query).0.character.quests,
        ).len() == 0,
{
    let npc_query = super::naming::normalized_name(query.npc.name);
    let topic_query = super::naming::normalized_name(query.topic);
    let matches = super::rules::matching_room_npcs(g, npc_query);
    match super::rules::select(matches.len(), query.npc.ordinal) {
        super::rules::Selection::Picked(i) => match super::table::lookup(g.world.npcs, matches[i]) {
            Some(npc) => match super::rules::find_topic(g, npc.topics, topic_query) {
                Some(topic) => {
                    let (facts, learned) = learn_facts(g, topic.grants_facts);
                    lemma_learn_facts(g, topic.grants_facts);
                    let g1 = GameView {
                        character: super::character::CharacterView { facts, ..g.character },
                        ..g
                    };
                    lemma_start_quests(g1, topic.starts_quests);
                    let g2 = start_quests(g1, topic.starts_quests).0;
                    law_settle_leaves_nothing_met(g2);
                    let g3 = settle(g2).0;
                    let keys = super::rules::quests_asking(g3, g3.character.quests, npc.id, topic.id);
                    lemma_transitions_keep(g3, sorted_by_text::<super::ids::QuestKey>(keys));
                    let g4 = apply_transitions(g3, keys).0;
                    law_settle_leaves_nothing_met(g4);
                },
                None => {},
            },
            None => {},
        },
        _ => {},
    }
}

/// What the character knows is never forgotten, whatever the command.
pub proof fn law_facts_are_never_forgotten(g: GameView, command: CommandView, fact: FactKeyView)
    requires
        command_settles(g, command),
        keys_unique(g.character.quests),
        g.character.facts.contains(fact),
    ensures
        process(g, command).0.character.facts.contains(fact),
{
    match command {
        CommandView::Move(d) => {
            let r = attempt_move(g, d);
            if r.0 != g {
                let room = super::table::lookup(g.world.rooms, g.character.current_room).unwrap();
                let exit = super::table::lookup(room.exits, d).unwrap();
                let moved = GameView {
                    character: super::character::CharacterView {
                        current_room: exit.destination,
                        ..g.character
                    },
                    ..g
                };
                law_settle_leaves_nothing_met(moved);
            }
        },
        CommandView::Take(q) => {
            let r = attempt_take(g, q);
            if r.0 != g {
                let name = super::naming::normalized_name(q.name);
                let matches = super::rules::matching_room_items(g, name);
                let i = super::rules::select(matches.len(), q.ordinal)->Picked_0;
                let moved = super::rules::with_placements(
                    g,
                    placements_after_move(
                        g.world.item_placements,
                        matches[i],
                        ItemLocationView::CarriedBy(g.character.id),
                    ),
                );
                law_settle_leaves_nothing_met(moved);
            }
        },
        CommandView::Ask(q) => {
            lemma_ask(g, q);
        },
        _ => {},
    }
}

/// After a move, a take or an answer, no tracked quest is left whose current objective is
/// met: quests settle after anything that can meet an objective.
pub proof fn law_quests_settle_after_progress(g: GameView, command: CommandView)
    requires
        command_settles(g, command),
        keys_unique(g.character.quests),
    ensures
        ({
            let (after, events) = process(g, command);
            events.len() > 0 && (events[0] is CharacterMoved || events[0] is ItemTaken
                || events[0] is NpcAnswered) ==> satisfied_quests(after, after.character.quests).len()
                == 0
        }),
{
    match command {
        CommandView::Move(d) => {
            let r = attempt_move(g, d);
            if r.0 != g || (r.1.len() > 0 && r.1[0] is CharacterMoved) {
                let room = super::table::lookup(g.world.rooms, g.character.current_room).unwrap();
                let exit = super::table::lookup(room.exits, d).unwrap();
                let moved = GameView {
                    character: super::character::CharacterView {
                        current_room: exit.destination,
                        ..g.character
                    },
                    ..g
                };
                law_settle_leaves_nothing_met(moved);
            }
        },
        CommandView::Take(q) => {
            let r = attempt_take(g, q);
            if r.1.len() > 0 && r.1[0] is ItemTaken {
                let name = super::naming::normalized_name(q.name);
                let matches = super::rules::matching_room_items(g, name);
                let i = super::rules::select(matches.len(), q.ordinal)->Picked_0;
                let moved = super::rules::with_placements(
                    g,
                    placements_after_move(
                        g.world.item_placements,
                        matches[i],
                        ItemLocationView::CarriedBy(g.character.id),
                    ),
                );
                law_settle_leaves_nothing_met(moved);
            }
        },
        CommandView::Ask(q) => {
            lemma_ask(g, q);
        },
        _ => {},
    }
}


/// Whether every item that has a placement has exactly one.
pub open spec fn placements_unique(placements: Seq<ItemPlacementView>) -> bool {
    forall|item: Seq<char>|
        placement_position(placements, item) >= 0 ==> #[trigger] placed_once(placements, item)
}

/// Whether every item of the world is keyed by its own identifier.
pub open spec fn items_keyed_by_id(w: super::world::WorldView) -> bool {
    forall|i: int| 0 <= i < w.items.len() ==> #[trigger] w.items[i].0 == w.items[i].1.id
}

/// An item found by its key has that key as its identifier.
proof fn lemma_found_item_id(w: super::world::WorldView, id: Seq<char>)
    requires
        items_keyed_by_id(w),
        super::table::lookup(w.items, id) is Some,
    ensures
        super::table::lookup(w.items, id)->0.id == id,
{
    super::progress::lemma_lookup_entry(w.items, id);
    let p = super::table::key_position(w.items, id);
    assert(w.items[p].0 == w.items[p].1.id);
}

/// A taken item is carried by the character afterwards; a dropped item lies in the room the
/// character is in.
pub proof fn law_taken_is_carried_and_dropped_lies_here(g: GameView, command: CommandView)
    requires
        command_settles(g, command),
        keys_unique(g.character.quests),
        placements_unique(g.world.item_placements),
        items_keyed_by_id(g.world),
    ensures
        ({
            let (after, events) = process(g, command);
            events.len() > 0 ==> {
                &&& (events[0] matches GameEventView::ItemTaken { item, .. } ==> location_of(
                    after.world.item_placements,
                    item.id,
                ) == Some(ItemLocationView::CarriedBy(g.character.id)))
                &&& (events[0] matches GameEventView::ItemDropped { item, .. } ==> location_of(
                    after.world.item_placements,
                    item.id,
                ) == Some(ItemLocationView::Room(g.character.current_room)))
            }
        }),
{
    match command {
        CommandView::Take(q) => {
            let name = super::naming::normalized_name(q.name);
            let matches = super::rules::matching_room_items(g, name);
            match super::rules::select(matches.len(), q.ordinal) {
                super::rules::Selection::Picked(i) => {
                    let id = matches[i];
                    if super::table::lookup(g.world.items, id) is Some && location_of(
                        g.world.item_placements,
                        id,
                    ) is Some {
                        lemma_found_item_id(g.world, id);
                        assert(placed_once(g.world.item_placements, id));
                        law_move_item(
                            g.world.item_placements,
                            id,
                            ItemLocationView::CarriedBy(g.character.id),
                            id,
                        );
                        let moved = super::rules::with_placements(
                            g,
                            placements_after_move(
                                g.world.item_placements,
                                id,
                                ItemLocationView::CarriedBy(g.character.id),
                            ),
                        );
                        if settles(moved) {
                            law_settle_leaves_nothing_met(moved);
                        }
                    }
                },
                _ => {},
            }
        },
        CommandView::Drop(q) => {
            let name = super::naming::normalized_name(q.name);
            let matches = super::rules::matching_inventory_items(g, name);
            match super::rules::select(matches.len(), q.ordinal) {
                super::rules::Selection::Picked(i) => {
                    let id = matches[i];
                    if super::table::lookup(g.world.items, id) is Some && super::rules::carries(
                        g,
                        id,
                    ) {
                        lemma_found_item_id(g.world, id);
                        assert(placed_once(g.world.item_placements, id));
                        law_move_item(
                            g.world.item_placements,
                            id,
                            ItemLocationView::Room(g.character.current_room),
                            id,
                        );
                    }
                },
                _ => {},
            }
        },
        _ => {},
    }
}


/// Where every quest's chains end, every command's quest transitions come to rest, so any
/// command may be processed.
pub proof fn law_ending_quests_let_every_command_settle(g: GameView, command: CommandView)
    requires
        quests_settle(g),
    ensures
        command_settles(g, command),
{
    match command {
        CommandView::Move(d) => {
            match super::table::lookup(g.world.rooms, g.character.current_room) {
                Some(room) => match super::table::lookup(room.exits, d) {
                    Some(exit) => {
                        let moved = GameView {
                            character: super::character::CharacterView {
                                current_room: exit.destination,
                                ..g.character
                            },
                            ..g
                        };
                        law_ending_quests_settle(moved);
                    },
                    None => {},
                },
                None => {},
            }
        },
        CommandView::Take(q) => {
            let matches = super::rules::matching_room_items(g, super::naming::normalized_name(q.name));
            match super::rules::select(matches.len(), q.ordinal) {
                super::rules::Selection::Picked(i) => {
                    let moved = super::rules::with_placements(
                        g,
                        placements_after_move(
                            g.world.item_placements,
                            matches[i],
                            ItemLocationView::CarriedBy(g.character.id),
                        ),
                    );
                    law_ending_quests_settle(moved);
                },
                _ => {},
            }
        },
        CommandView::Ask(query) => {
            let matches = super::rules::matching_room_npcs(g, super::naming::normalized_name(query.npc.name));
            match super::rules::select(matches.len(), query.npc.ordinal) {
                super::rules::Selection::Picked(i) => match super::table::lookup(g.world.npcs, matches[i]) {
                    Some(npc) => match super::rules::find_topic(g, npc.topics, super::naming::normalized_name(query.topic)) {
                        Some(topic) => {
                            let (facts, learned) = learn_facts(g, topic.grants_facts);
                            let g1 = GameView {
                                character: super::character::CharacterView { facts, ..g.character },
                                ..g
                            };
                            lemma_start_quests(g1, topic.starts_quests);
                            let g2 = start_quests(g1, topic.starts_quests).0;
                            law_ending_quests_settle(g2);
                            law_settle_leaves_nothing_met(g2);
                            let g3 = settle(g2).0;
                            let keys = super::rules::quests_asking(g3, g3.character.quests, npc.id, topic.id);
                            lemma_transitions_measure(g3, sorted_by_text::<super::ids::QuestKey>(keys));
                            let g4 = apply_transitions(g3, keys).0;
                            law_ending_quests_settle(g4);
                        },
                        None => {},
                    },
                    None => {},
                },
                _ => {},
            }
        },
        _ => {},
    }
}


/// Whether the character tracks quest `key` as completed, with progress `progress`.
pub open spec fn completed_as(g: GameView, key: QuestKeyView, progress: QuestProgressView) -> bool {
    progress.status == QuestStatus::Completed && super::table::lookup(g.character.quests, key)
        == Some(progress)
}

/// A transition of another quest leaves quest `key` as it was.
proof fn lemma_transition_other(g: GameView, key: QuestKeyView, other: QuestKeyView)
    requires
        key != other,
    ensures
        super::table::lookup(super::rules::apply_transition(g, other).0.character.quests, key)
            == super::table::lookup(g.character.quests, key),
{
    let s = g.character.quests;
    match super::table::lookup(s, other) {
        Some(progress) => match super::table::lookup(g.world.quests, other.quest_id) {
            Some(quest) => match super::quest::find_step(quest.steps, progress.current_step) {
                Some(step) => {
                    let next = super::rules::advanced_progress(progress, step.next_step);
                    law_table_read_after_write(s, other, next, key);
                },
                None => {},
            },
            None => {},
        },
        None => {},
    }
}

/// Transitions of other quests leave quest `key` as it was.
proof fn lemma_transitions_other(g: GameView, key: QuestKeyView, keys: Seq<QuestKeyView>)
    requires
        !keys.contains(key),
    ensures
        super::table::lookup(
            super::rules::apply_transitions_in_order(g, keys).0.character.quests,
            key,
        ) == super::table::lookup(g.character.quests, key),
    decreases keys.len(),
{
    if keys.len() > 0 {
        assert(!keys.drop_last().contains(key)) by {
            if keys.drop_last().contains(key) {
                let i = choose|i: int| 0 <= i < keys.drop_last().len() && keys.drop_last()[i] == key;
                assert(keys[i] == key);
            }
        }
        lemma_transitions_other(g, key, keys.drop_last());
        assert(keys[keys.len() - 1] != key);
        let g1 = super::rules::apply_transitions_in_order(g, keys.drop_last()).0;
        lemma_transition_other(g1, key, keys.last());
    }
}

/// A quest tracked as completed is not among those whose objective is met, nor among those
/// waiting for a question.
proof fn lemma_completed_not_pending(
    g: GameView,
    key: QuestKeyView,
    progress: QuestProgressView,
    npc: Seq<char>,
    topic: Seq<char>,
)
    requires
        completed_as(g, key, progress),
        keys_unique(g.character.quests),
    ensures
        !satisfied_quests(g, g.character.quests).contains(key),
        !super::rules::quests_asking(g, g.character.quests, npc, topic).contains(key),
{
    let s = g.character.quests;
    super::progress::lemma_lookup_entry(s, key);
    let p = super::table::key_position(s, key);
    if satisfied_quests(g, s).contains(key) {
        super::progress::lemma_satisfied_active(g, s, key);
        let i = choose|i: int|
            0 <= i < s.len() && s[i].0 == key && (#[trigger] super::rules::active_step_objective(
                g,
                key,
                s[i].1,
            )) is Some;
        assert(i == p);
    }
    if super::rules::quests_asking(g, s, npc, topic).contains(key) {
        lemma_asking_active(g, s, key, npc, topic);
        let i = choose|i: int|
            0 <= i < s.len() && s[i].0 == key && (#[trigger] super::rules::active_step_objective(
                g,
                key,
                s[i].1,
            )) is Some;
        assert(i == p);
    }
}

/// A key waiting for a question is an active quest of this world with its step.
proof fn lemma_asking_active(
    g: GameView,
    entries: Seq<(QuestKeyView, QuestProgressView)>,
    key: QuestKeyView,
    npc: Seq<char>,
    topic: Seq<char>,
)
    requires
        super::rules::quests_asking(g, entries, npc, topic).contains(key),
    ensures
        super::progress::has_active_step(g, entries, key),
    decreases entries.len(),
{
    if entries.len() > 0 {
        let rest = super::rules::quests_asking(g, entries.drop_last(), npc, topic);
        if rest.contains(key) {
            lemma_asking_active(g, entries.drop_last(), key, npc, topic);
            let i = choose|i: int|
                0 <= i < entries.drop_last().len() && entries.drop_last()[i].0 == key && (
                #[trigger] super::rules::active_step_objective(g, key, entries.drop_last()[i].1))
                    is Some;
            assert(entries[i] == entries.drop_last()[i]);
        } else {
            let i = entries.len() - 1;
            assert(entries[i].0 == key);
            assert(super::rules::active_step_objective(g, key, entries[i].1) is Some);
        }
    }
}

/// Transitions of the given keys, none of them `key`, in the order of their quest
/// identifiers, leave quest `key` as it was.
proof fn lemma_sorted_transitions_other(g: GameView, key: QuestKeyView, keys: Seq<QuestKeyView>)
    requires
        !keys.contains(key),
    ensures
        super::table::lookup(apply_transitions(g, keys).0.character.quests, key)
            == super::table::lookup(g.character.quests, key),
{
    super::progress::lemma_sorted_members(keys);
    lemma_transitions_other(g, key, sorted_by_text::<super::ids::QuestKey>(keys));
}

/// Rounds of transitions leave a completed quest as it was.
proof fn lemma_rounds_keep_completed(
    g: GameView,
    key: QuestKeyView,
    progress: QuestProgressView,
    fuel: nat,
)
    requires
        keys_unique(g.character.quests),
        completed_as(g, key, progress),
    ensures
        completed_as(settle_rounds(g, fuel).0, key, progress),
    decreases fuel,
{
    if fuel > 0 {
        let keys = satisfied_quests(g, g.character.quests);
        if keys.len() > 0 {
            lemma_completed_not_pending(g, key, progress, Seq::empty(), Seq::empty());
            lemma_sorted_transitions_other(g, key, keys);
            lemma_transitions_keep(g, sorted_by_text::<super::ids::QuestKey>(keys));
            let g1 = apply_transitions(g, keys).0;
            lemma_rounds_keep_completed(g1, key, progress, (fuel - 1) as nat);
        }
    }
}

/// Rounds of transitions leave a quest of another world as it was.
proof fn lemma_rounds_keep_other_worlds(g: GameView, key: QuestKeyView, fuel: nat)
    requires
        keys_unique(g.character.quests),
        key.world_id != g.world.id,
    ensures
        super::table::lookup(settle_rounds(g, fuel).0.character.quests, key)
            == super::table::lookup(g.character.quests, key),
    decreases fuel,
{
    if fuel > 0 {
        let s = g.character.quests;
        let keys = satisfied_quests(g, s);
        if keys.len() > 0 {
            if keys.contains(key) {
                super::progress::lemma_satisfied_active(g, s, key);
                let i = choose|i: int|
                    0 <= i < s.len() && s[i].0 == key && (
                    #[trigger] super::rules::active_step_objective(g, key, s[i].1)) is Some;
            }
            lemma_sorted_transitions_other(g, key, keys);
            lemma_transitions_keep(g, sorted_by_text::<super::ids::QuestKey>(keys));
            let g1 = apply_transitions(g, keys).0;
            lemma_rounds_keep_other_worlds(g1, key, (fuel - 1) as nat);
        }
    }
}

/// Settling keeps every completed quest, and every tracked quest of another world, exactly
/// as it was.
pub proof fn law_settle_keeps_completed_and_other_world_quests(g: GameView, key: QuestKeyView)
    requires
        keys_unique(g.character.quests),
    ensures
        (super::table::lookup(g.character.quests, key) matches Some(p) && p.status
            == QuestStatus::Completed) || key.world_id != g.world.id ==> super::table::lookup(
            settle(g).0.character.quests,
            key,
        ) == super::table::lookup(g.character.quests, key),
{
    let fuel = choose|fuel: nat| rounds_done(g, fuel);
    if key.world_id != g.world.id {
        lemma_rounds_keep_other_worlds(g, key, fuel);
    } else if super::table::lookup(g.character.quests, key) is Some {
        let p = super::table::lookup(g.character.quests, key)->0;
        if p.status == QuestStatus::Completed {
            lemma_rounds_keep_completed(g, key, p, fuel);
        }
    }
}

/// Starting quests leaves a tracked quest as it was.
proof fn lemma_start_keeps_tracked(g: GameView, quests: Seq<Seq<char>>, key: QuestKeyView)
    requires
        super::table::lookup(g.character.quests, key) is Some,
    ensures
        super::table::lookup(start_quests(g, quests).0.character.quests, key)
            == super::table::lookup(g.character.quests, key),
    decreases quests.len(),
{
    if quests.len() > 0 {
        lemma_start_keeps_tracked(g, quests.drop_last(), key);
        let g1 = start_quests(g, quests.drop_last()).0;
        let new_key = super::rules::quest_key(g1, quests.last());
        if super::table::lookup(g1.character.quests, new_key) is None {
            match super::table::lookup(g1.world.quests, quests.last()) {
                Some(quest) => {
                    law_table_read_after_write(
                        g1.character.quests,
                        new_key,
                        QuestProgressView {
                            status: QuestStatus::Active,
                            current_step: quest.starting_step,
                        },
                        key,
                    );
                },
                None => {},
            }
        }
    }
}

/// A quest once completed stays completed, with the same progress, whatever the command.
pub proof fn law_completed_quests_stay_completed(
    g: GameView,
    command: CommandView,
    key: QuestKeyView,
    progress: QuestProgressView,
)
    requires
        command_settles(g, command),
        keys_unique(g.character.quests),
        completed_as(g, key, progress),
    ensures
        completed_as(process(g, command).0, key, progress),
{
    match command {
        CommandView::Move(d) => {
            match super::table::lookup(g.world.rooms, g.character.current_room) {
                Some(room) => match super::table::lookup(room.exits, d) {
                    Some(exit) => {
                        let moved = GameView {
                            character: super::character::CharacterView {
                                current_room: exit.destination,
                                ..g.character
                            },
                            ..g
                        };
                        lemma_rounds_keep_completed(
                            moved,
                            key,
                            progress,
                            choose|fuel: nat| rounds_done(moved, fuel),
                        );
                    },
                    None => {},
                },
                None => {},
            }
        },
        CommandView::Take(q) => {
            let matches = super::rules::matching_room_items(g, super::naming::normalized_name(q.name));
            match super::rules::select(matches.len(), q.ordinal) {
                super::rules::Selection::Picked(i) => {
                    let moved = super::rules::with_placements(
                        g,
                        placements_after_move(
                            g.world.item_placements,
                            matches[i],
                            ItemLocationView::CarriedBy(g.character.id),
                        ),
                    );
                    lemma_rounds_keep_completed(
                        moved,
                        key,
                        progress,
                        choose|fuel: nat| rounds_done(moved, fuel),
                    );
                },
                _ => {},
            }
        },
        CommandView::Ask(query) => {
            let matches = super::rules::matching_room_npcs(g, super::naming::normalized_name(query.npc.name));
            match super::rules::select(matches.len(), query.npc.ordinal) {
                super::rules::Selection::Picked(i) => match super::table::lookup(g.world.npcs, matches[i]) {
                    Some(npc) => match super::rules::find_topic(g, npc.topics, super::naming::normalized_name(query.topic)) {
                        Some(topic) => {
                            let (facts, learned) = learn_facts(g, topic.grants_facts);
                            let g1 = GameView {
                                character: super::character::CharacterView { facts, ..g.character },
                                ..g
                            };
                            lemma_start_quests(g1, topic.starts_quests);
                            lemma_start_keeps_tracked(g1, topic.starts_quests, key);
                            let g2 = start_quests(g1, topic.starts_quests).0;
                            law_settle_leaves_nothing_met(g2);
                            lemma_rounds_keep_completed(
                                g2,
                                key,
                                progress,
                                choose|fuel: nat| rounds_done(g2, fuel),
                            );
                            let g3 = settle(g2).0;
                            let keys = super::rules::quests_asking(g3, g3.character.quests, npc.id, topic.id);
                            lemma_completed_not_pending(g3, key, progress, npc.id, topic.id);
                            lemma_sorted_transitions_other(g3, key, keys);
                            lemma_transitions_keep(g3, sorted_by_text::<super::ids::QuestKey>(keys));
                            let g4 = apply_transitions(g3, keys).0;
                            lemma_rounds_keep_completed(
                                g4,
                                key,
                                progress,
                                choose|fuel: nat| rounds_done(g4, fuel),
                            );
                        },
                        None => {},
                    },
                    None => {},
                },
                _ => {},
            }
        },
        _ => {},
    }
}


/// Moving an item keeps every item placed at most once.
proof fn lemma_move_keeps_unique(
    placements: Seq<ItemPlacementView>,
    item: Seq<char>,
    location: ItemLocationView,
)
    requires
        placements_unique(placements),
    ensures
        placements_unique(placements_after_move(placements, item, location)),
{
    let after = placements_after_move(placements, item, location);
    lemma_placement_position(placements, item);
    let pos = placement_position(placements, item);
    if pos >= 0 {
        assert(placed_once(placements, item));
        assert forall|id: Seq<char>| placement_position(after, id) >= 0 implies #[trigger] placed_once(after, id) by {
            law_move_item(placements, item, location, id);
            if id != item {
                lemma_placement_position(placements, id);
                assert(placed_once(placements, id));
                let removed = placements.remove(pos);
                assert forall|i: int, j: int|
                    0 <= i < after.len() && 0 <= j < after.len() && after[i].item_id == id
                        && after[j].item_id == id implies i == j by {
                    assert(after[after.len() - 1].item_id == item);
                    let i2 = if i < pos { i } else { i + 1 };
                    let j2 = if j < pos { j } else { j + 1 };
                    assert(after[i] == placements[i2]);
                    assert(after[j] == placements[j2]);
                }
            }
        }
    }
}

/// Every command keeps each item placed at most once.
pub proof fn law_placements_stay_unique(g: GameView, command: CommandView)
    requires
        command_settles(g, command),
        keys_unique(g.character.quests),
        placements_unique(g.world.item_placements),
    ensures
        placements_unique(process(g, command).0.world.item_placements),
{
    match command {
        CommandView::Move(d) => {
            match super::table::lookup(g.world.rooms, g.character.current_room) {
                Some(room) => match super::table::lookup(room.exits, d) {
                    Some(exit) => {
                        let moved = GameView {
                            character: super::character::CharacterView {
                                current_room: exit.destination,
                                ..g.character
                            },
                            ..g
                        };
                        if settles(moved) {
                            law_settle_leaves_nothing_met(moved);
                        }
                    },
                    None => {},
                },
                None => {},
            }
        },
        CommandView::Take(q) => {
            let matches = super::rules::matching_room_items(g, super::naming::normalized_name(q.name));
            match super::rules::select(matches.len(), q.ordinal) {
                super::rules::Selection::Picked(i) => {
                    lemma_move_keeps_unique(
                        g.world.item_placements,
                        matches[i],
                        ItemLocationView::CarriedBy(g.character.id),
                    );
                    let moved = super::rules::with_placements(
                        g,
                        placements_after_move(
                            g.world.item_placements,
                            matches[i],
                            ItemLocationView::CarriedBy(g.character.id),
                        ),
                    );
                    if settles(moved) {
                        law_settle_leaves_nothing_met(moved);
                    }
                },
                _ => {},
            }
        },
        CommandView::Drop(q) => {
            let matches = super::rules::matching_inventory_items(g, super::naming::normalized_name(q.name));
            match super::rules::select(matches.len(), q.ordinal) {
                super::rules::Selection::Picked(i) => {
                    lemma_move_keeps_unique(
                        g.world.item_placements,
                        matches[i],
                        ItemLocationView::Room(g.character.current_room),
                    );
                },
                _ => {},
            }
        },
        CommandView::Ask(q) => {
            lemma_ask(g, q);
        },
        _ => {},
    }
}

/// Normalizing a name written in ASCII gives lower-case ASCII letters, ASCII digits and
/// single spaces between words, with no space at either end; normalizing it a second time
/// changes nothing.
pub proof fn law_ascii_names_normalize_once(s: Seq<char>)
    requires
        forall|i: int| 0 <= i < s.len() ==> is_ascii_char(#[trigger] s[i]),
    ensures
        normalized_name(normalized_name(s)) == normalized_name(s),
        folded_or_space(normalized_name(s)),
        single_spaced(normalized_name(s)),
{
    let x = name_chars(s);
    lemma_ascii_name_chars_folded(s);
    lemma_words_folded(x);
    let ws = words(x);
    lemma_join_folded(ws);
    let t = join(ws, seq![' ']);
    assert(normalized_name(s) == t);
    lemma_name_chars_of_folded(t);
    assert forall|k: int| 0 <= k < ws.len() implies solid_word(#[trigger] ws[k]) by {
        assert(folded_word(ws[k]));
        assert forall|i: int| 0 <= i < ws[k].len() implies !crate::text::char_is_whitespace(
            #[trigger] ws[k][i],
        ) by {
            assert(crate::text::is_folded_char(ws[k][i]));
        }
    }
    lemma_words_of_join(ws);
    lemma_join_single_spaced(ws);
}

/// Upper case and lower case ASCII letters name alike: a name normalizes the same whatever
/// the case of its ASCII letters.
pub proof fn law_names_normalize_regardless_of_case(s: Seq<char>)
    ensures
        normalized_name(ascii_uppercase_text(s)) == normalized_name(s),
{
    super::naming::lemma_name_chars_ignore_case(s);
}

/// Learning facts adds the keys of the granted facts to what is known, keeping what was known
/// first and in place, and reports each fact not known before exactly once, in the order it
/// was first granted.
pub proof fn law_learning_adds_granted_facts(g: GameView, facts: Seq<Seq<char>>)
    ensures
        learn_facts(g, facts).0 == g.character.facts + learn_facts(g, facts).1,
        forall|f: FactKeyView| #[trigger]
            learn_facts(g, facts).1.contains(f) <==> !g.character.facts.contains(f) && exists|
                i: int,
            | 0 <= i < facts.len() && f == super::rules::fact_key(g, #[trigger] facts[i]),
        learn_facts(g, facts).1.no_duplicates(),
    decreases facts.len(),
{
    if facts.len() == 0 {
        assert(g.character.facts + Seq::<FactKeyView>::empty() =~= g.character.facts);
    } else {
        let d = facts.drop_last();
        law_learning_adds_granted_facts(g, d);
        let (known, learned) = learn_facts(g, d);
        let key = super::rules::fact_key(g, facts.last());
        let r = learn_facts(g, facts);
        assert forall|f: FactKeyView| #[trigger] r.1.contains(f) <==> !g.character.facts.contains(f)
            && exists|i: int| 0 <= i < facts.len() && f == super::rules::fact_key(g, #[trigger] facts[i]) by {
            if r.1.contains(f) {
                if learned.contains(f) {
                    let i = choose|i: int| 0 <= i < d.len() && f == super::rules::fact_key(g, #[trigger] d[i]);
                    assert(facts[i] == d[i]);
                } else {
                    assert(!known.contains(key));
                    let k = choose|k: int| 0 <= k < r.1.len() && r.1[k] == f;
                    assert(r.1 == learned.push(key));
                    if k < learned.len() {
                        assert(learned[k] == f);
                        assert(learned.contains(f));
                    }
                    assert(f == key);
                    assert(facts[facts.len() - 1] == facts.last());
                    assert(!g.character.facts.contains(f)) by {
                        if g.character.facts.contains(f) {
                            let j = choose|j: int| 0 <= j < g.character.facts.len() && g.character.facts[j] == f;
                            assert(known[j] == f);
                        }
                    }
                }
            }
            if !g.character.facts.contains(f) && exists|i: int|
                0 <= i < facts.len() && f == super::rules::fact_key(g, #[trigger] facts[i]) {
                let i = choose|i: int| 0 <= i < facts.len() && f == super::rules::fact_key(g, #[trigger] facts[i]);
                if i < facts.len() - 1 {
                    assert(d[i] == facts[i]);
                    assert(learned.contains(f));
                    if !known.contains(key) {
                        let k = choose|k: int| 0 <= k < learned.len() && learned[k] == f;
                        assert(learned.push(key)[k] == f);
                    }
                } else {
                    assert(f == key);
                    if known.contains(key) {
                        let j = choose|j: int| 0 <= j < known.len() && known[j] == key;
                        if j >= g.character.facts.len() {
                            assert(learned[j - g.character.facts.len()] == key);
                            assert(learned.contains(f));
                        } else {
                            assert(g.character.facts[j] == key);
                        }
                    } else {
                        assert(learned.push(key)[learned.len() as int] == key);
                    }
                }
            }
        }
        if !known.contains(key) {
            assert(g.character.facts + learned.push(key) =~= known.push(key));
            assert(!learned.contains(key)) by {
                if learned.contains(key) {
                    let k = choose|k: int| 0 <= k < learned.len() && learned[k] == key;
                    assert(known[g.character.facts.len() + k] == key);
                }
            }
            assert forall|a: int, b: int| 0 <= a < b < r.1.len() implies r.1[a] != r.1[b] by {
                if b == learned.len() {
                    assert(r.1[a] == learned[a]);
                }
            }
        }
    }
}

/// The character a question goes to, when the question picks one.
pub open spec fn asked_npc(g: GameView, query: super::command::AskQueryView) -> Option<
    super::npc::NpcView,
> {
    let matches = super::rules::matching_room_npcs(g, normalized_name(query.npc.name));
    match super::rules::select(matches.len(), query.npc.ordinal) {
        super::rules::Selection::Picked(i) => super::table::lookup(g.world.npcs, matches[i]),
        _ => None,
    }
}

/// No topic that is both available and named `name` is found.
proof fn lemma_find_topic_none(g: GameView, topics: Seq<super::npc::NpcTopicView>, name: Seq<char>)
    requires
        forall|k: int|
            0 <= k < topics.len() ==> !(super::rules::topic_available(g, #[trigger] topics[k])
                && normalized_name(topics[k].name) == name),
    ensures
        super::rules::find_topic(g, topics, name) is None,
    decreases topics.len(),
{
    if topics.len() > 0 {
        let rest = topics.drop_first();
        assert forall|k: int| 0 <= k < rest.len() implies !(super::rules::topic_available(
            g,
            #[trigger] rest[k],
        ) && normalized_name(rest[k].name) == name) by {
            assert(rest[k] == topics[k + 1]);
        }
        lemma_find_topic_none(g, rest, name);
    }
}

/// Where `topic` is the only topic named `name`, it is found exactly when it is available.
proof fn lemma_find_topic(
    g: GameView,
    topics: Seq<super::npc::NpcTopicView>,
    name: Seq<char>,
    topic: super::npc::NpcTopicView,
)
    requires
        topics.contains(topic),
        normalized_name(topic.name) == name,
        forall|t: super::npc::NpcTopicView| #[trigger]
            topics.contains(t) && normalized_name(t.name) == name ==> t == topic,
    ensures
        super::rules::find_topic(g, topics, name) == (if super::rules::topic_available(g, topic) {
            Some(topic)
        } else {
            None
        }),
    decreases topics.len(),
{
    let t0 = topics[0];
    assert(topics.contains(t0));
    if super::rules::topic_available(g, t0) && normalized_name(t0.name) == name {
    } else {
        let rest = topics.drop_first();
        assert forall|t: super::npc::NpcTopicView| #[trigger]
            rest.contains(t) && normalized_name(t.name) == name implies t == topic by {
            let k = choose|k: int| 0 <= k < rest.len() && rest[k] == t;
            assert(topics[k + 1] == t);
            assert(topics.contains(t));
        }
        if rest.contains(topic) {
            lemma_find_topic(g, rest, name, topic);
        } else {
            let k = choose|k: int| 0 <= k < topics.len() && topics[k] == topic;
            if k > 0 {
                assert(rest[k - 1] == topic);
            }
            assert forall|j: int| 0 <= j < rest.len() implies !(super::rules::topic_available(
                g,
                #[trigger] rest[j],
            ) && normalized_name(rest[j].name) == name) by {
                if normalized_name(rest[j].name) == name {
                    assert(rest.contains(rest[j]));
                }
            }
            lemma_find_topic_none(g, rest, name);
        }
    }
}

/// A question about a topic that only one topic of the asked character is named as is answered
/// from that topic exactly when the character knows every fact it requires and none it
/// excludes: the answer reports the facts newly learned, and what is known afterwards is what
/// learning the topic's facts gives. Otherwise the question is refused as about an unknown
/// topic, and nothing changes. This holds wherever the question's quest transitions come to
/// rest.
pub proof fn law_questions_reach_only_available_topics(
    g: GameView,
    query: super::command::AskQueryView,
    topic: super::npc::NpcTopicView,
)
    requires
        super::rules::ask_settles(g, query),
        keys_unique(g.character.quests),
        asked_npc(g, query) is Some,
        asked_npc(g, query)->0.topics.contains(topic),
        normalized_name(topic.name) == normalized_name(query.topic),
        forall|t: super::npc::NpcTopicView| #[trigger]
            asked_npc(g, query)->0.topics.contains(t) && normalized_name(t.name) == normalized_name(
                query.topic,
            ) ==> t == topic,
    ensures
        super::rules::topic_available(g, topic) ==> (attempt_ask(
            g,
            query,
        ).1[0] matches GameEventView::NpcAnswered { topic_id, learned_facts, .. } && topic_id
            == topic.id && learned_facts == learn_facts(g, topic.grants_facts).1),
        super::rules::topic_available(g, topic) ==> attempt_ask(g, query).0.character.facts
            == learn_facts(g, topic.grants_facts).0,
        super::rules::topic_available(g, topic) ==> (attempt_ask(
            g,
            query,
        ).1[0] matches GameEventView::NpcAnswered { updated_topics, .. } && updated_topics == ({
            let before = super::rules::available_topic_names(g, asked_npc(g, query)->0.topics);
            let after = match super::table::lookup(g.world.npcs, asked_npc(g, query)->0.id) {
                Some(n) => super::rules::available_topic_names(attempt_ask(g, query).0, n.topics),
                None => Seq::empty(),
            };
            if before != after {
                Some(after)
            } else {
                None
            }
        })),
        !super::rules::topic_available(g, topic) ==> attempt_ask(g, query) == (
            g,
            seq![
                GameEventView::AskFailed {
                    character_id: g.character.id,
                    npc_query: normalized_name(query.npc.name),
                    topic_query: normalized_name(query.topic),
                    reason: super::event::AskFailureReasonView::TopicNotFound {
                        npc_name: asked_npc(g, query)->0.name,
                    },
                },
            ],
        ),
{
    let npc = asked_npc(g, query)->0;
    let name = normalized_name(query.topic);
    lemma_find_topic(g, npc.topics, name, topic);
    if super::rules::topic_available(g, topic) {
        let (facts, learned) = learn_facts(g, topic.grants_facts);
        let g1 = GameView {
            character: super::character::CharacterView { facts, ..g.character },
            ..g
        };
        lemma_start_quests(g1, topic.starts_quests);
        let g2 = start_quests(g1, topic.starts_quests).0;
        law_settle_leaves_nothing_met(g2);
        let g3 = settle(g2).0;
        let keys = super::rules::quests_asking(g3, g3.character.quests, npc.id, topic.id);
        lemma_transitions_keep(g3, sorted_by_text::<super::ids::QuestKey>(keys));
        let g4 = apply_transitions(g3, keys).0;
        law_settle_leaves_nothing_met(g4);
        match super::table::lookup(g.world.npcs, npc.id) {
            Some(n) => lemma_available_topics_read_facts(g1, attempt_ask(g, query).0, n.topics),
            None => {},
        }
    }
}

/// Which topics are available depends only on the world and what the character knows.
proof fn lemma_available_topics_read_facts(
    g: GameView,
    h: GameView,
    topics: Seq<super::npc::NpcTopicView>,
)
    requires
        g.world.id == h.world.id,
        g.character.facts == h.character.facts,
    ensures
        super::rules::available_topic_names(g, topics) == super::rules::available_topic_names(
            h,
            topics,
        ),
    decreases topics.len(),
{
    if topics.len() > 0 {
        lemma_available_topics_read_facts(g, h, topics.drop_last());
        let t = topics.last();
        assert(super::rules::topic_available(g, t) == super::rules::topic_available(h, t));
    }
}

/// Dropping an item named in ASCII is refused, changing nothing, when the carried items whose
/// normalized names equal the normalized query are none (not found), several with no number
/// given (ambiguous, with their count), or fewer than the number given (out of range).
pub proof fn law_unmatched_drops_are_refused(g: GameView, query: super::command::TargetQueryView)
    requires
        forall|i: int| 0 <= i < query.name.len() ==> is_ascii_char(#[trigger] query.name[i]),
    ensures
        ({
            let name = normalized_name(query.name);
            let m = super::rules::items_named(
                g,
                super::world::items_at(
                    g.world.item_placements,
                    ItemLocationView::CarriedBy(g.character.id),
                ),
                name,
            ).len();
            let refused = |reason: DropFailureReason|
                (
                    g,
                    seq![
                        GameEventView::DropFailed {
                            character_id: g.character.id,
                            room_id: g.character.current_room,
                            query: name,
                            reason,
                        },
                    ],
                );
            &&& query.ordinal is None && m == 0 ==> attempt_drop(g, query) == refused(
                DropFailureReason::NotFound,
            )
            &&& query.ordinal is None && m >= 2 ==> attempt_drop(g, query) == refused(
                DropFailureReason::Ambiguous { match_count: m as usize },
            )
            &&& query.ordinal is Some && query.ordinal->0 > m ==> attempt_drop(g, query) == refused(
                DropFailureReason::OrdinalOutOfRange {
                    requested: query.ordinal->0,
                    available: m as usize,
                },
            )
        }),
{
    law_ascii_names_normalize_once(query.name);
}

/// Taking an item named in ASCII in a room that exists is refused, changing nothing, when the
/// items in the room whose normalized names equal the normalized query are none (not found),
/// several with no number given (ambiguous, with their count), or fewer than the number given
/// (out of range).
pub proof fn law_unmatched_takes_are_refused(g: GameView, query: super::command::TargetQueryView)
    requires
        forall|i: int| 0 <= i < query.name.len() ==> is_ascii_char(#[trigger] query.name[i]),
        super::table::lookup(g.world.rooms, g.character.current_room) is Some,
    ensures
        ({
            let name = normalized_name(query.name);
            let room = super::table::lookup(g.world.rooms, g.character.current_room)->0;
            let m = super::rules::items_named(
                g,
                super::world::items_at(g.world.item_placements, ItemLocationView::Room(room.id)),
                name,
            ).len();
            let refused = |reason: TakeFailureReason|
                (
                    g,
                    seq![
                        GameEventView::TakeFailed {
                            character_id: g.character.id,
                            room_id: g.character.current_room,
                            query: name,
                            reason,
                        },
                    ],
                );
            &&& query.ordinal is None && m == 0 ==> attempt_take(g, query) == refused(
                TakeFailureReason::NotFound,
            )
            &&& query.ordinal is None && m >= 2 ==> attempt_take(g, query) == refused(
                TakeFailureReason::Ambiguous { match_count: m as usize },
            )
            &&& query.ordinal is Some && query.ordinal->0 > m ==> attempt_take(g, query) == refused(
                TakeFailureReason::OrdinalOutOfRange {
                    requested: query.ordinal->0,
                    available: m as usize,
                },
            )
        }),
{
    law_ascii_names_normalize_once(query.name);
}

/// Whether an event reports a quest moving on: advanced or completed.
pub open spec fn is_quest_event(e: GameEventView) -> bool {
    e is QuestAdvanced || e is QuestCompleted
}

/// Transitions report only quests moving on.
proof fn lemma_transitions_report_quests(g: GameView, keys: Seq<QuestKeyView>)
    ensures
        forall|k: int|
            0 <= k < super::rules::apply_transitions_in_order(g, keys).1.len() ==> is_quest_event(
                #[trigger] super::rules::apply_transitions_in_order(g, keys).1[k],
            ),
    decreases keys.len(),
{
    if keys.len() > 0 {
        lemma_transitions_report_quests(g, keys.drop_last());
        let (g1, e1) = super::rules::apply_transitions_in_order(g, keys.drop_last());
        let e2 = super::rules::apply_transition(g1, keys.last()).1;
        assert forall|k: int| 0 <= k < (e1 + e2).len() implies is_quest_event(#[trigger] (e1 + e2)[k]) by {
            if k < e1.len() {
                assert((e1 + e2)[k] == e1[k]);
            } else {
                assert((e1 + e2)[k] == e2[k - e1.len()]);
            }
        }
    }
}

/// Rounds of transitions report only quests moving on.
proof fn lemma_rounds_report_quests(g: GameView, fuel: nat)
    ensures
        forall|k: int|
            0 <= k < settle_rounds(g, fuel).1.len() ==> is_quest_event(
                #[trigger] settle_rounds(g, fuel).1[k],
            ),
    decreases fuel,
{
    if fuel > 0 {
        let keys = satisfied_quests(g, g.character.quests);
        if keys.len() > 0 {
            let sorted = sorted_by_text::<super::ids::QuestKey>(keys);
            lemma_transitions_report_quests(g, sorted);
            let (g1, e1) = apply_transitions(g, keys);
            lemma_rounds_report_quests(g1, (fuel - 1) as nat);
            let e2 = settle_rounds(g1, (fuel - 1) as nat).1;
            assert forall|k: int| 0 <= k < (e1 + e2).len() implies is_quest_event(#[trigger] (e1 + e2)[k]) by {
                if k < e1.len() {
                    assert((e1 + e2)[k] == e1[k]);
                } else {
                    assert((e1 + e2)[k] == e2[k - e1.len()]);
                }
            }
        }
    }
}

/// Moving through an exit of the character's room: when the character meets every
/// requirement of the exit (carries every item and knows every fact it asks for), it ends up
/// at the exit's destination; the move is reported first, then the room arrived in as
/// observed there, then only quests moving on; the world, including where every item lies,
/// stays as it was. When a requirement is not met, the move is blocked with the exit's
/// failure message, or `You cannot pass that way.` when it has none, and nothing changes.
pub proof fn law_moves_follow_exit_requirements(g: GameView, direction: super::direction::Direction)
    requires
        super::rules::move_settles(g, direction),
        keys_unique(g.character.quests),
        super::table::lookup(g.world.rooms, g.character.current_room) is Some,
        super::table::lookup(
            super::table::lookup(g.world.rooms, g.character.current_room)->0.exits,
            direction,
        ) is Some,
    ensures
        ({
            let room = super::table::lookup(g.world.rooms, g.character.current_room)->0;
            let exit = super::table::lookup(room.exits, direction)->0;
            let (after, events) = attempt_move(g, direction);
            &&& super::rules::requirements_met(g, exit) ==> {
                &&& after.character.current_room == exit.destination
                &&& after.world == g.world
                &&& after.character.facts == g.character.facts
                &&& events[0] == GameEventView::CharacterMoved {
                    character_id: g.character.id,
                    from: g.character.current_room,
                    to: exit.destination,
                    direction,
                }
                &&& {
                    let look = match super::rules::observe_room(after) {
                        Some(e) => seq![e],
                        None => Seq::empty(),
                    };
                    &&& events.subrange(1, 1 + look.len() as int) == look
                    &&& forall|k: int|
                        1 + look.len() <= k < events.len() ==> is_quest_event(#[trigger] events[k])
                }
            }
            &&& !super::rules::requirements_met(g, exit) ==> attempt_move(g, direction) == (
                g,
                seq![
                    GameEventView::MovementBlocked {
                        character_id: g.character.id,
                        room_id: g.character.current_room,
                        direction,
                        message: match exit.failure_message {
                            Some(m) => m,
                            None => "You cannot pass that way."@,
                        },
                    },
                ],
            )
        }),
{
    let room = super::table::lookup(g.world.rooms, g.character.current_room)->0;
    let exit = super::table::lookup(room.exits, direction)->0;
    if super::rules::requirements_met(g, exit) {
        let moved = GameView {
            character: super::character::CharacterView {
                current_room: exit.destination,
                ..g.character
            },
            ..g
        };
        law_settle_leaves_nothing_met(moved);
        let fuel = choose|fuel: nat| rounds_done(moved, fuel);
        lemma_rounds_report_quests(moved, fuel);
        let (after, events) = attempt_move(g, direction);
        let (settled, quests) = settle(moved);
        let look = match super::rules::observe_room(settled) {
            Some(e) => seq![e],
            None => Seq::<GameEventView>::empty(),
        };
        let first = seq![
            GameEventView::CharacterMoved {
                character_id: g.character.id,
                from: g.character.current_room,
                to: exit.destination,
                direction,
            },
        ];
        assert(events == first + look + quests);
        assert(events.subrange(1, 1 + look.len() as int) =~= look);
        assert forall|k: int| 1 + look.len() <= k < events.len() implies is_quest_event(#[trigger] events[k]) by {
            assert(events[k] == quests[k - 1 - look.len()]);
        }
    }
}

/// The items that can be reached from a room are exactly those placed in the room itself or
/// on one of its features: each one reached has such a placement, and each such placement's
/// item is reached. An item placed nowhere or carried is reached only through another
/// placement of it in the room.
pub proof fn law_accessible_items_lie_in_the_room(
    placements: Seq<ItemPlacementView>,
    room: super::room::RoomView,
)
    ensures
        forall|k: int|
            0 <= k < super::world::items_accessible(placements, room).len() ==> exists|j: int|
                0 <= j < placements.len() && placements[j].item_id
                    == #[trigger] super::world::items_accessible(placements, room)[k] && (
                placements[j].location == ItemLocationView::Room(room.id) || (
                placements[j].location matches ItemLocationView::OnFeature(f)
                    && room.features.contains(f))),
        forall|j: int|
            0 <= j < placements.len() && #[trigger] super::world::accessible_from(
                placements[j].location,
                room,
            ) ==> super::world::items_accessible(placements, room).contains(placements[j].item_id),
    decreases placements.len(),
{
    if placements.len() > 0 {
        let d = placements.drop_last();
        law_accessible_items_lie_in_the_room(d, room);
        let rest = super::world::items_accessible(d, room);
        let r = super::world::items_accessible(placements, room);
        let last = placements.last();
        assert forall|k: int| 0 <= k < r.len() implies exists|j: int|
            0 <= j < placements.len() && placements[j].item_id == #[trigger] r[k] && (
            placements[j].location == ItemLocationView::Room(room.id) || (
            placements[j].location matches ItemLocationView::OnFeature(f)
                && room.features.contains(f))) by {
            if k < rest.len() {
                assert(r[k] == rest[k]);
                let j = choose|j: int|
                    0 <= j < d.len() && d[j].item_id == #[trigger] rest[k] && (d[j].location
                        == ItemLocationView::Room(room.id) || (
                    d[j].location matches ItemLocationView::OnFeature(f)
                        && room.features.contains(f)));
                assert(placements[j] == d[j]);
            } else {
                assert(placements[placements.len() - 1] == last);
            }
        }
        assert forall|j: int|
            0 <= j < placements.len() && #[trigger] super::world::accessible_from(
                placements[j].location,
                room,
            ) implies r.contains(placements[j].item_id) by {
            if j < d.len() {
                assert(placements[j] == d[j]);
                assert(rest.contains(d[j].item_id));
                let k = choose|k: int| 0 <= k < rest.len() && rest[k] == d[j].item_id;
                assert(r[k] == rest[k]);
            } else {
                assert(r[rest.len() as int] == last.item_id);
            }
        }
    }
}

/// The quests an answer moves on are exactly the tracked quests whose current step, in an
/// active quest of this world, asks for a question to that very character about that very
/// topic: a question to another character, or about another topic, moves none of them.
pub proof fn law_answers_move_only_matching_dialogue_quests(
    g: GameView,
    entries: Seq<(QuestKeyView, QuestProgressView)>,
    npc: Seq<char>,
    topic: Seq<char>,
    key: QuestKeyView,
)
    ensures
        super::rules::quests_asking(g, entries, npc, topic).contains(key) <==> exists|i: int|
            0 <= i < entries.len() && entries[i].0 == key && #[trigger] super::rules::active_step_objective(
                g,
                key,
                entries[i].1,
            ) == Some(super::quest::QuestObjectiveView::AskTopic { npc_id: npc, topic_id: topic }),
    decreases entries.len(),
{
    if entries.len() > 0 {
        let d = entries.drop_last();
        law_answers_move_only_matching_dialogue_quests(g, d, npc, topic, key);
        let rest = super::rules::quests_asking(g, d, npc, topic);
        let all = super::rules::quests_asking(g, entries, npc, topic);
        let want = Some(super::quest::QuestObjectiveView::AskTopic { npc_id: npc, topic_id: topic });
        let n = entries.len() - 1;
        if all.contains(key) {
            let m = choose|m: int| 0 <= m < all.len() && all[m] == key;
            if m < rest.len() && (all == rest || all == rest.push(entries[n].0)) {
                assert(all[m] == rest[m]);
                assert(rest.contains(key));
                let i = choose|i: int| 0 <= i < d.len() && d[i].0 == key && #[trigger] super::rules::active_step_objective(g, key, d[i].1) == want;
                assert(entries[i] == d[i]);
            } else {
                assert(entries[n].0 == key);
                assert(super::rules::active_step_objective(g, key, entries[n].1) == want);
            }
        }
        if exists|i: int|
            0 <= i < entries.len() && entries[i].0 == key && #[trigger] super::rules::active_step_objective(
                g,
                key,
                entries[i].1,
            ) == want {
            let i = choose|i: int|
                0 <= i < entries.len() && entries[i].0 == key && #[trigger] super::rules::active_step_objective(
                    g,
                    key,
                    entries[i].1,
                ) == want;
            if i < n {
                assert(d[i] == entries[i]);
                assert(rest.contains(key));
                let m = choose|m: int| 0 <= m < rest.len() && rest[m] == key;
                if all != rest {
                    assert(all == rest.push(entries[n].0));
                    assert(all[m] == rest[m]);
                }
            } else {
                assert(all == rest.push(key));
                assert(all[rest.len() as int] == key);
            }
        }
    }
}

/// A tracked entry of a quest with unique keys is the one found by its key.
proof fn lemma_entry_is_found(entries: Seq<(QuestKeyView, QuestProgressView)>, i: int)
    requires
        keys_unique(entries),
        0 <= i < entries.len(),
    ensures
        super::table::lookup(entries, entries[i].0) == Some(entries[i].1),
{
    super::table::lemma_key_position_found(entries, entries[i].0);
    let p = super::table::key_position(entries, entries[i].0);
    if p != i {
        if p < i {
            assert(entries[p].0 != entries[i].0);
        } else {
            assert(entries[i].0 != entries[p].0);
        }
    }
}

/// A quest among those whose objective is met has an entry whose current objective is met.
proof fn lemma_satisfied_met(
    g: GameView,
    entries: Seq<(QuestKeyView, QuestProgressView)>,
    key: QuestKeyView,
)
    requires
        satisfied_quests(g, entries).contains(key),
    ensures
        exists|i: int|
            0 <= i < entries.len() && entries[i].0 == key && (#[trigger] super::rules::active_step_objective(
                g,
                key,
                entries[i].1,
            ) matches Some(o) && super::rules::objective_met(g, o)),
    decreases entries.len(),
{
    let d = entries.drop_last();
    let rest = satisfied_quests(g, d);
    let all = satisfied_quests(g, entries);
    let n = entries.len() - 1;
    let m = choose|m: int| 0 <= m < all.len() && all[m] == key;
    if m < rest.len() && (all == rest || all == rest.push(entries[n].0)) {
        assert(all[m] == rest[m]);
        assert(rest.contains(key));
        lemma_satisfied_met(g, d, key);
        let i = choose|i: int|
            0 <= i < d.len() && d[i].0 == key && (#[trigger] super::rules::active_step_objective(
                g,
                key,
                d[i].1,
            ) matches Some(o) && super::rules::objective_met(g, o));
        assert(entries[i] == d[i]);
    } else {
        assert(entries[n].0 == key);
    }
}

/// Rounds of transitions leave alone a quest waiting for a question.
proof fn lemma_rounds_keep_waiting(g: GameView, key: QuestKeyView, p: QuestProgressView, fuel: nat)
    requires
        keys_unique(g.character.quests),
        super::table::lookup(g.character.quests, key) == Some(p),
        super::rules::active_step_objective(g, key, p) matches Some(
            super::quest::QuestObjectiveView::AskTopic { .. },
        ),
    ensures
        super::table::lookup(settle_rounds(g, fuel).0.character.quests, key) == Some(p),
    decreases fuel,
{
    if fuel > 0 {
        let s = g.character.quests;
        let keys = satisfied_quests(g, s);
        if keys.len() > 0 {
            if keys.contains(key) {
                lemma_satisfied_met(g, s, key);
                let i = choose|i: int|
                    0 <= i < s.len() && s[i].0 == key && (#[trigger] super::rules::active_step_objective(
                        g,
                        key,
                        s[i].1,
                    ) matches Some(o) && super::rules::objective_met(g, o));
                lemma_entry_is_found(s, i);
            }
            lemma_sorted_transitions_other(g, key, keys);
            lemma_transitions_keep(g, sorted_by_text::<super::ids::QuestKey>(keys));
            let g1 = apply_transitions(g, keys).0;
            lemma_rounds_keep_waiting(g1, key, p, (fuel - 1) as nat);
        }
    }
}

/// An answer moves on no quest whose current step waits for a question to another character
/// or about another topic: such a quest's progress is exactly as it was before the question.
pub proof fn law_answers_leave_other_dialogue_quests_alone(
    g: GameView,
    query: super::command::AskQueryView,
    key: QuestKeyView,
    p: QuestProgressView,
    npc_id: Seq<char>,
    topic_id: Seq<char>,
)
    requires
        super::rules::ask_settles(g, query),
        keys_unique(g.character.quests),
        super::table::lookup(g.character.quests, key) == Some(p),
        super::rules::active_step_objective(g, key, p) == Some(
            super::quest::QuestObjectiveView::AskTopic { npc_id, topic_id },
        ),
    ensures
        attempt_ask(g, query).1.len() > 0 && (attempt_ask(g, query).1[0] matches GameEventView::NpcAnswered {
            npc_id: asked,
            topic_id: answered,
            ..
        } && (asked != npc_id || answered != topic_id)) ==> super::table::lookup(
            attempt_ask(g, query).0.character.quests,
            key,
        ) == Some(p),
{
    let npc_query = normalized_name(query.npc.name);
    let topic_query = normalized_name(query.topic);
    let matches = super::rules::matching_room_npcs(g, npc_query);
    match super::rules::select(matches.len(), query.npc.ordinal) {
        super::rules::Selection::Picked(i) => match super::table::lookup(g.world.npcs, matches[i]) {
            Some(npc) => match super::rules::find_topic(g, npc.topics, topic_query) {
                Some(topic) => {
                    if npc.id != npc_id || topic.id != topic_id {
                        let (facts, learned) = learn_facts(g, topic.grants_facts);
                        let g1 = GameView {
                            character: super::character::CharacterView { facts, ..g.character },
                            ..g
                        };
                        lemma_start_quests(g1, topic.starts_quests);
                        lemma_start_keeps_tracked(g1, topic.starts_quests, key);
                        let g2 = start_quests(g1, topic.starts_quests).0;
                        let fuel2 = choose|fuel: nat| rounds_done(g2, fuel);
                        lemma_rounds_keep_waiting(g2, key, p, fuel2);
                        law_settle_leaves_nothing_met(g2);
                        let g3 = settle(g2).0;
                        let keys = super::rules::quests_asking(g3, g3.character.quests, npc.id, topic.id);
                        law_answers_move_only_matching_dialogue_quests(
                            g3,
                            g3.character.quests,
                            npc.id,
                            topic.id,
                            key,
                        );
                        if keys.contains(key) {
                            let j = choose|j: int|
                                0 <= j < g3.character.quests.len() && g3.character.quests[j].0 == key
                                    && #[trigger] super::rules::active_step_objective(
                                    g3,
                                    key,
                                    g3.character.quests[j].1,
                                ) == Some(
                                    super::quest::QuestObjectiveView::AskTopic {
                                        npc_id: npc.id,
                                        topic_id: topic.id,
                                    },
                                );
                            lemma_entry_is_found(g3.character.quests, j);
                        }
                        lemma_sorted_transitions_other(g3, key, keys);
                        lemma_transitions_keep(g3, sorted_by_text::<super::ids::QuestKey>(keys));
                        let g4 = apply_transitions(g3, keys).0;
                        let fuel4 = choose|fuel: nat| rounds_done(g4, fuel);
                        lemma_rounds_keep_waiting(g4, key, p, fuel4);
                    }
                },
                None => {},
            },
            None => {},
        },
        _ => {},
    }
}

} // verus!
