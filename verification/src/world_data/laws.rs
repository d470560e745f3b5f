use vstd::prelude::*;

use super::conversion::{
    exits_from, item_from, items_from, placed_in_rooms, quest_from, quests_from, room_from,
    room_placements, rooms_from, step_from, with_unplaced, world_from,
};
use super::definition::{
    ExitDefinition, ItemDefinition, QuestDefinition, QuestStepDefinition, RoomDefinition,
    WorldDefinition,
};
use super::validation::{
    direction_word_text, exit_direction_problem, exit_direction_problems, first_some,
    lemma_first_some_none, next_of, next_reference_problem, next_reference_problems,
    quest_problem, quest_problems, step_ids_of, unreachable_problems, walk, world_checks,
    world_problem, all_listed, placement_problem, placement_problems, room_list,
    room_placement_problems, RoomList, blank, valid_id, quest_ids_of, step_problem,
    room_ids_of,
};
use super::definition::QuestObjectiveDefinition;
use crate::game::event::text_views;
use crate::game::item::ItemView;
use crate::game::item_location::{ItemLocationView, ItemPlacementView};
use crate::game::laws::{items_keyed_by_id, placed_once, placements_unique};
use crate::game::world::{
    lemma_placement_position, lemma_placement_scan, location_of, placement_position,
};
use crate::game::quest::{find_step, QuestStepView, QuestView};
use crate::game::rules::{chain_length, quest_chains_end, quests_end};
use crate::game::direction::Direction;
use crate::game::exit::ExitView;
use crate::game::room::RoomView;

verus! {

/// Exits whose direction words are all known convert without error.
proof fn lemma_exits_convert(acc: Seq<(Direction, ExitView)>, defs: Seq<(String, ExitDefinition)>)
    requires
        forall|k: int| 0 <= k < defs.len() ==> direction_word_text(#[trigger] defs[k].0@),
    ensures
        exits_from(acc, defs) is Ok,
    decreases defs.len(),
{
    if defs.len() > 0 {
        assert(direction_word_text(defs[0].0@));
        let rest = defs.drop_first();
        assert forall|k: int| 0 <= k < rest.len() implies direction_word_text(#[trigger] rest[k].0@) by {
            assert(rest[k] == defs[k + 1]);
            assert(direction_word_text(defs[k + 1].0@));
        }
        let d = crate::game::direction::direction_named(defs[0].0@).unwrap();
        lemma_exits_convert(
            crate::game::table::table_insert(
                acc,
                d,
                super::conversion::exit_from(defs[0].1),
            ),
            rest,
        );
    }
}

/// Rooms whose exits all have known direction words convert without error.
proof fn lemma_rooms_convert(acc: Seq<(Seq<char>, RoomView)>, rooms: Seq<RoomDefinition>)
    requires
        forall|r: int, k: int|
            0 <= r < rooms.len() && 0 <= k < rooms[r].exits@.len() ==> direction_word_text(
                #[trigger] rooms[r].exits@[k].0@,
            ),
    ensures
        rooms_from(acc, rooms) is Ok,
    decreases rooms.len(),
{
    if rooms.len() > 0 {
        assert forall|k: int| 0 <= k < rooms[0].exits@.len() implies direction_word_text(
            #[trigger] rooms[0].exits@[k].0@,
        ) by {
            assert(direction_word_text(rooms[0].exits@[k].0@));
        }
        lemma_exits_convert(Seq::empty(), rooms[0].exits@);
        let room = room_from(rooms[0])->Ok_0;
        let rest = rooms.drop_first();
        assert forall|r: int, k: int|
            0 <= r < rest.len() && 0 <= k < rest[r].exits@.len() implies direction_word_text(
            #[trigger] rest[r].exits@[k].0@,
        ) by {
            assert(rest[r] == rooms[r + 1]);
            assert(direction_word_text(rooms[r + 1].exits@[k].0@));
        }
        lemma_rooms_convert(crate::game::table::table_insert(acc, rooms[0].id@, room), rest);
    }
}

/// A world definition that passes validation can always be turned into a world.
pub proof fn law_valid_world_converts(world: WorldDefinition)
    requires
        world_problem(world) is None,
    ensures
        world_from(world) is Ok,
{
    let checks = world_checks(world);
    lemma_first_some_none(checks);
    assert(checks[21] is None);
    assert(exit_direction_problems(world.rooms@) is None);
    let rooms = world.rooms@;
    let outer = Seq::new(
        rooms.len(),
        |r: int|
            first_some(
                Seq::new(rooms[r].exits@.len(), |k: int| exit_direction_problem(rooms, r, k)),
            ),
    );
    lemma_first_some_none(outer);
    assert forall|r: int, k: int|
        0 <= r < rooms.len() && 0 <= k < rooms[r].exits@.len() implies direction_word_text(
        #[trigger] rooms[r].exits@[k].0@,
    ) by {
        assert(outer[r] is None);
        let inner = Seq::new(rooms[r].exits@.len(), |k: int| exit_direction_problem(rooms, r, k));
        lemma_first_some_none(inner);
        assert(inner[k] is None);
    }
    lemma_rooms_convert(Seq::empty(), rooms);
}


/// The step views of step definitions, in order.
pub open spec fn step_views(defs: Seq<QuestStepDefinition>) -> Seq<QuestStepView> {
    Seq::new(defs.len(), |i: int| step_from(defs[i]))
}

/// Finding a converted step by identifier finds one exactly when a definition has that
/// identifier, and its next step is the one the definitions give.
proof fn lemma_find_converted_step(defs: Seq<QuestStepDefinition>, s: Seq<char>)
    ensures
        (find_step(step_views(defs), s) is Some) == step_ids_of(defs).contains(s),
        find_step(step_views(defs), s) is Some ==> find_step(step_views(defs), s)->0.next_step
            == next_of(defs, s),
    decreases defs.len(),
{
    let views = step_views(defs);
    if defs.len() == 0 {
        assert(!step_ids_of(defs).contains(s));
    } else {
        let rest = defs.drop_first();
        lemma_find_converted_step(rest, s);
        assert(views.drop_first() =~= step_views(rest));
        assert(step_ids_of(defs)[0] == defs[0].id@);
        if defs[0].id@ == s {
            assert(step_ids_of(defs).contains(s));
        } else {
            if step_ids_of(rest).contains(s) {
                let k = choose|k: int| 0 <= k < step_ids_of(rest).len() && step_ids_of(rest)[k] == s;
                assert(step_ids_of(defs)[k + 1] == s);
            }
            if step_ids_of(defs).contains(s) {
                let k = choose|k: int| 0 <= k < step_ids_of(defs).len() && step_ids_of(defs)[k] == s;
                assert(k > 0);
                assert(step_ids_of(rest)[k - 1] == s);
            }
        }
    }
}

/// Whether `r` is a chain of steps: each one's next step is the one after it, and the last
/// has no next step.
pub open spec fn is_chain(defs: Seq<QuestStepDefinition>, r: Seq<Seq<char>>) -> bool {
    &&& forall|k: int| 0 <= k < r.len() - 1 ==> next_of(defs, #[trigger] r[k]) == Some(r[k + 1])
    &&& r.len() > 0 ==> next_of(defs, r.last()) is None
}

/// A walk that starts well ends in a chain of distinct steps, no more of them than there
/// are steps, that extends what was visited.
proof fn lemma_walk_chain(
    defs: Seq<QuestStepDefinition>,
    current: Option<Seq<char>>,
    visited: Seq<Seq<char>>,
    fuel: nat,
)
    requires
        walk(defs, current, visited, fuel) is Ok,
        fuel + visited.len() == defs.len() + 1,
        visited.no_duplicates(),
        forall|x: Seq<char>| visited.contains(x) ==> step_ids_of(defs).contains(x),
        current matches Some(c) ==> step_ids_of(defs).contains(c),
        forall|j: int|
            0 <= j < defs.len() ==> (#[trigger] defs[j].next_step matches Some(n)
                ==> step_ids_of(defs).contains(n@)),
        forall|k: int| 0 <= k < visited.len() - 1 ==> next_of(defs, #[trigger] visited[k]) == Some(visited[k + 1]),
        visited.len() > 0 ==> next_of(defs, visited.last()) == current,
    ensures
        ({
            let r = walk(defs, current, visited, fuel)->Ok_0;
            &&& is_chain(defs, r)
            &&& r.no_duplicates()
            &&& r.len() <= defs.len()
            &&& r.take(visited.len() as int) == visited
            &&& current matches Some(c) ==> r.len() > visited.len() && r[visited.len() as int] == c
            &&& forall|x: Seq<char>| r.contains(x) ==> step_ids_of(defs).contains(x)
        }),
    decreases fuel,
{
    match current {
        None => {
            lemma_distinct_steps(visited, defs);
            assert(visited.take(visited.len() as int) =~= visited);
        },
        Some(c) => {
            let grown = visited.push(c);
            assert(!visited.contains(c));
            assert forall|i: int, j: int|
                0 <= i < grown.len() && 0 <= j < grown.len() && i != j implies grown[i]
                != grown[j] by {
                if j == visited.len() {
                    assert(visited.contains(visited[i]));
                } else if i == visited.len() {
                    assert(visited.contains(visited[j]));
                }
            }
            assert(step_ids_of(defs).contains(c));
            assert forall|x: Seq<char>| grown.contains(x) implies step_ids_of(defs).contains(x) by {
                if x != c {
                    let i = choose|i: int| 0 <= i < grown.len() && grown[i] == x;
                    assert(i < visited.len());
                    assert(visited[i] == x);
                    assert(visited.contains(x));
                }
            }
            lemma_distinct_steps(grown, defs);
            assert(fuel > 0);
            let next = next_of(defs, c);
            crate::world_data::validation::lemma_next_of(defs, c);
            if next is Some {
                let j = choose|j: int|
                    0 <= j < defs.len() && crate::game::exit::opt_view(#[trigger] defs[j].next_step)
                        == next;
                assert(defs[j].next_step is Some);
            }
            assert forall|k: int| 0 <= k < grown.len() - 1 implies next_of(defs, #[trigger] grown[k]) == Some(grown[k + 1]) by {
                if k < visited.len() - 1 {
                    assert(grown[k] == visited[k]);
                    assert(grown[k + 1] == visited[k + 1]);
                } else {
                    assert(grown[k] == visited.last());
                }
            }
            lemma_walk_chain(defs, next, grown, (fuel - 1) as nat);
            let r = walk(defs, next, grown, (fuel - 1) as nat)->Ok_0;
            assert(r.take(grown.len() as int)[visited.len() as int] == c);
            assert(r.take(visited.len() as int) =~= r.take(grown.len() as int).take(
                visited.len() as int,
            ));
            assert(grown.take(visited.len() as int) =~= visited);
        },
    }
}

/// Distinct steps are no more than there are steps.
proof fn lemma_distinct_steps(s: Seq<Seq<char>>, defs: Seq<QuestStepDefinition>)
    requires
        s.no_duplicates(),
        forall|x: Seq<char>| s.contains(x) ==> step_ids_of(defs).contains(x),
    ensures
        s.len() <= defs.len(),
{
    s.unique_seq_to_set();
    let t = step_ids_of(defs);
    t.lemma_cardinality_of_set();
    vstd::seq_lib::seq_to_set_is_finite(t);
    assert(s.to_set().subset_of(t.to_set()));
    vstd::set_lib::lemma_len_subset(s.to_set(), t.to_set());
}

/// From the `p`-th step of a chain, the chain goes on for the rest of it, whatever fuel beyond
/// that is given.
proof fn lemma_chain_length(
    defs: Seq<QuestStepDefinition>,
    q: QuestView,
    r: Seq<Seq<char>>,
    p: int,
    fuel: nat,
)
    requires
        q.steps == step_views(defs),
        is_chain(defs, r),
        forall|k: int| 0 <= k < r.len() ==> step_ids_of(defs).contains(#[trigger] r[k]),
        0 <= p < r.len(),
        fuel >= r.len() - p,
    ensures
        chain_length(q, r[p], fuel) == r.len() - p,
    decreases r.len() - p,
{
    lemma_find_converted_step(defs, r[p]);
    assert(step_ids_of(defs).contains(r[p]));
    if p < r.len() - 1 {
        assert(next_of(defs, r[p]) == Some(r[p + 1]));
        lemma_chain_length(defs, q, r, p + 1, (fuel - 1) as nat);
    } else {
        assert(r[p] == r.last());
    }
}

/// A quest that passes validation has chains that end.
proof fn lemma_valid_quest_ends(world: WorldDefinition, i: int)
    requires
        0 <= i < world.quests@.len(),
        quest_problem(world, i) is None,
    ensures
        quest_chains_end(quest_from(world.quests@[i])),
{
    let quest = world.quests@[i];
    let defs = quest.steps@;
    let q = quest_from(quest);
    assert(q.steps =~= step_views(defs));
    let n = defs.len();
    let problems = Seq::new(n, |j: int| next_reference_problem(quest, j));
    lemma_first_some_none(problems);
    assert forall|j: int|
        0 <= j < defs.len() implies (#[trigger] defs[j].next_step matches Some(m)
        ==> step_ids_of(defs).contains(m@)) by {
        assert(problems[j] is None);
    }
    lemma_walk_chain(defs, Some(quest.starting_step@), Seq::empty(), (n + 1) as nat);
    let r = walk(defs, Some(quest.starting_step@), Seq::empty(), (n + 1) as nat)->Ok_0;
    let unreached = Seq::new(
        n,
        |j: int|
            if r.contains(defs[j].id@) {
                None
            } else {
                Some(
                    "Step '"@ + defs[j].id@ + "' on quest '"@ + quest.id@
                        + "' is unreachable from the starting step"@,
                )
            },
    );
    assert(unreachable_problems(quest, r) == first_some(unreached));
    lemma_first_some_none(unreached);
    assert forall|k: int| 0 <= k < r.len() implies step_ids_of(defs).contains(#[trigger] r[k]) by {
        assert(r.contains(r[k]));
    }
    assert forall|s: Seq<char>|
        #[trigger] chain_length(q, s, n) == chain_length(q, s, (n + 1) as nat) by {
        lemma_find_converted_step(defs, s);
        if step_ids_of(defs).contains(s) {
            let j = choose|j: int| 0 <= j < step_ids_of(defs).len() && step_ids_of(defs)[j] == s;
            assert(unreached[j] is None);
            assert(r.contains(s));
            let p = choose|p: int| 0 <= p < r.len() && r[p] == s;
            lemma_chain_length(defs, q, r, p, n);
            lemma_chain_length(defs, q, r, p, (n + 1) as nat);
        }
    }
}

/// Adding quests whose chains end to a table of such quests gives a table of such quests.
proof fn lemma_quests_end_table(acc: Seq<(Seq<char>, QuestView)>, defs: Seq<QuestDefinition>)
    requires
        forall|i: int| 0 <= i < acc.len() ==> quest_chains_end(#[trigger] acc[i].1),
        forall|j: int| 0 <= j < defs.len() ==> quest_chains_end(#[trigger] quest_from(defs[j])),
    ensures
        forall|i: int|
            0 <= i < quests_from(acc, defs).len() ==> quest_chains_end(
                #[trigger] quests_from(acc, defs)[i].1,
            ),
    decreases defs.len(),
{
    if defs.len() > 0 {
        let next = crate::game::table::table_insert(acc, defs[0].id@, quest_from(defs[0]));
        assert(quest_chains_end(quest_from(defs[0])));
        crate::game::table::lemma_key_position_found(acc, defs[0].id@);
        let p = crate::game::table::key_position(acc, defs[0].id@);
        assert forall|i: int| 0 <= i < next.len() implies quest_chains_end(#[trigger] next[i].1) by {
            if p >= 0 {
                assert(next == acc.update(p, (defs[0].id@, quest_from(defs[0]))));
                if i != p {
                    assert(next[i] == acc[i]);
                    assert(quest_chains_end(acc[i].1));
                }
            } else {
                assert(next == acc.push((defs[0].id@, quest_from(defs[0]))));
                if i < acc.len() {
                    assert(next[i] == acc[i]);
                    assert(quest_chains_end(acc[i].1));
                }
            }
        }
        let rest = defs.drop_first();
        assert forall|j: int| 0 <= j < rest.len() implies quest_chains_end(#[trigger] quest_from(rest[j])) by {
            assert(rest[j] == defs[j + 1]);
        }
        lemma_quests_end_table(next, rest);
        assert(quests_from(acc, defs) == quests_from(next, rest));
    }
}

/// In a world built from a definition that passes validation, following next steps from any
/// step of any quest ends: quest transitions always come to rest.
pub proof fn law_valid_world_quests_end(world: WorldDefinition)
    requires
        world_problem(world) is None,
    ensures
        world_from(world) is Ok,
        world_from(world) matches Ok(w) ==> quests_end(w),
{
    law_valid_world_converts(world);
    let checks = world_checks(world);
    lemma_first_some_none(checks);
    assert(checks[11] is None);
    assert(quest_problems(world) is None);
    let problems = Seq::new(world.quests@.len(), |i: int| quest_problem(world, i));
    lemma_first_some_none(problems);
    assert forall|j: int| 0 <= j < world.quests@.len() implies quest_chains_end(
        #[trigger] quest_from(world.quests@[j]),
    ) by {
        assert(problems[j] is None);
        lemma_valid_quest_ends(world, j);
    }
    lemma_quests_end_table(Seq::empty(), world.quests@);
}


/// The items of placements, in order.
pub open spec fn placed_ids(placements: Seq<ItemPlacementView>) -> Seq<Seq<char>> {
    Seq::new(placements.len(), |i: int| placements[i].item_id)
}

/// The rooms place their items in the order the rooms list them.
proof fn lemma_placed_ids(rooms: Seq<RoomDefinition>)
    ensures
        placed_ids(placed_in_rooms(rooms)) == all_listed(rooms, RoomList::Items),
    decreases rooms.len(),
{
    if rooms.len() > 0 {
        lemma_placed_ids(rooms.drop_last());
        assert(placed_ids(room_placements(rooms.last())) =~= room_list(rooms.last(), RoomList::Items));
        assert(placed_ids(placed_in_rooms(rooms)) =~= placed_ids(placed_in_rooms(rooms.drop_last()))
            + placed_ids(room_placements(rooms.last())));
    }
}

/// Where no room lists an item that was listed before, the rooms list each item once.
proof fn lemma_listed_once(rooms: Seq<RoomDefinition>)
    requires
        forall|r: int, k: int|
            0 <= r < rooms.len() && 0 <= k < room_list(rooms[r], RoomList::Items).len()
                ==> #[trigger] placement_problem(rooms, RoomList::Items, "Item"@, r, k) is None,
    ensures
        all_listed(rooms, RoomList::Items).no_duplicates(),
    decreases rooms.len(),
{
    if rooms.len() > 0 {
        let front = rooms.drop_last();
        assert forall|r: int, k: int|
            0 <= r < front.len() && 0 <= k < room_list(front[r], RoomList::Items).len()
                implies #[trigger] placement_problem(front, RoomList::Items, "Item"@, r, k) is None by {
            assert(front.take(r) =~= rooms.take(r));
            assert(front[r] == rooms[r]);
            assert(placement_problem(rooms, RoomList::Items, "Item"@, r, k) is None);
        }
        lemma_listed_once(front);
        let before = all_listed(front, RoomList::Items);
        let list = room_list(rooms.last(), RoomList::Items);
        let all = all_listed(rooms, RoomList::Items);
        assert(rooms.take(rooms.len() - 1) =~= front);
        assert forall|i: int, j: int| 0 <= i < j < all.len() implies all[i] != all[j] by {
            if j >= before.len() {
                let k = j - before.len();
                assert(placement_problem(rooms, RoomList::Items, "Item"@, rooms.len() - 1, k) is None);
                assert(all[j] == list[k]);
                let earlier = before + list.take(k);
                if i < before.len() {
                    assert(earlier[i] == all[i]);
                } else {
                    assert(earlier[i] == list[i - before.len()]);
                    assert(all[i] == list[i - before.len()]);
                }
                assert(!earlier.contains(list[k]));
            } else {
                assert(all[i] == before[i]);
                assert(all[j] == before[j]);
            }
        }
    }
}

/// Placements whose items are all different place each item once.
proof fn lemma_distinct_ids_unique(placements: Seq<ItemPlacementView>)
    requires
        placed_ids(placements).no_duplicates(),
    ensures
        placements_unique(placements),
{
    assert forall|id: Seq<char>| placement_position(placements, id) >= 0 implies #[trigger] placed_once(placements, id) by {
        assert forall|i: int, j: int|
            0 <= i < placements.len() && 0 <= j < placements.len() && placements[i].item_id == id
                && placements[j].item_id == id implies i == j by {
            assert(placed_ids(placements)[i] == placed_ids(placements)[j]);
        }
    }
}

/// Placing each unplaced item nowhere keeps every item placed once.
proof fn lemma_unplaced_unique(placements: Seq<ItemPlacementView>, items: Seq<ItemDefinition>)
    requires
        placements_unique(placements),
    ensures
        placements_unique(with_unplaced(placements, items)),
    decreases items.len(),
{
    if items.len() > 0 {
        let id = items[0].id@;
        lemma_placement_position(placements, id);
        if placement_position(placements, id) < 0 {
            let next = placements.push(ItemPlacementView { item_id: id, location: ItemLocationView::Nowhere });
            assert forall|x: Seq<char>| placement_position(next, x) >= 0 implies #[trigger] placed_once(next, x) by {
                lemma_placement_position(next, x);
                lemma_placement_position(placements, x);
                if x == id {
                    assert forall|i: int, j: int|
                        0 <= i < next.len() && 0 <= j < next.len() && next[i].item_id == x
                            && next[j].item_id == x implies i == j by {
                        if i < placements.len() {
                            assert(next[i] == placements[i]);
                        }
                        if j < placements.len() {
                            assert(next[j] == placements[j]);
                        }
                    }
                } else {
                    let p = placement_position(next, x);
                    assert(next[p] == placements[p]);
                    assert forall|j: int| 0 <= j < p implies placements[j].item_id != x by {
                        assert(next[j] == placements[j]);
                    }
                    lemma_placement_scan(placements, x, p);
                    assert(placed_once(placements, x));
                    assert forall|i: int, j: int|
                        0 <= i < next.len() && 0 <= j < next.len() && next[i].item_id == x
                            && next[j].item_id == x implies i == j by {
                        assert(next[i] == placements[i]);
                        assert(next[j] == placements[j]);
                    }
                }
            }
            lemma_unplaced_unique(next, items.drop_first());
        } else {
            lemma_unplaced_unique(placements, items.drop_first());
        }
    }
}

/// Items added to a table keyed by their identifiers keep it keyed so.
proof fn lemma_items_keyed(acc: Seq<(Seq<char>, ItemView)>, defs: Seq<ItemDefinition>)
    requires
        forall|i: int| 0 <= i < acc.len() ==> #[trigger] acc[i].0 == acc[i].1.id,
    ensures
        forall|i: int|
            0 <= i < items_from(acc, defs).len() ==> #[trigger] items_from(acc, defs)[i].0
                == items_from(acc, defs)[i].1.id,
    decreases defs.len(),
{
    if defs.len() > 0 {
        let next = crate::game::table::table_insert(acc, defs[0].id@, item_from(defs[0]));
        crate::game::table::lemma_key_position_found(acc, defs[0].id@);
        let p = crate::game::table::key_position(acc, defs[0].id@);
        assert forall|i: int| 0 <= i < next.len() implies #[trigger] next[i].0 == next[i].1.id by {
            if p >= 0 {
                assert(next == acc.update(p, (defs[0].id@, item_from(defs[0]))));
                if i != p {
                    assert(next[i] == acc[i]);
                }
            } else {
                assert(next == acc.push((defs[0].id@, item_from(defs[0]))));
                if i < acc.len() {
                    assert(next[i] == acc[i]);
                }
            }
        }
        lemma_items_keyed(next, defs.drop_first());
        assert(items_from(acc, defs) == items_from(next, defs.drop_first()));
    }
}

/// A world built from a definition that passes validation keys every item by its own
/// identifier and places every item once.
pub proof fn law_valid_world_places_items_once(world: WorldDefinition)
    requires
        world_problem(world) is None,
    ensures
        world_from(world) is Ok,
        world_from(world) matches Ok(w) ==> items_keyed_by_id(w) && placements_unique(
            w.item_placements,
        ),
{
    law_valid_world_converts(world);
    let checks = world_checks(world);
    lemma_first_some_none(checks);
    assert(checks[17] is None);
    let rooms = world.rooms@;
    let outer = Seq::new(
        rooms.len(),
        |r: int| room_placement_problems(rooms, RoomList::Items, "Item"@, r),
    );
    lemma_first_some_none(outer);
    assert forall|r: int, k: int|
        0 <= r < rooms.len() && 0 <= k < room_list(rooms[r], RoomList::Items).len()
            implies #[trigger] placement_problem(rooms, RoomList::Items, "Item"@, r, k) is None by {
        assert(outer[r] is None);
        let inner = Seq::new(
            room_list(rooms[r], RoomList::Items).len(),
            |k: int| placement_problem(rooms, RoomList::Items, "Item"@, r, k),
        );
        lemma_first_some_none(inner);
        assert(inner[k] is None);
    }
    lemma_listed_once(rooms);
    lemma_placed_ids(rooms);
    lemma_distinct_ids_unique(placed_in_rooms(rooms));
    lemma_unplaced_unique(placed_in_rooms(rooms), world.items@);
    lemma_items_keyed(Seq::empty(), world.items@);
}

/// An item a room lists at index `k` has a placement in that room.
proof fn lemma_listed_item_placed(rooms: Seq<RoomDefinition>, r: int, k: int)
    requires
        0 <= r < rooms.len(),
        0 <= k < rooms[r].items@.len(),
    ensures
        exists|j: int|
            0 <= j < placed_in_rooms(rooms).len() && #[trigger] placed_in_rooms(rooms)[j]
                == (ItemPlacementView {
                item_id: rooms[r].items@[k]@,
                location: ItemLocationView::Room(rooms[r].id@),
            }),
    decreases rooms.len(),
{
    let front = placed_in_rooms(rooms.drop_last());
    if r == rooms.len() - 1 {
        let j = front.len() + k;
        assert(placed_in_rooms(rooms)[j] == room_placements(rooms.last())[k]);
    } else {
        assert(rooms.drop_last()[r] == rooms[r]);
        lemma_listed_item_placed(rooms.drop_last(), r, k);
        let j = choose|j: int|
            0 <= j < front.len() && #[trigger] front[j] == (ItemPlacementView {
                item_id: rooms[r].items@[k]@,
                location: ItemLocationView::Room(rooms[r].id@),
            });
        assert(placed_in_rooms(rooms)[j] == front[j]);
    }
}

/// Placing the unplaced items keeps the placements there were and places each declared item
/// that had none nowhere.
proof fn lemma_with_unplaced_places(placements: Seq<ItemPlacementView>, items: Seq<ItemDefinition>)
    ensures
        with_unplaced(placements, items).len() >= placements.len(),
        forall|j: int|
            0 <= j < placements.len() ==> #[trigger] with_unplaced(placements, items)[j]
                == placements[j],
        forall|i: int|
            0 <= i < items.len() && (forall|j: int|
                0 <= j < placements.len() ==> placements[j].item_id != #[trigger] items[i].id@)
                ==> exists|j: int|
                0 <= j < with_unplaced(placements, items).len() && #[trigger] with_unplaced(
                    placements,
                    items,
                )[j] == (ItemPlacementView {
                    item_id: items[i].id@,
                    location: ItemLocationView::Nowhere,
                }),
    decreases items.len(),
{
    if items.len() > 0 {
        let id = items[0].id@;
        lemma_placement_position(placements, id);
        let entry = ItemPlacementView { item_id: id, location: ItemLocationView::Nowhere };
        let next = if placement_position(placements, id) >= 0 {
            placements
        } else {
            placements.push(entry)
        };
        let rest = items.drop_first();
        lemma_with_unplaced_places(next, rest);
        let w = with_unplaced(placements, items);
        assert(w == with_unplaced(next, rest));
        assert forall|j: int| 0 <= j < placements.len() implies #[trigger] w[j] == placements[j] by {
            assert(w[j] == next[j]);
        }
        assert forall|i: int|
            0 <= i < items.len() && (forall|j: int|
                0 <= j < placements.len() ==> placements[j].item_id != #[trigger] items[i].id@)
                implies exists|j: int| 0 <= j < w.len() && #[trigger] w[j] == (ItemPlacementView {
                item_id: items[i].id@,
                location: ItemLocationView::Nowhere,
            }) by {
            if items[i].id@ == id {
                assert(placement_position(placements, id) < 0) by {
                    if placement_position(placements, id) >= 0 {
                        assert(placements[placement_position(placements, id)].item_id == id);
                    }
                }
                assert(w[placements.len() as int] == next[placements.len() as int]);
            } else {
                assert(i > 0);
                assert(rest[i - 1] == items[i]);
                assert forall|j: int| 0 <= j < next.len() implies next[j].item_id
                    != #[trigger] rest[i - 1].id@ by {
                    if j < placements.len() {
                        assert(next[j] == placements[j]);
                    }
                }
            }
        }
    }
}

/// In a world built from a definition that passes validation, an item that a room lists
/// starts in that room, and a declared item that no room lists starts nowhere.
pub proof fn law_valid_world_places_items_where_listed(world: WorldDefinition, id: Seq<char>)
    requires
        world_problem(world) is None,
    ensures
        world_from(world) is Ok,
        world_from(world) matches Ok(w) ==> forall|r: int|
            0 <= r < world.rooms@.len() && #[trigger] room_list(
                world.rooms@[r],
                RoomList::Items,
            ).contains(id) ==> location_of(w.item_placements, id) == Some(
                ItemLocationView::Room(world.rooms@[r].id@),
            ),
        world_from(world) matches Ok(w) ==> (exists|i: int|
            0 <= i < world.items@.len() && #[trigger] world.items@[i].id@ == id) && (forall|r: int|
            0 <= r < world.rooms@.len() ==> !#[trigger] room_list(
                world.rooms@[r],
                RoomList::Items,
            ).contains(id)) ==> location_of(w.item_placements, id) == Some(
            ItemLocationView::Nowhere,
        ),
{
    law_valid_world_places_items_once(world);
    let rooms = world.rooms@;
    let placed = placed_in_rooms(rooms);
    let all = with_unplaced(placed, world.items@);
    lemma_with_unplaced_places(placed, world.items@);
    lemma_placement_position(all, id);
    assert forall|r: int|
        0 <= r < rooms.len() && #[trigger] room_list(rooms[r], RoomList::Items).contains(id)
            implies location_of(all, id) == Some(ItemLocationView::Room(rooms[r].id@)) by {
        let k = choose|k: int| 0 <= k < room_list(rooms[r], RoomList::Items).len() && room_list(rooms[r], RoomList::Items)[k] == id;
        assert(room_list(rooms[r], RoomList::Items)[k] == rooms[r].items@[k]@);
        lemma_listed_item_placed(rooms, r, k);
        let j = choose|j: int|
            0 <= j < placed.len() && #[trigger] placed[j] == (ItemPlacementView {
                item_id: rooms[r].items@[k]@,
                location: ItemLocationView::Room(rooms[r].id@),
            });
        assert(all[j] == placed[j]);
        assert(placed_once(all, id));
    }
    if (exists|i: int| 0 <= i < world.items@.len() && #[trigger] world.items@[i].id@ == id) && (
    forall|r: int|
        0 <= r < rooms.len() ==> !#[trigger] room_list(rooms[r], RoomList::Items).contains(id)) {
        let i = choose|i: int| 0 <= i < world.items@.len() && #[trigger] world.items@[i].id@ == id;
        lemma_placed_ids(rooms);
        assert forall|j: int| 0 <= j < placed.len() implies placed[j].item_id
            != #[trigger] world.items@[i].id@ by {
            assert(placed_ids(placed)[j] == placed[j].item_id);
            if placed[j].item_id == id {
                assert(all_listed(rooms, RoomList::Items).contains(id));
                lemma_listed_in_some_room(rooms, id);
            }
        }
        let j = choose|j: int| 0 <= j < all.len() && #[trigger] all[j] == (ItemPlacementView {
            item_id: world.items@[i].id@,
            location: ItemLocationView::Nowhere,
        });
        assert(placed_once(all, id));
    }
}

/// What all rooms list, some room lists.
proof fn lemma_listed_in_some_room(rooms: Seq<RoomDefinition>, id: Seq<char>)
    requires
        all_listed(rooms, RoomList::Items).contains(id),
    ensures
        exists|r: int| 0 <= r < rooms.len() && #[trigger] room_list(rooms[r], RoomList::Items).contains(id),
    decreases rooms.len(),
{
    let front = all_listed(rooms.drop_last(), RoomList::Items);
    let last = room_list(rooms.last(), RoomList::Items);
    let k = choose|k: int| 0 <= k < all_listed(rooms, RoomList::Items).len() && all_listed(rooms, RoomList::Items)[k] == id;
    if k < front.len() {
        assert(front[k] == id);
        lemma_listed_in_some_room(rooms.drop_last(), id);
        let r = choose|r: int| 0 <= r < rooms.drop_last().len() && #[trigger] room_list(rooms.drop_last()[r], RoomList::Items).contains(id);
        assert(rooms.drop_last()[r] == rooms[r]);
        assert(room_list(rooms[r], RoomList::Items).contains(id));
    } else {
        assert(last[k - front.len()] == id);
        assert(room_list(rooms[rooms.len() - 1], RoomList::Items).contains(id));
    }
}

/// Whether following next steps from the quest's starting step goes through every step of
/// the quest exactly once and ends at a step with no next step.
pub open spec fn quest_chain_complete(quest: QuestDefinition) -> bool {
    exists|r: Seq<Seq<char>>|
        #[trigger] is_chain(quest.steps@, r) && r.no_duplicates() && r.len() > 0 && r[0]
            == quest.starting_step@ && forall|k: int|
            0 <= k < quest.steps@.len() ==> r.contains(#[trigger] quest.steps@[k].id@)
}

/// Whether the `i`-th quest has a well-formed identifier that no earlier quest uses, a name,
/// a description and a well-formed starting step that is one of its steps, and its chain of
/// steps is complete.
pub open spec fn quest_well_formed(world: WorldDefinition, i: int) -> bool {
    let quest = world.quests@[i];
    &&& !blank(quest.id@) && valid_id(quest.id@)
    &&& forall|e: int| 0 <= e < i ==> #[trigger] world.quests@[e].id@ != quest.id@
    &&& !blank(quest.name@) && !blank(quest.description@)
    &&& valid_id(quest.starting_step@)
    &&& step_ids_of(quest.steps@).contains(quest.starting_step@)
    &&& quest_chain_complete(quest)
}

/// Whether the `j`-th step of the `i`-th quest has a well-formed identifier that no earlier
/// step of the quest uses and a description, whether a room it asks to reach is a room of the
/// world, and whether a next step it names is a step of the quest.
pub open spec fn step_well_formed(world: WorldDefinition, i: int, j: int) -> bool {
    let quest = world.quests@[i];
    let step = quest.steps@[j];
    &&& !blank(step.id@) && valid_id(step.id@)
    &&& forall|e: int| 0 <= e < j ==> #[trigger] quest.steps@[e].id@ != step.id@
    &&& !blank(step.description@)
    &&& (step.objective matches QuestObjectiveDefinition::ReachRoom { room } ==> room_ids_of(
        world.rooms@,
    ).contains(room@))
    &&& (step.next_step matches Some(next) ==> step_ids_of(quest.steps@).contains(next@))
}

/// Whether every quest and every step of a world is well formed.
pub open spec fn quests_well_formed(world: WorldDefinition) -> bool {
    &&& forall|i: int| 0 <= i < world.quests@.len() ==> #[trigger] quest_well_formed(world, i)
    &&& forall|i: int, j: int|
        0 <= i < world.quests@.len() && 0 <= j < world.quests@[i].steps@.len()
            ==> #[trigger] step_well_formed(world, i, j)
}

/// The checks of a quest that passes validation, quest by quest.
proof fn lemma_valid_quest(world: WorldDefinition, i: int)
    requires
        super::validation::quest_problems(world) is None,
        0 <= i < world.quests@.len(),
    ensures
        quest_well_formed(world, i),
        forall|j: int| 0 <= j < world.quests@[i].steps@.len() ==> #[trigger] step_well_formed(world, i, j),
{
    let quest = world.quests@[i];
    let problems = Seq::new(world.quests@.len(), |k: int| super::validation::quest_problem(world, k));
    lemma_first_some_none(problems);
    assert(problems[i] is None);
    let steps = Seq::new(quest.steps@.len(), |k: int| step_problem(world.rooms@, quest, k));
    lemma_first_some_none(steps);
    let nexts = Seq::new(quest.steps@.len(), |k: int| next_reference_problem(quest, k));
    lemma_first_some_none(nexts);
    assert forall|e: int| 0 <= e < i implies #[trigger] world.quests@[e].id@ != quest.id@ by {
        assert(quest_ids_of(world.quests@).take(i)[e] == world.quests@[e].id@);
    }
    assert forall|j: int| 0 <= j < quest.steps@.len() implies #[trigger] step_well_formed(world, i, j) by {
        assert(steps[j] is None);
        assert(nexts[j] is None);
        assert forall|e: int| 0 <= e < j implies #[trigger] quest.steps@[e].id@ != quest.steps@[j].id@ by {
            assert(step_ids_of(quest.steps@).take(j)[e] == quest.steps@[e].id@);
        }
    }
    lemma_valid_quest_chain(world, i);
}

/// When the quests of a world pass validation (`validate_quests` returns `Ok`), every quest
/// has a well-formed identifier that no earlier quest uses, a name, a description, and a
/// starting step that is one of its steps, from which following next steps goes through
/// every step exactly once and ends; each step has a well-formed identifier that no earlier
/// step of the quest uses and a description, a room it asks to reach is a room of the world,
/// and a next step it names is a step of the quest.
pub proof fn law_valid_quests_are_well_formed(world: WorldDefinition)
    requires
        super::validation::quest_problems(world) is None,
    ensures
        quests_well_formed(world),
{
    assert forall|i: int| 0 <= i < world.quests@.len() implies #[trigger] quest_well_formed(world, i) by {
        lemma_valid_quest(world, i);
    }
    assert forall|i: int, j: int|
        0 <= i < world.quests@.len() && 0 <= j < world.quests@[i].steps@.len()
            implies #[trigger] step_well_formed(world, i, j) by {
        lemma_valid_quest(world, i);
    }
}

proof fn lemma_valid_quest_chain(world: WorldDefinition, i: int)
    requires
        super::validation::quest_problems(world) is None,
        0 <= i < world.quests@.len(),
    ensures
        quest_chain_complete(world.quests@[i]),
{
    let quest = world.quests@[i];
    let defs = quest.steps@;
    let problems = Seq::new(world.quests@.len(), |k: int| super::validation::quest_problem(world, k));
    lemma_first_some_none(problems);
    assert(problems[i] is None);
    let nexts = Seq::new(defs.len(), |k: int| next_reference_problem(quest, k));
    lemma_first_some_none(nexts);
    assert forall|j: int| 0 <= j < defs.len() implies (#[trigger] defs[j].next_step matches Some(n)
        ==> step_ids_of(defs).contains(n@)) by {
        assert(nexts[j] is None);
    }
    let start = quest.starting_step@;
    let fuel = (defs.len() + 1) as nat;
    let walked = walk(defs, Some(start), Seq::empty(), fuel);
    assert(walked is Ok);
    lemma_walk_chain(defs, Some(start), Seq::empty(), fuel);
    let r = walked->Ok_0;
    let unreached = Seq::new(
        defs.len(),
        |j: int|
            if r.contains(defs[j].id@) {
                None
            } else {
                Some(
                    "Step '"@ + defs[j].id@ + "' on quest '"@ + quest.id@
                        + "' is unreachable from the starting step"@,
                )
            },
    );
    lemma_first_some_none(unreached);
    assert forall|k: int| 0 <= k < defs.len() implies r.contains(#[trigger] defs[k].id@) by {
        assert(unreached[k] is None);
    }
    assert(is_chain(defs, r));
}

/// Whether every identifier is non-blank and made only of characters an identifier may have.
pub open spec fn ids_well_formed(ids: Seq<Seq<char>>) -> bool {
    forall|i: int| 0 <= i < ids.len() ==> !blank(#[trigger] ids[i]) && valid_id(ids[i])
}

/// Whether no two of the identifiers are the same.
pub open spec fn ids_distinct(ids: Seq<Seq<char>>) -> bool {
    forall|a: int, b: int| 0 <= a < b < ids.len() ==> #[trigger] ids[a] != #[trigger] ids[b]
}

/// Whether what the rooms list of one kind are all declared identifiers.
pub open spec fn listed_declared(rooms: Seq<RoomDefinition>, which: RoomList, declared: Seq<Seq<char>>) -> bool {
    forall|r: int, k: int|
        0 <= r < rooms.len() && 0 <= k < room_list(rooms[r], which).len() ==> declared.contains(
            #[trigger] room_list(rooms[r], which)[k],
        )
}

/// Whether every exit of every room has one of the four direction words and leads to a room
/// of the world.
pub open spec fn exits_well_formed(rooms: Seq<RoomDefinition>) -> bool {
    forall|r: int, k: int|
        0 <= r < rooms.len() && 0 <= k < rooms[r].exits@.len() ==> super::validation::direction_word_text(
            #[trigger] rooms[r].exits@[k].0@,
        ) && room_ids_of(rooms).contains(super::definition::exit_destination(rooms[r].exits@[k].1))
}

/// What a world definition that passes validation is: its identifier and the identifiers of
/// its items, features, characters, facts and rooms are well formed, and within each kind no
/// two are the same; what the rooms list are declared items, features and characters, each
/// item listed by one room at most; every exit has a direction word and leads to a room; the
/// starting room is a room; and its quests are well formed.
pub open spec fn world_well_formed(world: WorldDefinition) -> bool {
    let rooms = world.rooms@;
    &&& !blank(world.id@) && valid_id(world.id@)
    &&& ids_well_formed(super::validation::item_ids_of(world.items@)) && ids_distinct(super::validation::item_ids_of(world.items@))
    &&& ids_well_formed(super::validation::feature_ids_of(world.features@)) && ids_distinct(
        super::validation::feature_ids_of(world.features@),
    )
    &&& ids_well_formed(super::validation::npc_ids_of(world.npcs@)) && ids_distinct(super::validation::npc_ids_of(world.npcs@))
    &&& ids_well_formed(super::validation::fact_ids_of(world.facts@)) && ids_distinct(super::validation::fact_ids_of(world.facts@))
    &&& ids_well_formed(room_ids_of(rooms)) && ids_distinct(room_ids_of(rooms))
    &&& listed_declared(rooms, RoomList::Items, super::validation::item_ids_of(world.items@))
    &&& listed_declared(rooms, RoomList::Features, super::validation::feature_ids_of(world.features@))
    &&& listed_declared(rooms, RoomList::Npcs, super::validation::npc_ids_of(world.npcs@))
    &&& all_listed(rooms, RoomList::Items).no_duplicates()
    &&& exits_well_formed(rooms)
    &&& room_ids_of(rooms).contains(world.starting_room@)
    &&& quests_well_formed(world)
    &&& topics_refer_to_declared(world)
    &&& topics_well_formed(world)
}

/// Whether the `t`-th topic of the `i`-th character has a well-formed identifier and a name
/// that normalizes to something, and shares neither with an earlier topic of the character.
pub open spec fn topic_well_formed(world: WorldDefinition, i: int, t: int) -> bool {
    let topics = world.npcs@[i].topics@;
    &&& !blank(topics[t].id@) && valid_id(topics[t].id@)
    &&& crate::game::naming::normalized_name(topics[t].name@).len() > 0
    &&& forall|e: int|
        0 <= e < t ==> #[trigger] topics[e].id@ != topics[t].id@
            && crate::game::naming::normalized_name(topics[e].name@)
            != crate::game::naming::normalized_name(topics[t].name@)
}

/// Whether each topic of each character has a well-formed identifier and a name that
/// normalizes to something, and no two topics of one character share an identifier or a
/// normalized name.
pub open spec fn topics_well_formed(world: WorldDefinition) -> bool {
    forall|i: int, t: int|
        0 <= i < world.npcs@.len() && 0 <= t < world.npcs@[i].topics@.len() ==> #[trigger] topic_well_formed(world, i, t)
}

/// Whether every topic of every character refers only to what the world declares: each fact
/// it requires, excludes or grants is a declared fact, no fact is both required and excluded,
/// and each quest it starts is a declared quest.
pub open spec fn topics_refer_to_declared(world: WorldDefinition) -> bool {
    forall|i: int, t: int|
        0 <= i < world.npcs@.len() && 0 <= t < world.npcs@[i].topics@.len()
            ==> #[trigger] topic_refers_to_declared(world, world.npcs@[i].topics@[t])
}

/// Whether one topic refers only to what the world declares.
pub open spec fn topic_refers_to_declared(world: WorldDefinition, topic: super::definition::NpcTopicDefinition) -> bool {
    let facts = super::validation::fact_ids_of(world.facts@);
    let quests = quest_ids_of(world.quests@);
    &&& forall|k: int| 0 <= k < topic.requires_facts@.len() ==> facts.contains(#[trigger] topic.requires_facts@[k]@)
    &&& forall|k: int| 0 <= k < topic.excludes_facts@.len() ==> facts.contains(#[trigger] topic.excludes_facts@[k]@)
    &&& forall|k: int| 0 <= k < topic.grants_facts@.len() ==> facts.contains(#[trigger] topic.grants_facts@[k]@)
    &&& forall|k: int| 0 <= k < topic.starts_quests@.len() ==> quests.contains(#[trigger] topic.starts_quests@[k]@)
    &&& forall|k: int, m: int|
        0 <= k < topic.excludes_facts@.len() && 0 <= m < topic.requires_facts@.len()
            ==> #[trigger] topic.excludes_facts@[k]@ != #[trigger] topic.requires_facts@[m]@
}

/// Checked identifiers are well formed.
proof fn lemma_ids_checked(ids: Seq<Seq<char>>, names: Seq<Seq<char>>, kind: Seq<char>, lower: Seq<char>)
    requires
        super::validation::id_problems(ids, names, kind, lower) is None,
    ensures
        ids_well_formed(ids),
{
    let p = Seq::new(ids.len(), |i: int| super::validation::id_problem(ids[i], names[i], kind, lower));
    lemma_first_some_none(p);
    assert forall|i: int| 0 <= i < ids.len() implies !blank(#[trigger] ids[i]) && valid_id(ids[i]) by {
        assert(p[i] is None);
    }
}

/// Identifiers checked for duplicates are distinct.
proof fn lemma_ids_unique(ids: Seq<Seq<char>>, names: Seq<Seq<char>>, kind: Seq<char>)
    requires
        super::validation::duplicate_problems(ids, names, kind) is None,
    ensures
        ids_distinct(ids),
{
    let p = Seq::new(
        ids.len(),
        |i: int|
            if ids.take(i).contains(ids[i]) {
                Some("The "@ + kind + " named "@ + names[i] + " has the duplicate id: "@ + ids[i])
            } else {
                None
            },
    );
    lemma_first_some_none(p);
    assert forall|a: int, b: int| 0 <= a < b < ids.len() implies #[trigger] ids[a] != #[trigger] ids[b] by {
        assert(p[b] is None);
        assert(ids.take(b)[a] == ids[a]);
    }
}

/// Checked room lists name declared identifiers.
proof fn lemma_listed_checked(
    rooms: Seq<RoomDefinition>,
    which: RoomList,
    declared: Seq<Seq<char>>,
    kind: Seq<char>,
)
    requires
        super::validation::reference_problems(rooms, which, declared, kind) is None,
    ensures
        listed_declared(rooms, which, declared),
{
    let outer = Seq::new(rooms.len(), |r: int| super::validation::room_reference_problems(rooms, which, declared, kind, r));
    lemma_first_some_none(outer);
    assert forall|r: int, k: int|
        0 <= r < rooms.len() && 0 <= k < room_list(rooms[r], which).len() implies declared.contains(
            #[trigger] room_list(rooms[r], which)[k],
        ) by {
        assert(outer[r] is None);
        let inner = Seq::new(
            room_list(rooms[r], which).len(),
            |k: int| super::validation::reference_problem(rooms, which, declared, kind, r, k),
        );
        lemma_first_some_none(inner);
        assert(inner[k] is None);
    }
}

/// Checked exits have direction words and lead to rooms.
proof fn lemma_exits_checked(rooms: Seq<RoomDefinition>)
    requires
        exit_direction_problems(rooms) is None,
        super::validation::exit_destination_problems(rooms) is None,
    ensures
        exits_well_formed(rooms),
{
    let o1 = Seq::new(
        rooms.len(),
        |r: int| first_some(Seq::new(rooms[r].exits@.len(), |k: int| exit_direction_problem(rooms, r, k))),
    );
    let o2 = Seq::new(
        rooms.len(),
        |r: int|
            first_some(
                Seq::new(rooms[r].exits@.len(), |k: int| super::validation::exit_destination_problem(rooms, r, k)),
            ),
    );
    lemma_first_some_none(o1);
    lemma_first_some_none(o2);
    assert forall|r: int, k: int| 0 <= r < rooms.len() && 0 <= k < rooms[r].exits@.len() implies super::validation::direction_word_text(
        #[trigger] rooms[r].exits@[k].0@,
    ) && room_ids_of(rooms).contains(super::definition::exit_destination(rooms[r].exits@[k].1)) by {
        assert(o1[r] is None);
        assert(o2[r] is None);
        let i1 = Seq::new(rooms[r].exits@.len(), |k: int| exit_direction_problem(rooms, r, k));
        let i2 = Seq::new(rooms[r].exits@.len(), |k: int| super::validation::exit_destination_problem(rooms, r, k));
        lemma_first_some_none(i1);
        lemma_first_some_none(i2);
        assert(i1[k] is None);
        assert(i2[k] is None);
    }
}

/// A checked list names only declared identifiers, none of them conflicting.
proof fn lemma_list_checked(
    list: Seq<Seq<char>>,
    declared: Seq<Seq<char>>,
    conflicting: Seq<Seq<char>>,
    head: Seq<char>,
    verb: Seq<char>,
    noun: Seq<char>,
)
    requires
        super::validation::list_problems(list, declared, conflicting, head, verb, noun) is None,
    ensures
        forall|k: int| 0 <= k < list.len() ==> declared.contains(#[trigger] list[k]) && !conflicting.contains(list[k]),
{
    let p = Seq::new(list.len(), |k: int| super::validation::list_problem(list, declared, conflicting, head, verb, noun, k));
    lemma_first_some_none(p);
    assert forall|k: int| 0 <= k < list.len() implies declared.contains(#[trigger] list[k]) && !conflicting.contains(list[k]) by {
        assert(p[k] is None);
    }
}

/// Checked topic references, NPC by NPC and topic by topic, find no problem with any topic.
proof fn lemma_topic_references_checked(
    which: super::validation::TopicReferences,
    declared: Seq<Seq<char>>,
    npcs: Seq<super::definition::NpcDefinition>,
    i: int,
    t: int,
)
    requires
        super::validation::topic_reference_problems(which, declared, npcs) is None,
        0 <= i < npcs.len(),
        0 <= t < npcs[i].topics@.len(),
    ensures
        super::validation::topic_reference_problem(which, declared, npcs[i], npcs[i].topics@[t]) is None,
{
    let outer = Seq::new(
        npcs.len(),
        |i: int|
            first_some(
                Seq::new(
                    npcs[i].topics@.len(),
                    |t: int| super::validation::topic_reference_problem(which, declared, npcs[i], npcs[i].topics@[t]),
                ),
            ),
    );
    lemma_first_some_none(outer);
    assert(outer[i] is None);
    let inner = Seq::new(
        npcs[i].topics@.len(),
        |t: int| super::validation::topic_reference_problem(which, declared, npcs[i], npcs[i].topics@[t]),
    );
    lemma_first_some_none(inner);
    assert(inner[t] is None);
}

/// Where the world's topic references pass their checks, every topic refers only to what the
/// world declares.
proof fn lemma_topics_checked(world: WorldDefinition)
    requires
        super::validation::topic_reference_problems(super::validation::TopicReferences::Facts, super::validation::fact_ids_of(world.facts@), world.npcs@) is None,
        super::validation::topic_reference_problems(super::validation::TopicReferences::Quests, quest_ids_of(world.quests@), world.npcs@) is None,
    ensures
        topics_refer_to_declared(world),
{
    let facts = super::validation::fact_ids_of(world.facts@);
    let quests = quest_ids_of(world.quests@);
    assert forall|i: int, t: int|
        0 <= i < world.npcs@.len() && 0 <= t < world.npcs@[i].topics@.len()
            implies #[trigger] topic_refers_to_declared(world, world.npcs@[i].topics@[t]) by {
        let npc = world.npcs@[i];
        let topic = npc.topics@[t];
        lemma_topic_references_checked(super::validation::TopicReferences::Facts, facts, world.npcs@, i, t);
        lemma_topic_references_checked(super::validation::TopicReferences::Quests, quests, world.npcs@, i, t);
        let head = super::validation::topic_head(npc, topic);
        let none = Seq::<Seq<char>>::empty();
        let req = text_views(topic.requires_facts@);
        let exc = text_views(topic.excludes_facts@);
        let gra = text_views(topic.grants_facts@);
        let sta = text_views(topic.starts_quests@);
        lemma_list_checked(req, facts, none, head, " requires"@, "fact"@);
        lemma_list_checked(exc, facts, req, head, " excludes"@, "fact"@);
        lemma_list_checked(gra, facts, none, head, " grants"@, "fact"@);
        lemma_list_checked(sta, quests, none, head, " starts"@, "quest"@);
        assert forall|k: int| 0 <= k < topic.requires_facts@.len() implies facts.contains(#[trigger] topic.requires_facts@[k]@) by {
            assert(req[k] == topic.requires_facts@[k]@);
        }
        assert forall|k: int| 0 <= k < topic.excludes_facts@.len() implies facts.contains(#[trigger] topic.excludes_facts@[k]@) by {
            assert(exc[k] == topic.excludes_facts@[k]@);
        }
        assert forall|k: int| 0 <= k < topic.grants_facts@.len() implies facts.contains(#[trigger] topic.grants_facts@[k]@) by {
            assert(gra[k] == topic.grants_facts@[k]@);
        }
        assert forall|k: int| 0 <= k < topic.starts_quests@.len() implies quests.contains(#[trigger] topic.starts_quests@[k]@) by {
            assert(sta[k] == topic.starts_quests@[k]@);
        }
        assert forall|k: int, m: int|
            0 <= k < topic.excludes_facts@.len() && 0 <= m < topic.requires_facts@.len()
                implies #[trigger] topic.excludes_facts@[k]@ != #[trigger] topic.requires_facts@[m]@ by {
            assert(exc[k] == topic.excludes_facts@[k]@);
            assert(req[m] == topic.requires_facts@[m]@);
            assert(!req.contains(exc[k]));
        }
    }
}

/// When a world definition passes validation (`validate_world` returns `Ok`), it is well
/// formed in every way [`world_well_formed`] lists.
pub proof fn law_valid_world_is_well_formed(world: WorldDefinition)
    requires
        world_problem(world) is None,
    ensures
        world_well_formed(world),
{
    let checks = world_checks(world);
    lemma_first_some_none(checks);
    let rooms = world.rooms@;
    assert(checks[0] is None);
    assert(checks[1] is None);
    lemma_ids_checked(super::validation::item_ids_of(world.items@), super::validation::item_names_of(world.items@), "Item"@, "item"@);
    assert(checks[2] is None);
    lemma_ids_unique(super::validation::item_ids_of(world.items@), super::validation::item_names_of(world.items@), "item"@);
    assert(checks[3] is None);
    lemma_ids_checked(
        super::validation::feature_ids_of(world.features@),
        super::validation::feature_names_of(world.features@),
        "Feature"@,
        "feature"@,
    );
    assert(checks[4] is None);
    lemma_ids_unique(super::validation::feature_ids_of(world.features@), super::validation::feature_names_of(world.features@), "feature"@);
    assert(checks[5] is None);
    lemma_listed_checked(rooms, RoomList::Features, super::validation::feature_ids_of(world.features@), "feature"@);
    assert(checks[7] is None);
    lemma_ids_checked(super::validation::npc_ids_of(world.npcs@), super::validation::npc_names_of(world.npcs@), "NPC"@, "NPC"@);
    assert(checks[8] is None);
    lemma_ids_unique(super::validation::npc_ids_of(world.npcs@), super::validation::npc_names_of(world.npcs@), "NPC"@);
    assert(checks[10] is None);
    let facts = world.facts@;
    let fp = Seq::new(facts.len(), |i: int| super::validation::fact_problem(facts, i));
    lemma_first_some_none(fp);
    assert forall|i: int| 0 <= i < facts.len() implies !blank(#[trigger] super::validation::fact_ids_of(facts)[i])
        && valid_id(super::validation::fact_ids_of(facts)[i]) by {
        assert(fp[i] is None);
    }
    assert forall|a: int, b: int| 0 <= a < b < facts.len() implies #[trigger] super::validation::fact_ids_of(facts)[a]
        != #[trigger] super::validation::fact_ids_of(facts)[b] by {
        assert(fp[b] is None);
        assert(super::validation::fact_ids_of(facts).take(b)[a] == super::validation::fact_ids_of(facts)[a]);
    }
    assert(checks[11] is None);
    law_valid_quests_are_well_formed(world);
    assert(checks[12] is None);
    assert(checks[13] is None);
    lemma_topics_checked(world);
    assert(checks[9] is None);
    let np = Seq::new(world.npcs@.len(), |i: int| super::validation::npc_topic_problems(world.npcs@[i]));
    lemma_first_some_none(np);
    assert forall|i: int, t: int|
        0 <= i < world.npcs@.len() && 0 <= t < world.npcs@[i].topics@.len() implies #[trigger] topic_well_formed(world, i, t) by {
        let npc = world.npcs@[i];
        assert(np[i] is None);
        let tp = Seq::new(npc.topics@.len(), |t: int| super::validation::topic_problem(npc, t));
        lemma_first_some_none(tp);
        assert(tp[t] is None);
        assert forall|e: int| 0 <= e < t implies npc.topics@[e].id@ != npc.topics@[t].id@
            && crate::game::naming::normalized_name(npc.topics@[e].name@)
            != crate::game::naming::normalized_name(npc.topics@[t].name@) by {
            assert(super::validation::topic_ids_of(npc.topics@).take(t)[e] == npc.topics@[e].id@);
            assert(super::validation::topic_names_of(npc.topics@).take(t)[e] == crate::game::naming::normalized_name(
                npc.topics@[e].name@,
            ));
        }
    }
    assert(checks[14] is None);
    lemma_listed_checked(rooms, RoomList::Npcs, super::validation::npc_ids_of(world.npcs@), "NPC"@);
    assert(checks[16] is None);
    lemma_listed_checked(rooms, RoomList::Items, super::validation::item_ids_of(world.items@), "item"@);
    assert(checks[18] is None);
    assert(checks[19] is None);
    let bp = Seq::new(
        rooms.len(),
        |i: int|
            if blank(rooms[i].id@) {
                Some("Room '"@ + rooms[i].name@ + "' has no id"@)
            } else {
                None
            },
    );
    let vp = Seq::new(
        rooms.len(),
        |i: int|
            if !valid_id(rooms[i].id@) {
                Some("Id for room '"@ + rooms[i].name@ + "' has invalid characters: "@ + rooms[i].id@)
            } else {
                None
            },
    );
    lemma_first_some_none(bp);
    lemma_first_some_none(vp);
    assert forall|i: int| 0 <= i < rooms.len() implies !blank(#[trigger] room_ids_of(rooms)[i])
        && valid_id(room_ids_of(rooms)[i]) by {
        assert(bp[i] is None);
        assert(vp[i] is None);
    }
    assert(checks[20] is None);
    lemma_ids_unique(room_ids_of(rooms), super::validation::room_names_of(rooms), "room"@);
    assert(checks[21] is None);
    assert(checks[22] is None);
    lemma_exits_checked(rooms);
    assert(checks[23] is None);
    law_valid_world_places_items_once(world);
    assert(checks[17] is None);
    let outer = Seq::new(
        rooms.len(),
        |r: int| room_placement_problems(rooms, RoomList::Items, "Item"@, r),
    );
    lemma_first_some_none(outer);
    assert forall|r: int, k: int|
        0 <= r < rooms.len() && 0 <= k < room_list(rooms[r], RoomList::Items).len()
            implies #[trigger] placement_problem(rooms, RoomList::Items, "Item"@, r, k) is None by {
        assert(outer[r] is None);
        let inner = Seq::new(
            room_list(rooms[r], RoomList::Items).len(),
            |k: int| placement_problem(rooms, RoomList::Items, "Item"@, r, k),
        );
        lemma_first_some_none(inner);
        assert(inner[k] is None);
    }
    lemma_listed_once(rooms);
}

/// A key that was in the table, or that one of the definitions has, is a key of the table the
/// items are added to.
proof fn lemma_items_have_keys(acc: Seq<(Seq<char>, ItemView)>, defs: Seq<ItemDefinition>, x: Seq<char>)
    requires
        crate::game::table::has_key(acc, x) || super::validation::item_ids_of(defs).contains(x),
    ensures
        crate::game::table::has_key(items_from(acc, defs), x),
    decreases defs.len(),
{
    if defs.len() > 0 {
        let id = defs[0].id@;
        let next = crate::game::table::table_insert(acc, id, item_from(defs[0]));
        crate::game::laws::law_table_read_after_write(acc, id, item_from(defs[0]), x);
        if !super::validation::item_ids_of(defs.drop_first()).contains(x) && x != id {
            let k = choose|k: int| 0 <= k < super::validation::item_ids_of(defs).len() && super::validation::item_ids_of(defs)[k] == x;
            if !crate::game::table::has_key(acc, x) {
                assert(k > 0);
                assert(super::validation::item_ids_of(defs.drop_first())[k - 1] == x);
            }
        }
        lemma_items_have_keys(next, defs.drop_first(), x);
    }
}

/// Placing the unplaced items adds only placements of declared items.
proof fn lemma_unplaced_from_items(placements: Seq<ItemPlacementView>, items: Seq<ItemDefinition>, j: int)
    requires
        0 <= j < with_unplaced(placements, items).len(),
    ensures
        j < placements.len() || super::validation::item_ids_of(items).contains(with_unplaced(placements, items)[j].item_id),
    decreases items.len(),
{
    lemma_with_unplaced_places(placements, items);
    if items.len() > 0 && j >= placements.len() {
        let id = items[0].id@;
        let next = if placement_position(placements, id) >= 0 {
            placements
        } else {
            placements.push(ItemPlacementView { item_id: id, location: ItemLocationView::Nowhere })
        };
        lemma_unplaced_from_items(next, items.drop_first(), j);
        lemma_with_unplaced_places(next, items.drop_first());
        if j < next.len() {
            assert(with_unplaced(placements, items)[j] == next[j]);
            assert(super::validation::item_ids_of(items)[0] == id);
        } else {
            let x = with_unplaced(placements, items)[j].item_id;
            let k = choose|k: int| 0 <= k < super::validation::item_ids_of(items.drop_first()).len() && super::validation::item_ids_of(items.drop_first())[k] == x;
            assert(super::validation::item_ids_of(items)[k + 1] == x);
        }
    }
}

/// In a world built from a definition that passes validation, every placement is of an item
/// of the world.
pub proof fn law_valid_world_places_only_its_items(world: WorldDefinition)
    requires
        world_problem(world) is None,
    ensures
        world_from(world) matches Ok(w) ==> forall|j: int|
            0 <= j < w.item_placements.len() ==> crate::game::table::has_key(
                w.items,
                #[trigger] w.item_placements[j].item_id,
            ),
{
    law_valid_world_is_well_formed(world);
    law_valid_world_converts(world);
    let rooms = world.rooms@;
    let placed = placed_in_rooms(rooms);
    let all = with_unplaced(placed, world.items@);
    lemma_with_unplaced_places(placed, world.items@);
    lemma_placed_ids(rooms);
    assert forall|j: int| 0 <= j < all.len() implies crate::game::table::has_key(
        items_from(Seq::empty(), world.items@),
        #[trigger] all[j].item_id,
    ) by {
        lemma_unplaced_from_items(placed, world.items@, j);
        let x = all[j].item_id;
        if j < placed.len() {
            assert(all[j] == placed[j]);
            assert(placed_ids(placed)[j] == x);
            assert(all_listed(rooms, RoomList::Items).contains(x));
            lemma_listed_in_some_room(rooms, x);
            let r = choose|r: int| 0 <= r < rooms.len() && #[trigger] room_list(rooms[r], RoomList::Items).contains(x);
            let k = choose|k: int| 0 <= k < room_list(rooms[r], RoomList::Items).len() && room_list(rooms[r], RoomList::Items)[k] == x;
            assert(super::validation::item_ids_of(world.items@).contains(room_list(rooms[r], RoomList::Items)[k]));
        }
        lemma_items_have_keys(Seq::empty(), world.items@, x);
    }
}

/// Adding characters none of which has the identifier `x` leaves what `x` finds alone.
proof fn lemma_npcs_other(
    acc: Seq<(Seq<char>, crate::game::npc::NpcView)>,
    defs: Seq<super::definition::NpcDefinition>,
    x: Seq<char>,
)
    requires
        forall|k: int| 0 <= k < defs.len() ==> #[trigger] defs[k].id@ != x,
    ensures
        crate::game::table::lookup(super::conversion::npcs_from(acc, defs), x) == crate::game::table::lookup(acc, x),
    decreases defs.len(),
{
    if defs.len() > 0 {
        assert(defs[0].id@ != x);
        crate::game::laws::law_table_read_after_write(acc, defs[0].id@, super::conversion::npc_from(defs[0]), x);
        let d = defs.drop_first();
        assert forall|k: int| 0 <= k < d.len() implies #[trigger] d[k].id@ != x by {
            assert(d[k] == defs[k + 1]);
        }
        lemma_npcs_other(
            crate::game::table::table_insert(acc, defs[0].id@, super::conversion::npc_from(defs[0])),
            d,
            x,
        );
    }
}

/// With distinct identifiers, each character definition is found by its identifier.
proof fn lemma_npcs_found(
    acc: Seq<(Seq<char>, crate::game::npc::NpcView)>,
    defs: Seq<super::definition::NpcDefinition>,
    i: int,
)
    requires
        0 <= i < defs.len(),
        ids_distinct(super::validation::npc_ids_of(defs)),
    ensures
        crate::game::table::lookup(super::conversion::npcs_from(acc, defs), defs[i].id@) == Some(
            super::conversion::npc_from(defs[i]),
        ),
    decreases defs.len(),
{
    let ids = super::validation::npc_ids_of(defs);
    let d = defs.drop_first();
    let next = crate::game::table::table_insert(acc, defs[0].id@, super::conversion::npc_from(defs[0]));
    if i == 0 {
        crate::game::laws::law_table_read_after_write(acc, defs[0].id@, super::conversion::npc_from(defs[0]), defs[0].id@);
        assert forall|k: int| 0 <= k < d.len() implies #[trigger] d[k].id@ != defs[0].id@ by {
            assert(d[k] == defs[k + 1]);
            assert(ids[0] != ids[k + 1]);
        }
        lemma_npcs_other(next, d, defs[0].id@);
    } else {
        assert forall|a: int, b: int| 0 <= a < b < d.len() implies #[trigger] super::validation::npc_ids_of(d)[a]
            != #[trigger] super::validation::npc_ids_of(d)[b] by {
            assert(ids[a + 1] != ids[b + 1]);
        }
        assert(d[i - 1] == defs[i]);
        lemma_npcs_found(next, d, i - 1);
    }
}

/// In a world built from a definition whose characters have distinct identifiers, each
/// character is found by its identifier, and each of its topics, in order, has the topic
/// definition's identifier, name and response; the facts it requires are the definition's
/// required facts, the facts it excludes the definition's excluded facts, the facts it grants
/// the definition's granted facts, and the quests it starts the definition's started quests,
/// each in the order written.
pub proof fn law_converted_topics_keep_their_fact_lists(
    world: WorldDefinition,
    i: int,
    t: int,
)
    requires
        ids_distinct(super::validation::npc_ids_of(world.npcs@)),
        0 <= i < world.npcs@.len(),
        0 <= t < world.npcs@[i].topics@.len(),
    ensures
        world_from(world) matches Ok(w) ==> {
            let def = world.npcs@[i].topics@[t];
            &&& crate::game::table::lookup(w.npcs, world.npcs@[i].id@) is Some
            &&& {
                let npc = crate::game::table::lookup(w.npcs, world.npcs@[i].id@)->0;
                let topic = npc.topics[t];
                &&& npc.topics.len() == world.npcs@[i].topics@.len()
                &&& topic.id == def.id@ && topic.name == def.name@ && topic.response
                    == def.response@
                &&& topic.requires_facts.len() == def.requires_facts@.len()
                &&& forall|k: int|
                    0 <= k < def.requires_facts@.len() ==> #[trigger] topic.requires_facts[k]
                        == def.requires_facts@[k]@
                &&& topic.excludes_facts.len() == def.excludes_facts@.len()
                &&& forall|k: int|
                    0 <= k < def.excludes_facts@.len() ==> #[trigger] topic.excludes_facts[k]
                        == def.excludes_facts@[k]@
                &&& topic.grants_facts.len() == def.grants_facts@.len()
                &&& forall|k: int|
                    0 <= k < def.grants_facts@.len() ==> #[trigger] topic.grants_facts[k]
                        == def.grants_facts@[k]@
                &&& topic.starts_quests.len() == def.starts_quests@.len()
                &&& forall|k: int|
                    0 <= k < def.starts_quests@.len() ==> #[trigger] topic.starts_quests[k]
                        == def.starts_quests@[k]@
            }
        },
{
    lemma_npcs_found(Seq::empty(), world.npcs@, i);
}

/// Adding quests none of which has the identifier `x` leaves what `x` finds alone.
proof fn lemma_quests_other(acc: Seq<(Seq<char>, QuestView)>, defs: Seq<QuestDefinition>, x: Seq<char>)
    requires
        forall|k: int| 0 <= k < defs.len() ==> #[trigger] defs[k].id@ != x,
    ensures
        crate::game::table::lookup(quests_from(acc, defs), x) == crate::game::table::lookup(acc, x),
    decreases defs.len(),
{
    if defs.len() > 0 {
        assert(defs[0].id@ != x);
        crate::game::laws::law_table_read_after_write(acc, defs[0].id@, quest_from(defs[0]), x);
        let d = defs.drop_first();
        assert forall|k: int| 0 <= k < d.len() implies #[trigger] d[k].id@ != x by {
            assert(d[k] == defs[k + 1]);
        }
        lemma_quests_other(crate::game::table::table_insert(acc, defs[0].id@, quest_from(defs[0])), d, x);
    }
}

/// With distinct identifiers, each quest definition is found by its identifier.
proof fn lemma_quests_found(acc: Seq<(Seq<char>, QuestView)>, defs: Seq<QuestDefinition>, i: int)
    requires
        0 <= i < defs.len(),
        ids_distinct(quest_ids_of(defs)),
    ensures
        crate::game::table::lookup(quests_from(acc, defs), defs[i].id@) == Some(quest_from(defs[i])),
    decreases defs.len(),
{
    let ids = quest_ids_of(defs);
    let d = defs.drop_first();
    let next = crate::game::table::table_insert(acc, defs[0].id@, quest_from(defs[0]));
    if i == 0 {
        crate::game::laws::law_table_read_after_write(acc, defs[0].id@, quest_from(defs[0]), defs[0].id@);
        assert forall|k: int| 0 <= k < d.len() implies #[trigger] d[k].id@ != defs[0].id@ by {
            assert(d[k] == defs[k + 1]);
            assert(ids[0] != ids[k + 1]);
        }
        lemma_quests_other(next, d, defs[0].id@);
    } else {
        assert forall|a: int, b: int| 0 <= a < b < d.len() implies #[trigger] quest_ids_of(d)[a]
            != #[trigger] quest_ids_of(d)[b] by {
            assert(ids[a + 1] != ids[b + 1]);
        }
        assert(d[i - 1] == defs[i]);
        lemma_quests_found(next, d, i - 1);
    }
}

/// In a world built from a definition whose quests have distinct identifiers, each quest is
/// found by its identifier with the definition's name, description and starting step, and
/// its steps, in order, have the definition's identifiers, descriptions and next steps; a
/// step's objective is the room to reach, the item to carry, or the character and topic to
/// ask about that its definition names.
pub proof fn law_converted_quests_keep_their_steps(world: WorldDefinition, i: int, j: int)
    requires
        ids_distinct(quest_ids_of(world.quests@)),
        0 <= i < world.quests@.len(),
        0 <= j < world.quests@[i].steps@.len(),
    ensures
        world_from(world) matches Ok(w) ==> {
            let qd = world.quests@[i];
            let sd = qd.steps@[j];
            &&& crate::game::table::lookup(w.quests, qd.id@) is Some
            &&& {
                let q = crate::game::table::lookup(w.quests, qd.id@)->0;
                let step = q.steps[j];
                &&& q.id == qd.id@ && q.name == qd.name@ && q.description == qd.description@
                &&& q.starting_step == qd.starting_step@
                &&& q.steps.len() == qd.steps@.len()
                &&& step.id == sd.id@ && step.description == sd.description@
                &&& step.next_step == (match sd.next_step {
                    Some(n) => Some(n@),
                    None => None,
                })
                &&& (sd.objective matches QuestObjectiveDefinition::ReachRoom { room } ==> step.objective
                    == crate::game::quest::QuestObjectiveView::ReachRoom(room@))
                &&& (sd.objective matches QuestObjectiveDefinition::PossessItem { item } ==> step.objective
                    == crate::game::quest::QuestObjectiveView::PossessItem(item@))
                &&& (sd.objective matches QuestObjectiveDefinition::AskTopic { npc, topic } ==> step.objective
                    == crate::game::quest::QuestObjectiveView::AskTopic { npc_id: npc@, topic_id: topic@ })
            }
        },
{
    lemma_quests_found(Seq::empty(), world.quests@, i);
}

} // verus!
