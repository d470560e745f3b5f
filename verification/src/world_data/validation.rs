use vstd::prelude::*;

use super::definition::{
    exit_destination, FactDefinition, FeatureDefinition, ItemDefinition, NpcDefinition,
    NpcTopicDefinition, QuestDefinition, QuestObjectiveDefinition, QuestStepDefinition,
    RoomDefinition, WorldDefinition,
};
use crate::game::event::text_views;
use crate::game::naming::{normalize_name, normalized_name};
use crate::text::{push_text, str_eq, trim_text, trimmed};

verus! {

/// The first problem found, in order, if any.
pub open spec fn first_some(problems: Seq<Option<Seq<char>>>) -> Option<Seq<char>>
    decreases problems.len(),
{
    if problems.len() == 0 {
        None
    } else {
        match problems[0] {
            Some(p) => Some(p),
            None => first_some(problems.drop_first()),
        }
    }
}

/// A problem as the result of a check: the problem is the error.
pub open spec fn as_result(problem: Option<Seq<char>>) -> Result<(), Seq<char>> {
    match problem {
        Some(p) => Err(p),
        None => Ok(()),
    }
}

/// The first problem is the first one that is there.
pub proof fn lemma_first_some(problems: Seq<Option<Seq<char>>>, i: int)
    requires
        0 <= i <= problems.len(),
        forall|k: int| 0 <= k < i ==> problems[k] is None,
    ensures
        i < problems.len() && problems[i] is Some ==> first_some(problems) == problems[i],
        i == problems.len() ==> first_some(problems) is None,
    decreases i,
{
    if i > 0 {
        let rest = problems.drop_first();
        assert forall|k: int| 0 <= k < i - 1 implies rest[k] is None by {
            assert(rest[k] == problems[k + 1]);
        }
        lemma_first_some(rest, i - 1);
        if i < problems.len() {
            assert(rest[i - 1] == problems[i]);
        }
    }
}

/// When there is no first problem, there is no problem at all.
pub proof fn lemma_first_some_none(problems: Seq<Option<Seq<char>>>)
    ensures
        first_some(problems) is None ==> forall|k: int|
            0 <= k < problems.len() ==> #[trigger] problems[k] is None,
    decreases problems.len(),
{
    if problems.len() > 0 {
        let rest = problems.drop_first();
        lemma_first_some_none(rest);
        assert forall|k: int| 0 <= k < problems.len() && first_some(problems) is None implies #[trigger] problems[k] is None by {
            if k > 0 {
                assert(problems[k] == rest[k - 1]);
            }
        }
    }
}

/// Whether a text is empty once its surrounding whitespace is trimmed.
pub open spec fn blank(s: Seq<char>) -> bool {
    trimmed(s).len() == 0
}

/// Whether a text is empty once its surrounding whitespace is trimmed.
pub fn is_blank(s: &str) -> (b: bool)
    ensures
        b == blank(s@),
{
    let t = trim_text(s);
    t.as_str().is_empty()
}

/// Whether a character may stand in an identifier: a lower-case ASCII letter, an ASCII
/// digit or an underscore.
pub open spec fn id_char(c: char) -> bool {
    ('a' <= c && c <= 'z') || ('0' <= c && c <= '9') || c == '_'
}

/// Whether every character of a text may stand in an identifier.
pub open spec fn valid_id(s: Seq<char>) -> bool {
    forall|i: int| 0 <= i < s.len() ==> id_char(#[trigger] s[i])
}

/// Whether every character of `id` may stand in an identifier.
pub fn is_valid_id(id: &str) -> (valid: bool)
    ensures
        valid == valid_id(id@),
{
    let chars = crate::text::chars_vec(id);
    let n = chars.len();
    for i in 0..n
        invariant
            n == chars@.len(),
            chars@ == id@,
            forall|k: int| 0 <= k < i ==> id_char(#[trigger] id@[k]),
    {
        let c = chars[i];
        if !(('a' <= c && c <= 'z') || ('0' <= c && c <= '9') || c == '_') {
            assert(!id_char(id@[i as int]));
            return false;
        }
    }
    true
}

/// Whether a text is one of the four direction words.
pub open spec fn direction_word_text(s: Seq<char>) -> bool {
    s == "north"@ || s == "south"@ || s == "east"@ || s == "west"@
}

/// Whether a text is one of the four direction words.
pub fn is_valid_direction(direction: &str) -> (valid: bool)
    ensures
        valid == direction_word_text(direction@),
{
    str_eq(direction, "north") || str_eq(direction, "south") || str_eq(direction, "east")
        || str_eq(direction, "west")
}

/// Whether one of the texts is `s`.
pub fn texts_contain(texts: &Vec<String>, s: &str) -> (found: bool)
    ensures
        found == text_views(texts@).contains(s@),
{
    let n = texts.len();
    for i in 0..n
        invariant
            n == texts@.len(),
            forall|k: int| 0 <= k < i ==> texts@[k]@ != s@,
    {
        if str_eq(texts[i].as_str(), s) {
            assert(text_views(texts@)[i as int] == s@);
            return true;
        }
    }
    assert forall|k: int| 0 <= k < text_views(texts@).len() implies text_views(texts@)[k]
        != s@ by {
        assert(text_views(texts@)[k] == texts@[k]@);
    }
    false
}

/// A text that reports a problem with an identifier: `head`, the identifier, `tail`.
pub open spec fn quoted(head: Seq<char>, middle: Seq<char>, tail: Seq<char>) -> Seq<char> {
    head + middle + tail
}

/// A text made of `head`, `middle` and `tail`.
fn quoted_text(head: &str, middle: &str, tail: &str) -> (text: String)
    ensures
        text@ == quoted(head@, middle@, tail@),
{
    let mut text = head.to_string();
    push_text(&mut text, middle);
    push_text(&mut text, tail);
    text
}

/// What is wrong with the identifier of a thing of a kind: blank, or with characters an
/// identifier may not have.
pub open spec fn id_problem(id: Seq<char>, name: Seq<char>, kind: Seq<char>, kind_lower: Seq<
    char,
>) -> Option<Seq<char>> {
    if blank(id) {
        Some(kind + " '"@ + name + "' has no id"@)
    } else if !valid_id(id) {
        Some("Id for "@ + kind_lower + " '"@ + name + "' has invalid characters: "@ + id)
    } else {
        None
    }
}

/// The first thing, in order, whose identifier is wrong.
pub open spec fn id_problems(
    ids: Seq<Seq<char>>,
    names: Seq<Seq<char>>,
    kind: Seq<char>,
    kind_lower: Seq<char>,
) -> Option<Seq<char>> {
    first_some(Seq::new(ids.len(), |i: int| id_problem(ids[i], names[i], kind, kind_lower)))
}

/// Checks the identifier of each thing in order.
fn check_ids(ids: &Vec<String>, names: &Vec<String>, kind: &str, kind_lower: &str) -> (result:
    Result<(), String>)
    requires
        ids@.len() == names@.len(),
    ensures
        result_view(result) == as_result(
            id_problems(text_views(ids@), text_views(names@), kind@, kind_lower@),
        ),
{
    let ghost problems = Seq::new(
        ids@.len(),
        |i: int| id_problem(ids@[i]@, names@[i]@, kind@, kind_lower@),
    );
    assert(problems =~= Seq::new(
        text_views(ids@).len(),
        |i: int|
            id_problem(text_views(ids@)[i], text_views(names@)[i], kind@, kind_lower@),
    ));
    let n = ids.len();
    for i in 0..n
        invariant
            n == ids@.len(),
            n == names@.len(),
            problems == Seq::new(
                ids@.len(),
                |i: int| id_problem(ids@[i]@, names@[i]@, kind@, kind_lower@),
            ),
            forall|k: int| 0 <= k < i ==> problems[k] is None,
            first_some(problems) == id_problems(
                text_views(ids@),
                text_views(names@),
                kind@,
                kind_lower@,
            ),
    {
        let id = ids[i].as_str();
        let name = names[i].as_str();
        if is_blank(id) {
            let mut text = kind.to_string();
            push_text(&mut text, " '");
            push_text(&mut text, name);
            push_text(&mut text, "' has no id");
            proof {
                lemma_first_some(problems, i as int);
            }
            return Err(text);
        }
        if !is_valid_id(id) {
            let mut text = "Id for ".to_string();
            push_text(&mut text, kind_lower);
            push_text(&mut text, " '");
            push_text(&mut text, name);
            push_text(&mut text, "' has invalid characters: ");
            push_text(&mut text, id);
            proof {
                lemma_first_some(problems, i as int);
            }
            return Err(text);
        }
    }
    proof {
        lemma_first_some(problems, n as int);
    }
    Ok(())
}

/// The view of a check's result.
pub open spec fn result_view(result: Result<(), String>) -> Result<(), Seq<char>> {
    match result {
        Ok(()) => Ok(()),
        Err(e) => Err(e@),
    }
}

/// The first thing, in order, whose identifier an earlier thing already has.
pub open spec fn duplicate_problems(ids: Seq<Seq<char>>, names: Seq<Seq<char>>, kind: Seq<char>) -> Option<
    Seq<char>,
> {
    first_some(
        Seq::new(
            ids.len(),
            |i: int|
                if ids.take(i).contains(ids[i]) {
                    Some("The "@ + kind + " named "@ + names[i] + " has the duplicate id: "@ + ids[i])
                } else {
                    None
                },
        ),
    )
}

/// Checks that no two things share an identifier.
fn check_unique_ids(ids: &Vec<String>, names: &Vec<String>, kind: &str) -> (result: Result<
    (),
    String,
>)
    requires
        ids@.len() == names@.len(),
    ensures
        result_view(result) == as_result(
            duplicate_problems(text_views(ids@), text_views(names@), kind@),
        ),
{
    let ghost all = text_views(ids@);
    let ghost problems = Seq::new(
        all.len(),
        |i: int|
            if all.take(i).contains(all[i]) {
                Some("The "@ + kind@ + " named "@ + text_views(names@)[i] + " has the duplicate id: "@ + all[i])
            } else {
                None
            },
    );
    let mut seen: Vec<String> = Vec::new();
    let n = ids.len();
    for i in 0..n
        invariant
            n == ids@.len(),
            n == names@.len(),
            all == text_views(ids@),
            problems == Seq::new(
                all.len(),
                |i: int|
                    if all.take(i).contains(all[i]) {
                        Some(
                            "The "@ + kind@ + " named "@ + text_views(names@)[i]
                                + " has the duplicate id: "@ + all[i],
                        )
                    } else {
                        None
                    },
            ),
            text_views(seen@) == all.take(i as int),
            forall|k: int| 0 <= k < i ==> problems[k] is None,
    {
        assert(all[i as int] == ids@[i as int]@);
        assert(text_views(names@)[i as int] == names@[i as int]@);
        if texts_contain(&seen, ids[i].as_str()) {
            let mut text = "The ".to_string();
            push_text(&mut text, kind);
            push_text(&mut text, " named ");
            push_text(&mut text, names[i].as_str());
            push_text(&mut text, " has the duplicate id: ");
            push_text(&mut text, ids[i].as_str());
            proof {
                lemma_first_some(problems, i as int);
            }
            return Err(text);
        }
        let ghost before = seen@;
        seen.push(ids[i].clone());
        assert(text_views(seen@) =~= text_views(before).push(all[i as int]));
        assert(all.take(i + 1) =~= all.take(i as int).push(all[i as int]));
    }
    proof {
        lemma_first_some(problems, n as int);
    }
    Ok(())
}


/// The identifiers of the items, in order.
pub open spec fn item_ids_of(defs: Seq<ItemDefinition>) -> Seq<Seq<char>> {
    Seq::new(defs.len(), |i: int| defs[i].id@)
}

/// The names of the items, in order.
pub open spec fn item_names_of(defs: Seq<ItemDefinition>) -> Seq<Seq<char>> {
    Seq::new(defs.len(), |i: int| defs[i].name@)
}

/// The identifiers and the names of the items, in order.
fn item_ids_and_names(defs: &Vec<ItemDefinition>) -> (texts: (Vec<String>, Vec<String>))
    ensures
        texts.0@.len() == defs@.len(),
        texts.1@.len() == defs@.len(),
        text_views(texts.0@) == item_ids_of(defs@),
        text_views(texts.1@) == item_names_of(defs@),
{
    let mut ids: Vec<String> = Vec::new();
    let mut names: Vec<String> = Vec::new();
    let n = defs.len();
    for i in 0..n
        invariant
            n == defs@.len(),
            ids@.len() == i,
            names@.len() == i,
            forall|k: int| 0 <= k < i ==> #[trigger] ids@[k]@ == defs@[k].id@,
            forall|k: int| 0 <= k < i ==> #[trigger] names@[k]@ == defs@[k].name@,
    {
        ids.push(defs[i].id.clone());
        names.push(defs[i].name.clone());
    }
    assert(text_views(ids@) =~= item_ids_of(defs@));
    assert(text_views(names@) =~= item_names_of(defs@));
    (ids, names)
}

/// The identifiers of the features, in order.
pub open spec fn feature_ids_of(defs: Seq<FeatureDefinition>) -> Seq<Seq<char>> {
    Seq::new(defs.len(), |i: int| defs[i].id@)
}

/// The names of the features, in order.
pub open spec fn feature_names_of(defs: Seq<FeatureDefinition>) -> Seq<Seq<char>> {
    Seq::new(defs.len(), |i: int| defs[i].name@)
}

/// The identifiers and the names of the features, in order.
fn feature_ids_and_names(defs: &Vec<FeatureDefinition>) -> (texts: (Vec<String>, Vec<String>))
    ensures
        texts.0@.len() == defs@.len(),
        texts.1@.len() == defs@.len(),
        text_views(texts.0@) == feature_ids_of(defs@),
        text_views(texts.1@) == feature_names_of(defs@),
{
    let mut ids: Vec<String> = Vec::new();
    let mut names: Vec<String> = Vec::new();
    let n = defs.len();
    for i in 0..n
        invariant
            n == defs@.len(),
            ids@.len() == i,
            names@.len() == i,
            forall|k: int| 0 <= k < i ==> #[trigger] ids@[k]@ == defs@[k].id@,
            forall|k: int| 0 <= k < i ==> #[trigger] names@[k]@ == defs@[k].name@,
    {
        ids.push(defs[i].id.clone());
        names.push(defs[i].name.clone());
    }
    assert(text_views(ids@) =~= feature_ids_of(defs@));
    assert(text_views(names@) =~= feature_names_of(defs@));
    (ids, names)
}

/// The identifiers of the npcs, in order.
pub open spec fn npc_ids_of(defs: Seq<NpcDefinition>) -> Seq<Seq<char>> {
    Seq::new(defs.len(), |i: int| defs[i].id@)
}

/// The names of the npcs, in order.
pub open spec fn npc_names_of(defs: Seq<NpcDefinition>) -> Seq<Seq<char>> {
    Seq::new(defs.len(), |i: int| defs[i].name@)
}

/// The identifiers and the names of the npcs, in order.
fn npc_ids_and_names(defs: &Vec<NpcDefinition>) -> (texts: (Vec<String>, Vec<String>))
    ensures
        texts.0@.len() == defs@.len(),
        texts.1@.len() == defs@.len(),
        text_views(texts.0@) == npc_ids_of(defs@),
        text_views(texts.1@) == npc_names_of(defs@),
{
    let mut ids: Vec<String> = Vec::new();
    let mut names: Vec<String> = Vec::new();
    let n = defs.len();
    for i in 0..n
        invariant
            n == defs@.len(),
            ids@.len() == i,
            names@.len() == i,
            forall|k: int| 0 <= k < i ==> #[trigger] ids@[k]@ == defs@[k].id@,
            forall|k: int| 0 <= k < i ==> #[trigger] names@[k]@ == defs@[k].name@,
    {
        ids.push(defs[i].id.clone());
        names.push(defs[i].name.clone());
    }
    assert(text_views(ids@) =~= npc_ids_of(defs@));
    assert(text_views(names@) =~= npc_names_of(defs@));
    (ids, names)
}

/// The identifiers of the rooms, in order.
pub open spec fn room_ids_of(defs: Seq<RoomDefinition>) -> Seq<Seq<char>> {
    Seq::new(defs.len(), |i: int| defs[i].id@)
}

/// The names of the rooms, in order.
pub open spec fn room_names_of(defs: Seq<RoomDefinition>) -> Seq<Seq<char>> {
    Seq::new(defs.len(), |i: int| defs[i].name@)
}

/// The identifiers and the names of the rooms, in order.
fn room_ids_and_names(defs: &Vec<RoomDefinition>) -> (texts: (Vec<String>, Vec<String>))
    ensures
        texts.0@.len() == defs@.len(),
        texts.1@.len() == defs@.len(),
        text_views(texts.0@) == room_ids_of(defs@),
        text_views(texts.1@) == room_names_of(defs@),
{
    let mut ids: Vec<String> = Vec::new();
    let mut names: Vec<String> = Vec::new();
    let n = defs.len();
    for i in 0..n
        invariant
            n == defs@.len(),
            ids@.len() == i,
            names@.len() == i,
            forall|k: int| 0 <= k < i ==> #[trigger] ids@[k]@ == defs@[k].id@,
            forall|k: int| 0 <= k < i ==> #[trigger] names@[k]@ == defs@[k].name@,
    {
        ids.push(defs[i].id.clone());
        names.push(defs[i].name.clone());
    }
    assert(text_views(ids@) =~= room_ids_of(defs@));
    assert(text_views(names@) =~= room_names_of(defs@));
    (ids, names)
}

/// The identifiers of the quests, in order.
pub open spec fn quest_ids_of(defs: Seq<QuestDefinition>) -> Seq<Seq<char>> {
    Seq::new(defs.len(), |i: int| defs[i].id@)
}

/// The names of the quests, in order.
pub open spec fn quest_names_of(defs: Seq<QuestDefinition>) -> Seq<Seq<char>> {
    Seq::new(defs.len(), |i: int| defs[i].name@)
}

/// The identifiers and the names of the quests, in order.
fn quest_ids_and_names(defs: &Vec<QuestDefinition>) -> (texts: (Vec<String>, Vec<String>))
    ensures
        texts.0@.len() == defs@.len(),
        texts.1@.len() == defs@.len(),
        text_views(texts.0@) == quest_ids_of(defs@),
        text_views(texts.1@) == quest_names_of(defs@),
{
    let mut ids: Vec<String> = Vec::new();
    let mut names: Vec<String> = Vec::new();
    let n = defs.len();
    for i in 0..n
        invariant
            n == defs@.len(),
            ids@.len() == i,
            names@.len() == i,
            forall|k: int| 0 <= k < i ==> #[trigger] ids@[k]@ == defs@[k].id@,
            forall|k: int| 0 <= k < i ==> #[trigger] names@[k]@ == defs@[k].name@,
    {
        ids.push(defs[i].id.clone());
        names.push(defs[i].name.clone());
    }
    assert(text_views(ids@) =~= quest_ids_of(defs@));
    assert(text_views(names@) =~= quest_names_of(defs@));
    (ids, names)
}

/// What is wrong with the world's identifier: blank, or with characters an identifier may
/// not have.
pub open spec fn world_id_problem(id: Seq<char>) -> Option<Seq<char>> {
    if blank(id) {
        Some("World id is empty"@)
    } else if !valid_id(id) {
        Some("World id has invalid characters: "@ + id)
    } else {
        None
    }
}

/// Checks the world's identifier.
pub fn validate_world_id(world: &WorldDefinition) -> (result: Result<(), String>)
    ensures
        result_view(result) == as_result(world_id_problem(world.id@)),
{
    if is_blank(world.id.as_str()) {
        return Err("World id is empty".to_string());
    }
    if !is_valid_id(world.id.as_str()) {
        let mut text = "World id has invalid characters: ".to_string();
        push_text(&mut text, world.id.as_str());
        return Err(text);
    }
    Ok(())
}

/// Checks the identifier of each item.
pub fn validate_item_ids(world: &WorldDefinition) -> (result: Result<(), String>)
    ensures
        result_view(result) == as_result(
            id_problems(item_ids_of(world.items@), item_names_of(world.items@), "Item"@, "item"@),
        ),
{
    let (ids, names) = item_ids_and_names(&world.items);
    check_ids(&ids, &names, "Item", "item")
}

/// Checks that no two items share an identifier.
pub fn validate_unique_item_ids(world: &WorldDefinition) -> (result: Result<(), String>)
    ensures
        result_view(result) == as_result(
            duplicate_problems(item_ids_of(world.items@), item_names_of(world.items@), "item"@),
        ),
{
    let (ids, names) = item_ids_and_names(&world.items);
    check_unique_ids(&ids, &names, "item")
}

/// Checks the identifier of each feature.
pub fn validate_feature_ids(world: &WorldDefinition) -> (result: Result<(), String>)
    ensures
        result_view(result) == as_result(
            id_problems(
                feature_ids_of(world.features@),
                feature_names_of(world.features@),
                "Feature"@,
                "feature"@,
            ),
        ),
{
    let (ids, names) = feature_ids_and_names(&world.features);
    check_ids(&ids, &names, "Feature", "feature")
}

/// Checks that no two features share an identifier.
pub fn validate_unique_feature_ids(world: &WorldDefinition) -> (result: Result<(), String>)
    ensures
        result_view(result) == as_result(
            duplicate_problems(
                feature_ids_of(world.features@),
                feature_names_of(world.features@),
                "feature"@,
            ),
        ),
{
    let (ids, names) = feature_ids_and_names(&world.features);
    check_unique_ids(&ids, &names, "feature")
}

/// Checks the identifier of each non-player character.
pub fn validate_npc_ids(world: &WorldDefinition) -> (result: Result<(), String>)
    ensures
        result_view(result) == as_result(
            id_problems(npc_ids_of(world.npcs@), npc_names_of(world.npcs@), "NPC"@, "NPC"@),
        ),
{
    let (ids, names) = npc_ids_and_names(&world.npcs);
    check_ids(&ids, &names, "NPC", "NPC")
}

/// Checks that no two non-player characters share an identifier.
pub fn validate_unique_npc_ids(world: &WorldDefinition) -> (result: Result<(), String>)
    ensures
        result_view(result) == as_result(
            duplicate_problems(npc_ids_of(world.npcs@), npc_names_of(world.npcs@), "NPC"@),
        ),
{
    let (ids, names) = npc_ids_and_names(&world.npcs);
    check_unique_ids(&ids, &names, "NPC")
}

/// Checks that no two rooms share an identifier.
pub fn validate_unique_room_ids(world: &WorldDefinition) -> (result: Result<(), String>)
    ensures
        result_view(result) == as_result(
            duplicate_problems(room_ids_of(world.rooms@), room_names_of(world.rooms@), "room"@),
        ),
{
    let (ids, names) = room_ids_and_names(&world.rooms);
    check_unique_ids(&ids, &names, "room")
}

/// The first room, in order, whose identifier is blank.
pub open spec fn blank_room_id_problems(rooms: Seq<RoomDefinition>) -> Option<Seq<char>> {
    first_some(
        Seq::new(
            rooms.len(),
            |i: int|
                if blank(rooms[i].id@) {
                    Some("Room '"@ + rooms[i].name@ + "' has no id"@)
                } else {
                    None
                },
        ),
    )
}

/// Checks that no room has a blank identifier.
pub fn validate_non_empty_room_ids(world: &WorldDefinition) -> (result: Result<(), String>)
    ensures
        result_view(result) == as_result(blank_room_id_problems(world.rooms@)),
{
    let ghost rooms = world.rooms@;
    let ghost problems = Seq::new(
        rooms.len(),
        |i: int|
            if blank(rooms[i].id@) {
                Some("Room '"@ + rooms[i].name@ + "' has no id"@)
            } else {
                None
            },
    );
    let n = world.rooms.len();
    for i in 0..n
        invariant
            n == rooms.len(),
            rooms == world.rooms@,
            problems == Seq::new(
                rooms.len(),
                |i: int|
                    if blank(rooms[i].id@) {
                        Some("Room '"@ + rooms[i].name@ + "' has no id"@)
                    } else {
                        None
                    },
            ),
            forall|k: int| 0 <= k < i ==> problems[k] is None,
    {
        let room = &world.rooms[i];
        if is_blank(room.id.as_str()) {
            proof {
                lemma_first_some(problems, i as int);
            }
            return Err(quoted_text("Room '", room.name.as_str(), "' has no id"));
        }
    }
    proof {
        lemma_first_some(problems, n as int);
    }
    Ok(())
}

/// The first room, in order, whose identifier has characters an identifier may not have.
pub open spec fn room_id_format_problems(rooms: Seq<RoomDefinition>) -> Option<Seq<char>> {
    first_some(
        Seq::new(
            rooms.len(),
            |i: int|
                if !valid_id(rooms[i].id@) {
                    Some(
                        "Id for room '"@ + rooms[i].name@ + "' has invalid characters: "@
                            + rooms[i].id@,
                    )
                } else {
                    None
                },
        ),
    )
}

/// Checks that every room identifier has only characters an identifier may have.
pub fn validate_room_id_formats(world: &WorldDefinition) -> (result: Result<(), String>)
    ensures
        result_view(result) == as_result(room_id_format_problems(world.rooms@)),
{
    let ghost rooms = world.rooms@;
    let ghost problems = Seq::new(
        rooms.len(),
        |i: int|
            if !valid_id(rooms[i].id@) {
                Some(
                    "Id for room '"@ + rooms[i].name@ + "' has invalid characters: "@
                        + rooms[i].id@,
                )
            } else {
                None
            },
    );
    let n = world.rooms.len();
    for i in 0..n
        invariant
            n == rooms.len(),
            rooms == world.rooms@,
            problems == Seq::new(
                rooms.len(),
                |i: int|
                    if !valid_id(rooms[i].id@) {
                        Some(
                            "Id for room '"@ + rooms[i].name@ + "' has invalid characters: "@
                                + rooms[i].id@,
                        )
                    } else {
                        None
                    },
            ),
            forall|k: int| 0 <= k < i ==> problems[k] is None,
    {
        let room = &world.rooms[i];
        if !is_valid_id(room.id.as_str()) {
            let mut text = "Id for room '".to_string();
            push_text(&mut text, room.name.as_str());
            push_text(&mut text, "' has invalid characters: ");
            push_text(&mut text, room.id.as_str());
            proof {
                lemma_first_some(problems, i as int);
            }
            return Err(text);
        }
    }
    proof {
        lemma_first_some(problems, n as int);
    }
    Ok(())
}

/// Whether a room with identifier `id` is defined.
pub fn room_exists(rooms: &Vec<RoomDefinition>, id: &str) -> (found: bool)
    ensures
        found == room_ids_of(rooms@).contains(id@),
{
    let n = rooms.len();
    for i in 0..n
        invariant
            n == rooms@.len(),
            forall|k: int| 0 <= k < i ==> rooms@[k].id@ != id@,
    {
        if str_eq(rooms[i].id.as_str(), id) {
            assert(room_ids_of(rooms@)[i as int] == id@);
            return true;
        }
    }
    assert forall|k: int| 0 <= k < room_ids_of(rooms@).len() implies room_ids_of(rooms@)[k]
        != id@ by {
        assert(room_ids_of(rooms@)[k] == rooms@[k].id@);
    }
    false
}

/// The starting room must be a defined room.
pub open spec fn starting_room_problem(world: WorldDefinition) -> Option<Seq<char>> {
    if room_ids_of(world.rooms@).contains(world.starting_room@) {
        None
    } else {
        Some("Starting room '"@ + world.starting_room@ + "' does not exist"@)
    }
}

/// Checks that the starting room is defined.
pub fn validate_starting_room(world: &WorldDefinition) -> (result: Result<(), String>)
    ensures
        result_view(result) == as_result(starting_room_problem(*world)),
{
    if room_exists(&world.rooms, world.starting_room.as_str()) {
        Ok(())
    } else {
        Err(quoted_text("Starting room '", world.starting_room.as_str(), "' does not exist"))
    }
}


/// Which of the lists a room keeps: the items, features or characters it starts with.
#[derive(Debug, Clone, Copy, PartialEq, Eq)]
pub enum RoomList {
    Items,
    Features,
    Npcs,
}

/// The identifiers a room lists of one kind.
pub open spec fn room_list(room: RoomDefinition, which: RoomList) -> Seq<Seq<char>> {
    match which {
        RoomList::Items => text_views(room.items@),
        RoomList::Features => text_views(room.features@),
        RoomList::Npcs => text_views(room.npcs@),
    }
}

/// The identifiers a room lists of one kind.
fn room_list_exec(room: &RoomDefinition, which: RoomList) -> (list: &Vec<String>)
    ensures
        text_views(list@) == room_list(*room, which),
{
    match which {
        RoomList::Items => &room.items,
        RoomList::Features => &room.features,
        RoomList::Npcs => &room.npcs,
    }
}

/// What is wrong with the `k`-th identifier of one kind that room `r` lists: nothing of that
/// kind is declared with it.
pub open spec fn reference_problem(
    rooms: Seq<RoomDefinition>,
    which: RoomList,
    declared: Seq<Seq<char>>,
    kind: Seq<char>,
    r: int,
    k: int,
) -> Option<Seq<char>> {
    let id = room_list(rooms[r], which)[k];
    if declared.contains(id) {
        None
    } else {
        Some("Room '"@ + rooms[r].id@ + "' references missing "@ + kind + " '"@ + id + "'"@)
    }
}

/// The first problem with what room `r` lists of one kind.
pub open spec fn room_reference_problems(
    rooms: Seq<RoomDefinition>,
    which: RoomList,
    declared: Seq<Seq<char>>,
    kind: Seq<char>,
    r: int,
) -> Option<Seq<char>> {
    first_some(
        Seq::new(
            room_list(rooms[r], which).len(),
            |k: int| reference_problem(rooms, which, declared, kind, r, k),
        ),
    )
}

/// The first identifier of one kind, room by room, that names nothing declared.
pub open spec fn reference_problems(
    rooms: Seq<RoomDefinition>,
    which: RoomList,
    declared: Seq<Seq<char>>,
    kind: Seq<char>,
) -> Option<Seq<char>> {
    first_some(
        Seq::new(rooms.len(), |r: int| room_reference_problems(rooms, which, declared, kind, r)),
    )
}

/// Checks that each identifier of one kind that a room lists names a declared thing.
fn check_room_references(
    rooms: &Vec<RoomDefinition>,
    which: RoomList,
    declared: &Vec<String>,
    kind: &str,
) -> (result: Result<(), String>)
    ensures
        result_view(result) == as_result(
            reference_problems(rooms@, which, text_views(declared@), kind@),
        ),
{
    let ghost outer = Seq::new(
        rooms@.len(),
        |r: int| room_reference_problems(rooms@, which, text_views(declared@), kind@, r),
    );
    let n = rooms.len();
    for r in 0..n
        invariant
            n == rooms@.len(),
            outer == Seq::new(
                rooms@.len(),
                |r: int| room_reference_problems(rooms@, which, text_views(declared@), kind@, r),
            ),
            forall|j: int| 0 <= j < r ==> outer[j] is None,
    {
        let room = &rooms[r];
        let list = room_list_exec(room, which);
        let ghost inner = Seq::new(
            room_list(rooms@[r as int], which).len(),
            |k: int| reference_problem(rooms@, which, text_views(declared@), kind@, r as int, k),
        );
        let m = list.len();
        for k in 0..m
            invariant
                m == list@.len(),
                text_views(list@) == room_list(*room, which),
                *room == rooms@[r as int],
                inner == Seq::new(
                    room_list(rooms@[r as int], which).len(),
                    |k: int|
                        reference_problem(rooms@, which, text_views(declared@), kind@, r as int, k),
                ),
                r < n,
                n == rooms@.len(),
                outer == Seq::new(
                    rooms@.len(),
                    |r: int| room_reference_problems(rooms@, which, text_views(declared@), kind@, r),
                ),
                forall|j: int| 0 <= j < r ==> outer[j] is None,
                forall|j: int| 0 <= j < k ==> inner[j] is None,
        {
            assert(text_views(list@)[k as int] == list@[k as int]@);
            if !texts_contain(declared, list[k].as_str()) {
                let mut text = "Room '".to_string();
                push_text(&mut text, room.id.as_str());
                push_text(&mut text, "' references missing ");
                push_text(&mut text, kind);
                push_text(&mut text, " '");
                push_text(&mut text, list[k].as_str());
                push_text(&mut text, "'");
                proof {
                    lemma_first_some(inner, k as int);
                    lemma_first_some(outer, r as int);
                }
                return Err(text);
            }
        }
        proof {
            lemma_first_some(inner, m as int);
        }
    }
    proof {
        lemma_first_some(outer, n as int);
    }
    Ok(())
}

/// The identifiers of one kind that the rooms list, room by room.
pub open spec fn all_listed(rooms: Seq<RoomDefinition>, which: RoomList) -> Seq<Seq<char>>
    decreases rooms.len(),
{
    if rooms.len() == 0 {
        Seq::empty()
    } else {
        all_listed(rooms.drop_last(), which) + room_list(rooms.last(), which)
    }
}

/// What is wrong with the `k`-th identifier of one kind that room `r` lists: it was listed
/// before, in an earlier room or earlier in this one.
pub open spec fn placement_problem(
    rooms: Seq<RoomDefinition>,
    which: RoomList,
    kind: Seq<char>,
    r: int,
    k: int,
) -> Option<Seq<char>> {
    let id = room_list(rooms[r], which)[k];
    if (all_listed(rooms.take(r), which) + room_list(rooms[r], which).take(k)).contains(id) {
        Some(kind + " '"@ + id + "' is placed more than once"@)
    } else {
        None
    }
}

/// The first problem with where room `r` places things of one kind.
pub open spec fn room_placement_problems(
    rooms: Seq<RoomDefinition>,
    which: RoomList,
    kind: Seq<char>,
    r: int,
) -> Option<Seq<char>> {
    first_some(
        Seq::new(
            room_list(rooms[r], which).len(),
            |k: int| placement_problem(rooms, which, kind, r, k),
        ),
    )
}

/// The first thing of one kind, room by room, that is placed a second time.
pub open spec fn placement_problems(rooms: Seq<RoomDefinition>, which: RoomList, kind: Seq<char>) -> Option<
    Seq<char>,
> {
    first_some(Seq::new(rooms.len(), |r: int| room_placement_problems(rooms, which, kind, r)))
}

/// Checks that no identifier of one kind is listed twice over all rooms.
fn check_unique_placements(rooms: &Vec<RoomDefinition>, which: RoomList, kind: &str) -> (result:
    Result<(), String>)
    ensures
        result_view(result) == as_result(placement_problems(rooms@, which, kind@)),
{
    let ghost outer = Seq::new(
        rooms@.len(),
        |r: int| room_placement_problems(rooms@, which, kind@, r),
    );
    let mut placed: Vec<String> = Vec::new();
    let n = rooms.len();
    assert(all_listed(rooms@.take(0), which) =~= Seq::<Seq<char>>::empty());
    assert(text_views(placed@) =~= Seq::<Seq<char>>::empty());
    for r in 0..n
        invariant
            n == rooms@.len(),
            outer == Seq::new(
                rooms@.len(),
                |r: int| room_placement_problems(rooms@, which, kind@, r),
            ),
            forall|j: int| 0 <= j < r ==> outer[j] is None,
            text_views(placed@) == all_listed(rooms@.take(r as int), which),
    {
        let room = &rooms[r];
        let list = room_list_exec(room, which);
        let ghost before = all_listed(rooms@.take(r as int), which);
        let ghost inner = Seq::new(
            room_list(rooms@[r as int], which).len(),
            |k: int| placement_problem(rooms@, which, kind@, r as int, k),
        );
        let m = list.len();
        for k in 0..m
            invariant
                m == list@.len(),
                text_views(list@) == room_list(*room, which),
                *room == rooms@[r as int],
                before == all_listed(rooms@.take(r as int), which),
                inner == Seq::new(
                    room_list(rooms@[r as int], which).len(),
                    |k: int| placement_problem(rooms@, which, kind@, r as int, k),
                ),
                r < n,
                n == rooms@.len(),
                outer == Seq::new(
                    rooms@.len(),
                    |r: int| room_placement_problems(rooms@, which, kind@, r),
                ),
                forall|j: int| 0 <= j < r ==> outer[j] is None,
                forall|j: int| 0 <= j < k ==> inner[j] is None,
                text_views(placed@) == before + room_list(*room, which).take(k as int),
        {
            assert(text_views(list@)[k as int] == list@[k as int]@);
            if texts_contain(&placed, list[k].as_str()) {
                let mut text = kind.to_string();
                push_text(&mut text, " '");
                push_text(&mut text, list[k].as_str());
                push_text(&mut text, "' is placed more than once");
                proof {
                    lemma_first_some(inner, k as int);
                    lemma_first_some(outer, r as int);
                }
                return Err(text);
            }
            let ghost old_placed = placed@;
            placed.push(list[k].clone());
            proof {
                assert(text_views(placed@) =~= text_views(old_placed).push(list@[k as int]@));
                assert(room_list(*room, which).take(k + 1) =~= room_list(*room, which).take(
                    k as int,
                ).push(list@[k as int]@));
            }
        }
        proof {
            lemma_first_some(inner, m as int);
            let t = rooms@.take(r + 1);
            assert(t.drop_last() =~= rooms@.take(r as int));
            assert(t.last() == *room);
            assert(room_list(*room, which).take(m as int) =~= room_list(*room, which));
        }
    }
    proof {
        lemma_first_some(outer, n as int);
    }
    Ok(())
}

/// Checks that each feature a room lists is declared.
pub fn validate_room_feature_references(world: &WorldDefinition) -> (result: Result<(), String>)
    ensures
        result_view(result) == as_result(
            reference_problems(
                world.rooms@,
                RoomList::Features,
                feature_ids_of(world.features@),
                "feature"@,
            ),
        ),
{
    let (ids, _names) = feature_ids_and_names(&world.features);
    check_room_references(&world.rooms, RoomList::Features, &ids, "feature")
}

/// Checks that no feature is placed twice.
pub fn validate_unique_feature_placements(world: &WorldDefinition) -> (result: Result<(), String>)
    ensures
        result_view(result) == as_result(
            placement_problems(world.rooms@, RoomList::Features, "Feature"@),
        ),
{
    check_unique_placements(&world.rooms, RoomList::Features, "Feature")
}

/// Checks that each non-player character a room lists is declared.
pub fn validate_room_npc_references(world: &WorldDefinition) -> (result: Result<(), String>)
    ensures
        result_view(result) == as_result(
            reference_problems(world.rooms@, RoomList::Npcs, npc_ids_of(world.npcs@), "NPC"@),
        ),
{
    let (ids, _names) = npc_ids_and_names(&world.npcs);
    check_room_references(&world.rooms, RoomList::Npcs, &ids, "NPC")
}

/// Checks that no non-player character is placed twice.
pub fn validate_unique_npc_placements(world: &WorldDefinition) -> (result: Result<(), String>)
    ensures
        result_view(result) == as_result(placement_problems(world.rooms@, RoomList::Npcs, "NPC"@)),
{
    check_unique_placements(&world.rooms, RoomList::Npcs, "NPC")
}

/// Checks that each item a room lists is declared.
pub fn validate_room_item_references(world: &WorldDefinition) -> (result: Result<(), String>)
    ensures
        result_view(result) == as_result(
            reference_problems(world.rooms@, RoomList::Items, item_ids_of(world.items@), "item"@),
        ),
{
    let (ids, _names) = item_ids_and_names(&world.items);
    check_room_references(&world.rooms, RoomList::Items, &ids, "item")
}

/// Checks that no item starts in two places.
pub fn validate_unique_item_placements(world: &WorldDefinition) -> (result: Result<(), String>)
    ensures
        result_view(result) == as_result(
            placement_problems(world.rooms@, RoomList::Items, "Item"@),
        ),
{
    check_unique_placements(&world.rooms, RoomList::Items, "Item")
}


/// What is wrong with the `k`-th exit of room `r`: its direction word is not one of the four.
pub open spec fn exit_direction_problem(rooms: Seq<RoomDefinition>, r: int, k: int) -> Option<
    Seq<char>,
> {
    let word = rooms[r].exits@[k].0@;
    if direction_word_text(word) {
        None
    } else {
        Some("Room with id '"@ + rooms[r].id@ + "' has invalid exit direction '"@ + word + "'"@)
    }
}

/// The first exit, room by room, whose direction word is not one of the four.
pub open spec fn exit_direction_problems(rooms: Seq<RoomDefinition>) -> Option<Seq<char>> {
    first_some(
        Seq::new(
            rooms.len(),
            |r: int|
                first_some(
                    Seq::new(rooms[r].exits@.len(), |k: int| exit_direction_problem(rooms, r, k)),
                ),
        ),
    )
}

/// Checks that every exit has one of the four direction words.
pub fn validate_exit_directions(world: &WorldDefinition) -> (result: Result<(), String>)
    ensures
        result_view(result) == as_result(exit_direction_problems(world.rooms@)),
{
    let ghost rooms = world.rooms@;
    let ghost outer = Seq::new(
        rooms.len(),
        |r: int|
            first_some(
                Seq::new(rooms[r].exits@.len(), |k: int| exit_direction_problem(rooms, r, k)),
            ),
    );
    let n = world.rooms.len();
    for r in 0..n
        invariant
            n == rooms.len(),
            rooms == world.rooms@,
            outer == Seq::new(
                rooms.len(),
                |r: int|
                    first_some(
                        Seq::new(rooms[r].exits@.len(), |k: int| exit_direction_problem(rooms, r, k)),
                    ),
            ),
            forall|j: int| 0 <= j < r ==> outer[j] is None,
    {
        let room = &world.rooms[r];
        let ghost inner = Seq::new(
            rooms[r as int].exits@.len(),
            |k: int| exit_direction_problem(rooms, r as int, k),
        );
        let m = room.exits.len();
        for k in 0..m
            invariant
                m == room.exits@.len(),
                *room == rooms[r as int],
                rooms == world.rooms@,
                r < n,
                n == rooms.len(),
                inner == Seq::new(
                    rooms[r as int].exits@.len(),
                    |k: int| exit_direction_problem(rooms, r as int, k),
                ),
                forall|j: int| 0 <= j < k ==> inner[j] is None,
                outer == Seq::new(
                    rooms.len(),
                    |r: int|
                        first_some(
                            Seq::new(
                                rooms[r].exits@.len(),
                                |k: int| exit_direction_problem(rooms, r, k),
                            ),
                        ),
                ),
                forall|j: int| 0 <= j < r ==> outer[j] is None,
        {
            let word = room.exits[k].0.as_str();
            if !is_valid_direction(word) {
                let mut text = "Room with id '".to_string();
                push_text(&mut text, room.id.as_str());
                push_text(&mut text, "' has invalid exit direction '");
                push_text(&mut text, word);
                push_text(&mut text, "'");
                proof {
                    lemma_first_some(inner, k as int);
                    lemma_first_some(outer, r as int);
                }
                return Err(text);
            }
        }
        proof {
            lemma_first_some(inner, m as int);
        }
    }
    proof {
        lemma_first_some(outer, n as int);
    }
    Ok(())
}

/// What is wrong with the `k`-th exit of room `r`: it leads to a room that is not defined.
pub open spec fn exit_destination_problem(rooms: Seq<RoomDefinition>, r: int, k: int) -> Option<
    Seq<char>,
> {
    let exit = rooms[r].exits@[k];
    let destination = exit_destination(exit.1);
    if room_ids_of(rooms).contains(destination) {
        None
    } else {
        Some(
            "Room with id '"@ + rooms[r].id@ + "' has exit '"@ + exit.0@
                + "' pointing to missing room '"@ + destination + "'"@,
        )
    }
}

/// The first exit, room by room, that leads to a room that is not defined.
pub open spec fn exit_destination_problems(rooms: Seq<RoomDefinition>) -> Option<Seq<char>> {
    first_some(
        Seq::new(
            rooms.len(),
            |r: int|
                first_some(
                    Seq::new(rooms[r].exits@.len(), |k: int| exit_destination_problem(rooms, r, k)),
                ),
        ),
    )
}

/// Checks that every exit leads to a defined room.
pub fn validate_exit_destinations(world: &WorldDefinition) -> (result: Result<(), String>)
    ensures
        result_view(result) == as_result(exit_destination_problems(world.rooms@)),
{
    let ghost rooms = world.rooms@;
    let ghost outer = Seq::new(
        rooms.len(),
        |r: int|
            first_some(
                Seq::new(rooms[r].exits@.len(), |k: int| exit_destination_problem(rooms, r, k)),
            ),
    );
    let n = world.rooms.len();
    for r in 0..n
        invariant
            n == rooms.len(),
            rooms == world.rooms@,
            outer == Seq::new(
                rooms.len(),
                |r: int|
                    first_some(
                        Seq::new(
                            rooms[r].exits@.len(),
                            |k: int| exit_destination_problem(rooms, r, k),
                        ),
                    ),
            ),
            forall|j: int| 0 <= j < r ==> outer[j] is None,
    {
        let room = &world.rooms[r];
        let ghost inner = Seq::new(
            rooms[r as int].exits@.len(),
            |k: int| exit_destination_problem(rooms, r as int, k),
        );
        let m = room.exits.len();
        for k in 0..m
            invariant
                m == room.exits@.len(),
                *room == rooms[r as int],
                rooms == world.rooms@,
                r < n,
                n == rooms.len(),
                inner == Seq::new(
                    rooms[r as int].exits@.len(),
                    |k: int| exit_destination_problem(rooms, r as int, k),
                ),
                forall|j: int| 0 <= j < k ==> inner[j] is None,
                outer == Seq::new(
                    rooms.len(),
                    |r: int|
                        first_some(
                            Seq::new(
                                rooms[r].exits@.len(),
                                |k: int| exit_destination_problem(rooms, r, k),
                            ),
                        ),
                ),
                forall|j: int| 0 <= j < r ==> outer[j] is None,
        {
            let entry = &room.exits[k];
            let destination = entry.1.destination();
            if !room_exists(&world.rooms, destination) {
                let mut text = "Room with id '".to_string();
                push_text(&mut text, room.id.as_str());
                push_text(&mut text, "' has exit '");
                push_text(&mut text, entry.0.as_str());
                push_text(&mut text, "' pointing to missing room '");
                push_text(&mut text, destination);
                push_text(&mut text, "'");
                proof {
                    lemma_first_some(inner, k as int);
                    lemma_first_some(outer, r as int);
                }
                return Err(text);
            }
        }
        proof {
            lemma_first_some(inner, m as int);
        }
    }
    proof {
        lemma_first_some(outer, n as int);
    }
    Ok(())
}

/// The identifiers of the declared facts, in order.
pub open spec fn fact_ids_of(facts: Seq<FactDefinition>) -> Seq<Seq<char>> {
    Seq::new(facts.len(), |i: int| facts[i].id@)
}

/// What is wrong with the `i`-th declared fact: its identifier is blank, has characters an
/// identifier may not have, or was declared before.
pub open spec fn fact_problem(facts: Seq<FactDefinition>, i: int) -> Option<Seq<char>> {
    let id = facts[i].id@;
    if blank(id) {
        Some("Fact has no id"@)
    } else if !valid_id(id) {
        Some("Fact id has invalid characters: "@ + id)
    } else if fact_ids_of(facts).take(i).contains(id) {
        Some("World has duplicate fact id '"@ + id + "'"@)
    } else {
        None
    }
}

/// Checks the declared facts in order.
pub fn validate_fact_ids(world: &WorldDefinition) -> (result: Result<(), String>)
    ensures
        result_view(result) == as_result(
            first_some(Seq::new(world.facts@.len(), |i: int| fact_problem(world.facts@, i))),
        ),
{
    let ghost facts = world.facts@;
    let ghost problems = Seq::new(facts.len(), |i: int| fact_problem(facts, i));
    let mut seen: Vec<String> = Vec::new();
    let n = world.facts.len();
    for i in 0..n
        invariant
            n == facts.len(),
            facts == world.facts@,
            problems == Seq::new(facts.len(), |i: int| fact_problem(facts, i)),
            forall|k: int| 0 <= k < i ==> problems[k] is None,
            text_views(seen@) == fact_ids_of(facts).take(i as int),
    {
        let id = world.facts[i].id.as_str();
        assert(fact_ids_of(facts)[i as int] == id@);
        if is_blank(id) {
            proof {
                lemma_first_some(problems, i as int);
            }
            return Err("Fact has no id".to_string());
        }
        if !is_valid_id(id) {
            let mut text = "Fact id has invalid characters: ".to_string();
            push_text(&mut text, id);
            proof {
                lemma_first_some(problems, i as int);
            }
            return Err(text);
        }
        if texts_contain(&seen, id) {
            proof {
                lemma_first_some(problems, i as int);
            }
            return Err(quoted_text("World has duplicate fact id '", id, "'"));
        }
        let ghost old_seen = seen@;
        seen.push(world.facts[i].id.clone());
        proof {
            assert(text_views(seen@) =~= text_views(old_seen).push(id@));
            assert(fact_ids_of(facts).take(i + 1) =~= fact_ids_of(facts).take(i as int).push(id@));
        }
    }
    proof {
        lemma_first_some(problems, n as int);
    }
    Ok(())
}


/// The first of two problems, in that order.
pub open spec fn or_else(first: Option<Seq<char>>, second: Option<Seq<char>>) -> Option<Seq<char>> {
    match first {
        Some(p) => Some(p),
        None => second,
    }
}

/// The identifiers of an NPC's topics, in order.
pub open spec fn topic_ids_of(topics: Seq<NpcTopicDefinition>) -> Seq<Seq<char>> {
    Seq::new(topics.len(), |i: int| topics[i].id@)
}

/// The normalized names of an NPC's topics, in order.
pub open spec fn topic_names_of(topics: Seq<NpcTopicDefinition>) -> Seq<Seq<char>> {
    Seq::new(topics.len(), |i: int| normalized_name(topics[i].name@))
}

/// What is wrong with the `t`-th topic of an NPC: its identifier is blank, malformed or
/// taken by an earlier topic, or its name normalizes to nothing or to an earlier topic's name.
pub open spec fn topic_problem(npc: NpcDefinition, t: int) -> Option<Seq<char>> {
    let topic = npc.topics@[t];
    let name = normalized_name(topic.name@);
    if blank(topic.id@) {
        Some("Topic '"@ + topic.name@ + "' on NPC '"@ + npc.id@ + "' has no id"@)
    } else if !valid_id(topic.id@) {
        Some(
            "Id for topic '"@ + topic.name@ + "' on NPC '"@ + npc.id@ + "' has invalid characters: "@
                + topic.id@,
        )
    } else if topic_ids_of(npc.topics@).take(t).contains(topic.id@) {
        Some("NPC '"@ + npc.id@ + "' has duplicate topic id '"@ + topic.id@ + "'"@)
    } else if name.len() == 0 {
        Some("Topic '"@ + topic.id@ + "' on NPC '"@ + npc.id@ + "' has no targetable name"@)
    } else if topic_names_of(npc.topics@).take(t).contains(name) {
        Some("NPC '"@ + npc.id@ + "' has duplicate normalized topic name '"@ + name + "'"@)
    } else {
        None
    }
}

/// The first problem with an NPC's topics.
pub open spec fn npc_topic_problems(npc: NpcDefinition) -> Option<Seq<char>> {
    first_some(Seq::new(npc.topics@.len(), |t: int| topic_problem(npc, t)))
}

/// Checks the topics of one NPC in order.
fn check_npc_topics(npc: &NpcDefinition) -> (result: Result<(), String>)
    ensures
        result_view(result) == as_result(npc_topic_problems(*npc)),
{
    let ghost problems = Seq::new(npc.topics@.len(), |t: int| topic_problem(*npc, t));
    let mut ids: Vec<String> = Vec::new();
    let mut names: Vec<String> = Vec::new();
    let n = npc.topics.len();
    for t in 0..n
        invariant
            n == npc.topics@.len(),
            problems == Seq::new(npc.topics@.len(), |t: int| topic_problem(*npc, t)),
            forall|k: int| 0 <= k < t ==> problems[k] is None,
            text_views(ids@) == topic_ids_of(npc.topics@).take(t as int),
            text_views(names@) == topic_names_of(npc.topics@).take(t as int),
    {
        let topic = &npc.topics[t];
        let id = topic.id.as_str();
        assert(topic_ids_of(npc.topics@)[t as int] == id@);
        if is_blank(id) {
            let mut text = "Topic '".to_string();
            push_text(&mut text, topic.name.as_str());
            push_text(&mut text, "' on NPC '");
            push_text(&mut text, npc.id.as_str());
            push_text(&mut text, "' has no id");
            proof {
                lemma_first_some(problems, t as int);
            }
            return Err(text);
        }
        if !is_valid_id(id) {
            let mut text = "Id for topic '".to_string();
            push_text(&mut text, topic.name.as_str());
            push_text(&mut text, "' on NPC '");
            push_text(&mut text, npc.id.as_str());
            push_text(&mut text, "' has invalid characters: ");
            push_text(&mut text, id);
            proof {
                lemma_first_some(problems, t as int);
            }
            return Err(text);
        }
        if texts_contain(&ids, id) {
            let mut text = "NPC '".to_string();
            push_text(&mut text, npc.id.as_str());
            push_text(&mut text, "' has duplicate topic id '");
            push_text(&mut text, id);
            push_text(&mut text, "'");
            proof {
                lemma_first_some(problems, t as int);
            }
            return Err(text);
        }
        let name = normalize_name(topic.name.as_str());
        assert(topic_names_of(npc.topics@)[t as int] == name@);
        if name.as_str().is_empty() {
            let mut text = "Topic '".to_string();
            push_text(&mut text, id);
            push_text(&mut text, "' on NPC '");
            push_text(&mut text, npc.id.as_str());
            push_text(&mut text, "' has no targetable name");
            proof {
                lemma_first_some(problems, t as int);
            }
            return Err(text);
        }
        if texts_contain(&names, name.as_str()) {
            let mut text = "NPC '".to_string();
            push_text(&mut text, npc.id.as_str());
            push_text(&mut text, "' has duplicate normalized topic name '");
            push_text(&mut text, name.as_str());
            push_text(&mut text, "'");
            proof {
                lemma_first_some(problems, t as int);
            }
            return Err(text);
        }
        let ghost old_ids = ids@;
        let ghost old_names = names@;
        ids.push(topic.id.clone());
        names.push(name);
        proof {
            assert(text_views(ids@) =~= text_views(old_ids).push(id@));
            assert(topic_ids_of(npc.topics@).take(t + 1) =~= topic_ids_of(npc.topics@).take(
                t as int,
            ).push(id@));
            assert(text_views(names@) =~= text_views(old_names).push(
                topic_names_of(npc.topics@)[t as int],
            ));
            assert(topic_names_of(npc.topics@).take(t + 1) =~= topic_names_of(npc.topics@).take(
                t as int,
            ).push(topic_names_of(npc.topics@)[t as int]));
        }
    }
    proof {
        lemma_first_some(problems, n as int);
    }
    Ok(())
}

/// Checks the topics of every NPC, NPC by NPC.
pub fn validate_npc_topics(world: &WorldDefinition) -> (result: Result<(), String>)
    ensures
        result_view(result) == as_result(
            first_some(Seq::new(world.npcs@.len(), |i: int| npc_topic_problems(world.npcs@[i]))),
        ),
{
    let ghost problems = Seq::new(world.npcs@.len(), |i: int| npc_topic_problems(world.npcs@[i]));
    let n = world.npcs.len();
    for i in 0..n
        invariant
            n == world.npcs@.len(),
            problems == Seq::new(world.npcs@.len(), |i: int| npc_topic_problems(world.npcs@[i])),
            forall|k: int| 0 <= k < i ==> problems[k] is None,
    {
        match check_npc_topics(&world.npcs[i]) {
            Err(e) => {
                proof {
                    lemma_first_some(problems, i as int);
                }
                return Err(e);
            },
            Ok(()) => {},
        }
    }
    proof {
        lemma_first_some(problems, n as int);
    }
    Ok(())
}

/// What is wrong with the `k`-th identifier a topic lists: it names nothing declared, the
/// topic listed it before, or it is among `conflicting`.
pub open spec fn list_problem(
    list: Seq<Seq<char>>,
    declared: Seq<Seq<char>>,
    conflicting: Seq<Seq<char>>,
    head: Seq<char>,
    verb: Seq<char>,
    noun: Seq<char>,
    k: int,
) -> Option<Seq<char>> {
    let id = list[k];
    if !declared.contains(id) {
        Some(head + verb + " missing "@ + noun + " '"@ + id + "'"@)
    } else if list.take(k).contains(id) {
        Some(head + verb + " "@ + noun + " '"@ + id + "' more than once"@)
    } else if conflicting.contains(id) {
        Some(head + " both requires and excludes fact '"@ + id + "'"@)
    } else {
        None
    }
}

/// The first problem with the identifiers a topic lists.
pub open spec fn list_problems(
    list: Seq<Seq<char>>,
    declared: Seq<Seq<char>>,
    conflicting: Seq<Seq<char>>,
    head: Seq<char>,
    verb: Seq<char>,
    noun: Seq<char>,
) -> Option<Seq<char>> {
    first_some(
        Seq::new(
            list.len(),
            |k: int| list_problem(list, declared, conflicting, head, verb, noun, k),
        ),
    )
}

/// Checks the identifiers a topic lists, in order.
fn check_list(
    list: &Vec<String>,
    declared: &Vec<String>,
    conflicting: &Vec<String>,
    head: &str,
    verb: &str,
    noun: &str,
) -> (result: Result<(), String>)
    ensures
        result_view(result) == as_result(
            list_problems(
                text_views(list@),
                text_views(declared@),
                text_views(conflicting@),
                head@,
                verb@,
                noun@,
            ),
        ),
{
    let ghost all = text_views(list@);
    let ghost problems = Seq::new(
        all.len(),
        |k: int|
            list_problem(
                all,
                text_views(declared@),
                text_views(conflicting@),
                head@,
                verb@,
                noun@,
                k,
            ),
    );
    let mut seen: Vec<String> = Vec::new();
    let n = list.len();
    for k in 0..n
        invariant
            n == list@.len(),
            all == text_views(list@),
            problems == Seq::new(
                all.len(),
                |k: int|
                    list_problem(
                        all,
                        text_views(declared@),
                        text_views(conflicting@),
                        head@,
                        verb@,
                        noun@,
                        k,
                    ),
            ),
            forall|j: int| 0 <= j < k ==> problems[j] is None,
            text_views(seen@) == all.take(k as int),
    {
        let id = list[k].as_str();
        assert(all[k as int] == id@);
        if !texts_contain(declared, id) {
            let mut text = head.to_string();
            push_text(&mut text, verb);
            push_text(&mut text, " missing ");
            push_text(&mut text, noun);
            push_text(&mut text, " '");
            push_text(&mut text, id);
            push_text(&mut text, "'");
            proof {
                lemma_first_some(problems, k as int);
            }
            return Err(text);
        }
        if texts_contain(&seen, id) {
            let mut text = head.to_string();
            push_text(&mut text, verb);
            push_text(&mut text, " ");
            push_text(&mut text, noun);
            push_text(&mut text, " '");
            push_text(&mut text, id);
            push_text(&mut text, "' more than once");
            proof {
                lemma_first_some(problems, k as int);
            }
            return Err(text);
        }
        if texts_contain(conflicting, id) {
            let mut text = head.to_string();
            push_text(&mut text, " both requires and excludes fact '");
            push_text(&mut text, id);
            push_text(&mut text, "'");
            proof {
                lemma_first_some(problems, k as int);
            }
            return Err(text);
        }
        let ghost old_seen = seen@;
        seen.push(list[k].clone());
        proof {
            assert(text_views(seen@) =~= text_views(old_seen).push(id@));
            assert(all.take(k + 1) =~= all.take(k as int).push(id@));
        }
    }
    proof {
        lemma_first_some(problems, n as int);
    }
    Ok(())
}

/// How problems with a topic begin: which topic of which NPC.
pub open spec fn topic_head(npc: NpcDefinition, topic: NpcTopicDefinition) -> Seq<char> {
    "Topic '"@ + topic.id@ + "' on NPC '"@ + npc.id@ + "'"@
}

/// How problems with a topic begin.
fn topic_head_text(npc: &NpcDefinition, topic: &NpcTopicDefinition) -> (head: String)
    ensures
        head@ == topic_head(*npc, *topic),
{
    let mut head = "Topic '".to_string();
    push_text(&mut head, topic.id.as_str());
    push_text(&mut head, "' on NPC '");
    push_text(&mut head, npc.id.as_str());
    push_text(&mut head, "'");
    head
}

/// What is wrong with the facts a topic lists: its required, then its excluded, then its
/// granted facts, each checked in order.
pub open spec fn topic_fact_problem(
    declared: Seq<Seq<char>>,
    npc: NpcDefinition,
    topic: NpcTopicDefinition,
) -> Option<Seq<char>> {
    let head = topic_head(npc, topic);
    let none = Seq::<Seq<char>>::empty();
    or_else(
        list_problems(text_views(topic.requires_facts@), declared, none, head, " requires"@, "fact"@),
        or_else(
            list_problems(
                text_views(topic.excludes_facts@),
                declared,
                text_views(topic.requires_facts@),
                head,
                " excludes"@,
                "fact"@,
            ),
            list_problems(text_views(topic.grants_facts@), declared, none, head, " grants"@, "fact"@),
        ),
    )
}

/// What is wrong with the quests a topic starts.
pub open spec fn topic_quest_problem(
    declared: Seq<Seq<char>>,
    npc: NpcDefinition,
    topic: NpcTopicDefinition,
) -> Option<Seq<char>> {
    list_problems(
        text_views(topic.starts_quests@),
        declared,
        Seq::<Seq<char>>::empty(),
        topic_head(npc, topic),
        " starts"@,
        "quest"@,
    )
}

/// Which references of topics a check looks at.
#[derive(Debug, Clone, Copy, PartialEq, Eq)]
pub enum TopicReferences {
    Facts,
    Quests,
}

/// The problem with the references of one kind that a topic makes.
pub open spec fn topic_reference_problem(
    which: TopicReferences,
    declared: Seq<Seq<char>>,
    npc: NpcDefinition,
    topic: NpcTopicDefinition,
) -> Option<Seq<char>> {
    match which {
        TopicReferences::Facts => topic_fact_problem(declared, npc, topic),
        TopicReferences::Quests => topic_quest_problem(declared, npc, topic),
    }
}

/// The first problem, NPC by NPC and topic by topic, with the references of one kind.
pub open spec fn topic_reference_problems(
    which: TopicReferences,
    declared: Seq<Seq<char>>,
    npcs: Seq<NpcDefinition>,
) -> Option<Seq<char>> {
    first_some(
        Seq::new(
            npcs.len(),
            |i: int|
                first_some(
                    Seq::new(
                        npcs[i].topics@.len(),
                        |t: int| topic_reference_problem(which, declared, npcs[i], npcs[i].topics@[t]),
                    ),
                ),
        ),
    )
}

/// Checks the references of one kind that one topic makes.
fn check_topic_references(
    which: TopicReferences,
    declared: &Vec<String>,
    npc: &NpcDefinition,
    topic: &NpcTopicDefinition,
) -> (result: Result<(), String>)
    ensures
        result_view(result) == as_result(
            topic_reference_problem(which, text_views(declared@), *npc, *topic),
        ),
{
    let head = topic_head_text(npc, topic);
    let none: Vec<String> = Vec::new();
    assert(text_views(none@) =~= Seq::<Seq<char>>::empty());
    match which {
        TopicReferences::Facts => {
            match check_list(&topic.requires_facts, declared, &none, head.as_str(), " requires", "fact") {
                Err(e) => {
                    return Err(e);
                },
                Ok(()) => {},
            }
            match check_list(
                &topic.excludes_facts,
                declared,
                &topic.requires_facts,
                head.as_str(),
                " excludes",
                "fact",
            ) {
                Err(e) => {
                    return Err(e);
                },
                Ok(()) => {},
            }
            check_list(&topic.grants_facts, declared, &none, head.as_str(), " grants", "fact")
        },
        TopicReferences::Quests => check_list(
            &topic.starts_quests,
            declared,
            &none,
            head.as_str(),
            " starts",
            "quest",
        ),
    }
}

/// Checks the references of one kind that all topics make, NPC by NPC and topic by topic.
fn check_all_topic_references(
    which: TopicReferences,
    declared: &Vec<String>,
    npcs: &Vec<NpcDefinition>,
) -> (result: Result<(), String>)
    ensures
        result_view(result) == as_result(
            topic_reference_problems(which, text_views(declared@), npcs@),
        ),
{
    let ghost decl = text_views(declared@);
    let ghost outer = Seq::new(
        npcs@.len(),
        |i: int|
            first_some(
                Seq::new(
                    npcs@[i].topics@.len(),
                    |t: int| topic_reference_problem(which, decl, npcs@[i], npcs@[i].topics@[t]),
                ),
            ),
    );
    let n = npcs.len();
    for i in 0..n
        invariant
            n == npcs@.len(),
            decl == text_views(declared@),
            outer == Seq::new(
                npcs@.len(),
                |i: int|
                    first_some(
                        Seq::new(
                            npcs@[i].topics@.len(),
                            |t: int|
                                topic_reference_problem(which, decl, npcs@[i], npcs@[i].topics@[t]),
                        ),
                    ),
            ),
            forall|j: int| 0 <= j < i ==> outer[j] is None,
    {
        let npc = &npcs[i];
        let ghost inner = Seq::new(
            npcs@[i as int].topics@.len(),
            |t: int| topic_reference_problem(which, decl, npcs@[i as int], npcs@[i as int].topics@[t]),
        );
        let m = npc.topics.len();
        for t in 0..m
            invariant
                m == npc.topics@.len(),
                *npc == npcs@[i as int],
                i < n,
                n == npcs@.len(),
                decl == text_views(declared@),
                inner == Seq::new(
                    npcs@[i as int].topics@.len(),
                    |t: int|
                        topic_reference_problem(
                            which,
                            decl,
                            npcs@[i as int],
                            npcs@[i as int].topics@[t],
                        ),
                ),
                forall|j: int| 0 <= j < t ==> inner[j] is None,
                outer == Seq::new(
                    npcs@.len(),
                    |i: int|
                        first_some(
                            Seq::new(
                                npcs@[i].topics@.len(),
                                |t: int|
                                    topic_reference_problem(
                                        which,
                                        decl,
                                        npcs@[i],
                                        npcs@[i].topics@[t],
                                    ),
                            ),
                        ),
                ),
                forall|j: int| 0 <= j < i ==> outer[j] is None,
        {
            match check_topic_references(which, declared, npc, &npc.topics[t]) {
                Err(e) => {
                    proof {
                        lemma_first_some(inner, t as int);
                        lemma_first_some(outer, i as int);
                    }
                    return Err(e);
                },
                Ok(()) => {},
            }
        }
        proof {
            lemma_first_some(inner, m as int);
        }
    }
    proof {
        lemma_first_some(outer, n as int);
    }
    Ok(())
}

/// The identifiers of the declared facts, in order.
fn declared_fact_ids(facts: &Vec<FactDefinition>) -> (ids: Vec<String>)
    ensures
        text_views(ids@) == fact_ids_of(facts@),
{
    let mut ids: Vec<String> = Vec::new();
    for i in 0..facts.len()
        invariant
            ids@.len() == i,
            forall|k: int| 0 <= k < i ==> #[trigger] ids@[k]@ == facts@[k].id@,
    {
        ids.push(facts[i].id.clone());
    }
    assert(text_views(ids@) =~= fact_ids_of(facts@));
    ids
}

/// Checks that topics require, exclude and grant only declared facts, each once, and never
/// both require and exclude one.
pub fn validate_topic_fact_references(world: &WorldDefinition) -> (result: Result<(), String>)
    ensures
        result_view(result) == as_result(
            topic_reference_problems(TopicReferences::Facts, fact_ids_of(world.facts@), world.npcs@),
        ),
{
    let declared = declared_fact_ids(&world.facts);
    check_all_topic_references(TopicReferences::Facts, &declared, &world.npcs)
}

/// Checks that topics start only declared quests, each once.
pub fn validate_topic_quest_references(world: &WorldDefinition) -> (result: Result<(), String>)
    ensures
        result_view(result) == as_result(
            topic_reference_problems(
                TopicReferences::Quests,
                quest_ids_of(world.quests@),
                world.npcs@,
            ),
        ),
{
    let (declared, _names) = quest_ids_and_names(&world.quests);
    check_all_topic_references(TopicReferences::Quests, &declared, &world.npcs)
}


/// The identifiers of a quest's steps, in order.
pub open spec fn step_ids_of(steps: Seq<QuestStepDefinition>) -> Seq<Seq<char>> {
    Seq::new(steps.len(), |j: int| steps[j].id@)
}

/// What is wrong with a step's objective: a room it asks to reach is not defined.
pub open spec fn objective_problem(
    rooms: Seq<RoomDefinition>,
    quest_id: Seq<char>,
    step_id: Seq<char>,
    objective: QuestObjectiveDefinition,
) -> Option<Seq<char>> {
    match objective {
        QuestObjectiveDefinition::ReachRoom { room } => if room_ids_of(rooms).contains(room@) {
            None
        } else {
            Some(
                "Step '"@ + step_id + "' on quest '"@ + quest_id + "' references missing room '"@
                    + room@ + "'"@,
            )
        },
        _ => None,
    }
}

/// What is wrong with how a step names its next step: blank, or malformed.
pub open spec fn next_step_format_problem(
    quest_id: Seq<char>,
    step_id: Seq<char>,
    next_step: Option<String>,
) -> Option<Seq<char>> {
    match next_step {
        None => None,
        Some(next) => if blank(next@) {
            Some("Step '"@ + step_id + "' on quest '"@ + quest_id + "' has an empty next step"@)
        } else if !valid_id(next@) {
            Some(
                "Next step for '"@ + step_id + "' on quest '"@ + quest_id
                    + "' has invalid characters: "@ + next@,
            )
        } else {
            None
        },
    }
}

/// What is wrong with the `j`-th step of a quest, taken on its own.
pub open spec fn step_problem(rooms: Seq<RoomDefinition>, quest: QuestDefinition, j: int) -> Option<
    Seq<char>,
> {
    let step = quest.steps@[j];
    let qid = quest.id@;
    let sid = step.id@;
    if blank(sid) {
        Some("A step on quest '"@ + qid + "' has no id"@)
    } else if !valid_id(sid) {
        Some("Step id on quest '"@ + qid + "' has invalid characters: "@ + sid)
    } else if step_ids_of(quest.steps@).take(j).contains(sid) {
        Some("Quest '"@ + qid + "' has duplicate step id '"@ + sid + "'"@)
    } else if blank(step.description@) {
        Some("Step '"@ + sid + "' on quest '"@ + qid + "' has no description"@)
    } else {
        or_else(
            objective_problem(rooms, qid, sid, step.objective),
            next_step_format_problem(qid, sid, step.next_step),
        )
    }
}

/// The first step of a quest, in order, that has a problem of its own.
pub open spec fn step_problems(rooms: Seq<RoomDefinition>, quest: QuestDefinition) -> Option<
    Seq<char>,
> {
    first_some(Seq::new(quest.steps@.len(), |j: int| step_problem(rooms, quest, j)))
}

/// Checks each step of a quest on its own; gives the step identifiers when all pass.
fn check_steps(rooms: &Vec<RoomDefinition>, quest: &QuestDefinition) -> (result: Result<
    Vec<String>,
    String,
>)
    ensures
        match result {
            Ok(ids) => step_problems(rooms@, *quest) is None && text_views(ids@) == step_ids_of(
                quest.steps@,
            ),
            Err(e) => step_problems(rooms@, *quest) == Some(e@),
        },
{
    let ghost problems = Seq::new(quest.steps@.len(), |j: int| step_problem(rooms@, *quest, j));
    let ghost all_ids = step_ids_of(quest.steps@);
    let qid = quest.id.as_str();
    let mut ids: Vec<String> = Vec::new();
    let n = quest.steps.len();
    for j in 0..n
        invariant
            n == quest.steps@.len(),
            qid@ == quest.id@,
            problems == Seq::new(quest.steps@.len(), |j: int| step_problem(rooms@, *quest, j)),
            all_ids == step_ids_of(quest.steps@),
            forall|k: int| 0 <= k < j ==> problems[k] is None,
            text_views(ids@) == all_ids.take(j as int),
    {
        let step = &quest.steps[j];
        let sid = step.id.as_str();
        assert(all_ids[j as int] == sid@);
        if is_blank(sid) {
            proof {
                lemma_first_some(problems, j as int);
            }
            return Err(quoted_text("A step on quest '", qid, "' has no id"));
        }
        if !is_valid_id(sid) {
            let mut text = "Step id on quest '".to_string();
            push_text(&mut text, qid);
            push_text(&mut text, "' has invalid characters: ");
            push_text(&mut text, sid);
            proof {
                lemma_first_some(problems, j as int);
            }
            return Err(text);
        }
        if texts_contain(&ids, sid) {
            let mut text = "Quest '".to_string();
            push_text(&mut text, qid);
            push_text(&mut text, "' has duplicate step id '");
            push_text(&mut text, sid);
            push_text(&mut text, "'");
            proof {
                lemma_first_some(problems, j as int);
            }
            return Err(text);
        }
        let mut head = "Step '".to_string();
        push_text(&mut head, sid);
        push_text(&mut head, "' on quest '");
        push_text(&mut head, qid);
        if is_blank(step.description.as_str()) {
            push_text(&mut head, "' has no description");
            proof {
                lemma_first_some(problems, j as int);
            }
            return Err(head);
        }
        match &step.objective {
            QuestObjectiveDefinition::ReachRoom { room } => {
                if !room_exists(rooms, room.as_str()) {
                    push_text(&mut head, "' references missing room '");
                    push_text(&mut head, room.as_str());
                    push_text(&mut head, "'");
                    proof {
                        lemma_first_some(problems, j as int);
                    }
                    return Err(head);
                }
            },
            _ => {},
        }
        match &step.next_step {
            Some(next) => {
                if is_blank(next.as_str()) {
                    push_text(&mut head, "' has an empty next step");
                    proof {
                        lemma_first_some(problems, j as int);
                    }
                    return Err(head);
                }
                if !is_valid_id(next.as_str()) {
                    let mut text = "Next step for '".to_string();
                    push_text(&mut text, sid);
                    push_text(&mut text, "' on quest '");
                    push_text(&mut text, qid);
                    push_text(&mut text, "' has invalid characters: ");
                    push_text(&mut text, next.as_str());
                    proof {
                        lemma_first_some(problems, j as int);
                    }
                    return Err(text);
                }
            },
            None => {},
        }
        let ghost old_ids = ids@;
        ids.push(step.id.clone());
        proof {
            assert(text_views(ids@) =~= text_views(old_ids).push(sid@));
            assert(all_ids.take(j + 1) =~= all_ids.take(j as int).push(sid@));
        }
    }
    proof {
        lemma_first_some(problems, n as int);
        assert(all_ids.take(n as int) =~= all_ids);
    }
    Ok(ids)
}

/// What is wrong with the `j`-th step's next step: no step of the quest has that identifier.
pub open spec fn next_reference_problem(quest: QuestDefinition, j: int) -> Option<Seq<char>> {
    let step = quest.steps@[j];
    match step.next_step {
        Some(next) => if step_ids_of(quest.steps@).contains(next@) {
            None
        } else {
            Some(
                "Step '"@ + step.id@ + "' on quest '"@ + quest.id@
                    + "' references missing next step '"@ + next@ + "'"@,
            )
        },
        None => None,
    }
}

/// The first step, in order, whose next step is not a step of the quest.
pub open spec fn next_reference_problems(quest: QuestDefinition) -> Option<Seq<char>> {
    first_some(Seq::new(quest.steps@.len(), |j: int| next_reference_problem(quest, j)))
}

/// Checks that every next step is a step of the quest.
fn check_next_references(quest: &QuestDefinition, ids: &Vec<String>) -> (result: Result<
    (),
    String,
>)
    requires
        text_views(ids@) == step_ids_of(quest.steps@),
    ensures
        result_view(result) == as_result(next_reference_problems(*quest)),
{
    let ghost problems = Seq::new(quest.steps@.len(), |j: int| next_reference_problem(*quest, j));
    let n = quest.steps.len();
    for j in 0..n
        invariant
            n == quest.steps@.len(),
            text_views(ids@) == step_ids_of(quest.steps@),
            problems == Seq::new(quest.steps@.len(), |j: int| next_reference_problem(*quest, j)),
            forall|k: int| 0 <= k < j ==> problems[k] is None,
    {
        let step = &quest.steps[j];
        match &step.next_step {
            Some(next) => {
                if !texts_contain(ids, next.as_str()) {
                    let mut text = "Step '".to_string();
                    push_text(&mut text, step.id.as_str());
                    push_text(&mut text, "' on quest '");
                    push_text(&mut text, quest.id.as_str());
                    push_text(&mut text, "' references missing next step '");
                    push_text(&mut text, next.as_str());
                    push_text(&mut text, "'");
                    proof {
                        lemma_first_some(problems, j as int);
                    }
                    return Err(text);
                }
            },
            None => {},
        }
    }
    proof {
        lemma_first_some(problems, n as int);
    }
    Ok(())
}

/// The next step of the first step with identifier `id`, if it has one.
pub open spec fn next_of(steps: Seq<QuestStepDefinition>, id: Seq<char>) -> Option<Seq<char>>
    decreases steps.len(),
{
    if steps.len() == 0 {
        None
    } else if steps[0].id@ == id {
        crate::game::exit::opt_view(steps[0].next_step)
    } else {
        next_of(steps.drop_first(), id)
    }
}

/// Following next steps from `current`, each step visited once: the steps visited, in
/// order, or the first step reached a second time. `fuel` bounds the number of moves.
pub open spec fn walk(
    steps: Seq<QuestStepDefinition>,
    current: Option<Seq<char>>,
    visited: Seq<Seq<char>>,
    fuel: nat,
) -> Result<Seq<Seq<char>>, Seq<char>>
    decreases fuel,
{
    match current {
        None => Ok(visited),
        Some(id) => if visited.contains(id) {
            Err(id)
        } else if fuel == 0 {
            Ok(visited.push(id))
        } else {
            walk(steps, next_of(steps, id), visited.push(id), (fuel - 1) as nat)
        },
    }
}

/// A next step found by identifier is the next step of some step.
pub proof fn lemma_next_of(steps: Seq<QuestStepDefinition>, id: Seq<char>)
    ensures
        next_of(steps, id) is Some ==> exists|j: int|
            0 <= j < steps.len() && crate::game::exit::opt_view(#[trigger] steps[j].next_step)
                == next_of(steps, id),
    decreases steps.len(),
{
    if steps.len() > 0 && steps[0].id@ != id {
        lemma_next_of(steps.drop_first(), id);
        if next_of(steps, id) is Some {
            let j = choose|j: int|
                0 <= j < steps.drop_first().len() && crate::game::exit::opt_view(
                    #[trigger] steps.drop_first()[j].next_step,
                ) == next_of(steps.drop_first(), id);
            assert(steps[j + 1] == steps.drop_first()[j]);
        }
    }
}

/// The next step of the first step with identifier `id`.
fn next_step_of(steps: &Vec<QuestStepDefinition>, id: &str) -> (next: Option<String>)
    ensures
        crate::game::exit::opt_view(next) == next_of(steps@, id@),
{
    let n = steps.len();
    assert(steps@.skip(0) =~= steps@);
    for k in 0..n
        invariant
            n == steps@.len(),
            next_of(steps@, id@) == next_of(steps@.skip(k as int), id@),
    {
        let ghost rest = steps@.skip(k as int);
        assert(rest[0] == steps@[k as int]);
        assert(rest.drop_first() =~= steps@.skip(k + 1));
        if str_eq(steps[k].id.as_str(), id) {
            return match &steps[k].next_step {
                Some(next) => Some(next.clone()),
                None => None,
            };
        }
    }
    None
}

/// A sequence without repeats whose elements all occur in `t` is no longer than `t`.
proof fn lemma_distinct_within(s: Seq<Seq<char>>, t: Seq<Seq<char>>)
    requires
        s.no_duplicates(),
        forall|x: Seq<char>| s.contains(x) ==> t.contains(x),
    ensures
        s.len() <= t.len(),
{
    s.unique_seq_to_set();
    t.lemma_cardinality_of_set();
    vstd::seq_lib::seq_to_set_is_finite(t);
    assert(s.to_set().subset_of(t.to_set()));
    vstd::set_lib::lemma_len_subset(s.to_set(), t.to_set());
}

/// Follows next steps from the starting step; gives the steps reached, in order, or the error
/// for the first step reached a second time.
fn walk_steps(quest: &QuestDefinition, ids: &Vec<String>) -> (result: Result<Vec<String>, String>)
    requires
        text_views(ids@) == step_ids_of(quest.steps@),
        text_views(ids@).no_duplicates(),
        text_views(ids@).contains(quest.starting_step@),
        next_reference_problems(*quest) is None,
    ensures
        match result {
            Ok(reached) => walk(
                quest.steps@,
                Some(quest.starting_step@),
                Seq::empty(),
                (quest.steps@.len() + 1) as nat,
            ) == Ok::<Seq<Seq<char>>, Seq<char>>(text_views(reached@)),
            Err(e) => exists|at: Seq<char>|
                walk(
                    quest.steps@,
                    Some(quest.starting_step@),
                    Seq::empty(),
                    (quest.steps@.len() + 1) as nat,
                ) == Err::<Seq<Seq<char>>, Seq<char>>(at) && e@ == "Quest '"@ + quest.id@
                    + "' contains a cycle at step '"@ + at + "'"@,
        },
{
    let ghost steps = quest.steps@;
    let ghost total: nat = (steps.len() + 1) as nat;
    let ghost all_ids = text_views(ids@);
    let mut reachable: Vec<String> = Vec::new();
    let mut current: Option<String> = Some(quest.starting_step.clone());
    proof {
        assert(text_views(reachable@) =~= Seq::<Seq<char>>::empty());
        let problems = Seq::new(steps.len(), |j: int| next_reference_problem(*quest, j));
        lemma_first_some_none(problems);
        assert forall|j: int| 0 <= j < steps.len() implies (#[trigger] steps[j].next_step matches Some(
            n,
        ) ==> all_ids.contains(n@)) by {
            assert(problems[j] is None);
        }
    }
    while current.is_some()
        invariant
            steps == quest.steps@,
            total == steps.len() + 1,
            all_ids == text_views(ids@),
            all_ids == step_ids_of(steps),
            walk(steps, Some(quest.starting_step@), Seq::empty(), total) == walk(
                steps,
                crate::game::exit::opt_view(current),
                text_views(reachable@),
                (total - reachable@.len()) as nat,
            ),
            text_views(reachable@).no_duplicates(),
            forall|x: Seq<char>| text_views(reachable@).contains(x) ==> all_ids.contains(x),
            current matches Some(c) ==> all_ids.contains(c@),
            all_ids.no_duplicates(),
            reachable@.len() <= steps.len(),
            forall|j: int|
                0 <= j < steps.len() ==> (#[trigger] steps[j].next_step matches Some(n)
                    ==> all_ids.contains(n@)),
        decreases total - reachable@.len(),
    {
        let step_id = current.take().unwrap();
        if texts_contain(&reachable, step_id.as_str()) {
            let mut text = "Quest '".to_string();
            push_text(&mut text, quest.id.as_str());
            push_text(&mut text, "' contains a cycle at step '");
            push_text(&mut text, step_id.as_str());
            push_text(&mut text, "'");
            return Err(text);
        }
        let ghost before = text_views(reachable@);
        proof {
            let grown = before.push(step_id@);
            assert forall|i: int, j: int|
                0 <= i < grown.len() && 0 <= j < grown.len() && i != j implies grown[i]
                != grown[j] by {
                if j == before.len() {
                    assert(before.contains(before[i]));
                } else if i == before.len() {
                    assert(before.contains(before[j]));
                }
            }
            assert(grown.no_duplicates());
            assert forall|x: Seq<char>| grown.contains(x) implies all_ids.contains(x) by {
                if x != step_id@ {
                    let i = choose|i: int| 0 <= i < grown.len() && grown[i] == x;
                    assert(before[i] == x);
                }
            }
            lemma_distinct_within(grown, all_ids);
            assert(all_ids.len() == steps.len());
        }
        let next = next_step_of(&quest.steps, step_id.as_str());
        proof {
            lemma_next_of(steps, step_id@);
        }
        reachable.push(step_id);
        proof {
            assert(text_views(reachable@) =~= before.push(reachable@.last()@));
        }
        current = next;
    }
    Ok(reachable)
}

/// The first step, in order, that following next steps from the start does not reach.
pub open spec fn unreachable_problems(quest: QuestDefinition, reached: Seq<Seq<char>>) -> Option<
    Seq<char>,
> {
    first_some(
        Seq::new(
            quest.steps@.len(),
            |j: int|
                if reached.contains(quest.steps@[j].id@) {
                    None
                } else {
                    Some(
                        "Step '"@ + quest.steps@[j].id@ + "' on quest '"@ + quest.id@
                            + "' is unreachable from the starting step"@,
                    )
                },
        ),
    )
}


/// What is wrong with where following next steps from the start leads: a step reached twice,
/// or a step not reached at all.
pub open spec fn chain_problem(quest: QuestDefinition) -> Option<Seq<char>> {
    match walk(quest.steps@, Some(quest.starting_step@), Seq::empty(), (quest.steps@.len() + 1) as nat) {
        Err(at) => Some("Quest '"@ + quest.id@ + "' contains a cycle at step '"@ + at + "'"@),
        Ok(reached) => unreachable_problems(quest, reached),
    }
}

/// What is wrong with the `i`-th quest, in the order the checks are made.
pub open spec fn quest_problem(world: WorldDefinition, i: int) -> Option<Seq<char>> {
    let quest = world.quests@[i];
    let qid = quest.id@;
    let start = quest.starting_step@;
    if blank(qid) {
        Some("Quest '"@ + quest.name@ + "' has no id"@)
    } else if !valid_id(qid) {
        Some("Id for quest '"@ + quest.name@ + "' has invalid characters: "@ + qid)
    } else if quest_ids_of(world.quests@).take(i).contains(qid) {
        Some("The quest named "@ + quest.name@ + " has the duplicate id: "@ + qid)
    } else if blank(quest.name@) {
        Some("Quest '"@ + qid + "' has no name"@)
    } else if blank(quest.description@) {
        Some("Quest '"@ + qid + "' has no description"@)
    } else if blank(start) {
        Some("Quest '"@ + qid + "' has no starting step"@)
    } else if !valid_id(start) {
        Some("Starting step for quest '"@ + qid + "' has invalid characters: "@ + start)
    } else if step_problems(world.rooms@, quest) is Some {
        step_problems(world.rooms@, quest)
    } else if !step_ids_of(quest.steps@).contains(start) {
        Some("Quest '"@ + qid + "' references missing starting step '"@ + start + "'"@)
    } else if next_reference_problems(quest) is Some {
        next_reference_problems(quest)
    } else {
        chain_problem(quest)
    }
}

/// The first quest, in order, with a problem.
pub open spec fn quest_problems(world: WorldDefinition) -> Option<Seq<char>> {
    first_some(Seq::new(world.quests@.len(), |i: int| quest_problem(world, i)))
}

/// Checks one quest; `seen` holds the identifiers of the quests before it.
fn check_quest(world: &WorldDefinition, i: usize, seen: &Vec<String>) -> (result: Result<
    (),
    String,
>)
    requires
        i < world.quests@.len(),
        text_views(seen@) == quest_ids_of(world.quests@).take(i as int),
    ensures
        result_view(result) == as_result(quest_problem(*world, i as int)),
{
    let quest = &world.quests[i];
    let qid = quest.id.as_str();
    assert(quest_ids_of(world.quests@)[i as int] == qid@);
    if is_blank(qid) {
        return Err(quoted_text("Quest '", quest.name.as_str(), "' has no id"));
    }
    if !is_valid_id(qid) {
        let mut text = "Id for quest '".to_string();
        push_text(&mut text, quest.name.as_str());
        push_text(&mut text, "' has invalid characters: ");
        push_text(&mut text, qid);
        return Err(text);
    }
    if texts_contain(seen, qid) {
        let mut text = "The quest named ".to_string();
        push_text(&mut text, quest.name.as_str());
        push_text(&mut text, " has the duplicate id: ");
        push_text(&mut text, qid);
        return Err(text);
    }
    if is_blank(quest.name.as_str()) {
        return Err(quoted_text("Quest '", qid, "' has no name"));
    }
    if is_blank(quest.description.as_str()) {
        return Err(quoted_text("Quest '", qid, "' has no description"));
    }
    let start = quest.starting_step.as_str();
    if is_blank(start) {
        return Err(quoted_text("Quest '", qid, "' has no starting step"));
    }
    if !is_valid_id(start) {
        let mut text = "Starting step for quest '".to_string();
        push_text(&mut text, qid);
        push_text(&mut text, "' has invalid characters: ");
        push_text(&mut text, start);
        return Err(text);
    }
    let ids = match check_steps(&world.rooms, quest) {
        Err(e) => {
            return Err(e);
        },
        Ok(ids) => ids,
    };
    if !texts_contain(&ids, start) {
        let mut text = "Quest '".to_string();
        push_text(&mut text, qid);
        push_text(&mut text, "' references missing starting step '");
        push_text(&mut text, start);
        push_text(&mut text, "'");
        return Err(text);
    }
    match check_next_references(quest, &ids) {
        Err(e) => {
            return Err(e);
        },
        Ok(()) => {},
    }
    proof {
        let all = step_ids_of(quest.steps@);
        let problems = Seq::new(quest.steps@.len(), |j: int| step_problem(world.rooms@, *quest, j));
        lemma_first_some_none(problems);
        assert forall|a: int, b: int| 0 <= a < all.len() && 0 <= b < all.len() && a != b implies all[a]
            != all[b] by {
            let (lo, hi) = if a < b {
                (a, b)
            } else {
                (b, a)
            };
            assert(problems[hi] is None);
            assert(all.take(hi)[lo] == all[lo]);
        }
        assert(all.no_duplicates());
    }
    let reached = match walk_steps(quest, &ids) {
        Err(e) => {
            return Err(e);
        },
        Ok(reached) => reached,
    };
    let ghost problems = Seq::new(
        quest.steps@.len(),
        |j: int|
            if text_views(reached@).contains(quest.steps@[j].id@) {
                None
            } else {
                Some(
                    "Step '"@ + quest.steps@[j].id@ + "' on quest '"@ + quest.id@
                        + "' is unreachable from the starting step"@,
                )
            },
    );
    assert(problems =~= Seq::new(
        quest.steps@.len(),
        |j: int|
            if text_views(reached@).contains(quest.steps@[j].id@) {
                None
            } else {
                Some(
                    "Step '"@ + quest.steps@[j].id@ + "' on quest '"@ + quest.id@
                        + "' is unreachable from the starting step"@,
                )
            },
    ));
    assert(quest_problem(*world, i as int) == first_some(problems));
    let n = quest.steps.len();
    for j in 0..n
        invariant
            n == quest.steps@.len(),
            quest_problem(*world, i as int) == first_some(problems),
            qid@ == quest.id@,
            problems == Seq::new(
                quest.steps@.len(),
                |j: int|
                    if text_views(reached@).contains(quest.steps@[j].id@) {
                        None
                    } else {
                        Some(
                            "Step '"@ + quest.steps@[j].id@ + "' on quest '"@ + quest.id@
                                + "' is unreachable from the starting step"@,
                        )
                    },
            ),
            forall|k: int| 0 <= k < j ==> problems[k] is None,
    {
        let step = &quest.steps[j];
        if !texts_contain(&reached, step.id.as_str()) {
            let mut text = "Step '".to_string();
            push_text(&mut text, step.id.as_str());
            push_text(&mut text, "' on quest '");
            push_text(&mut text, qid);
            push_text(&mut text, "' is unreachable from the starting step");
            proof {
                lemma_first_some(problems, j as int);
            }
            return Err(text);
        }
    }
    proof {
        lemma_first_some(problems, n as int);
    }
    Ok(())
}

/// Checks the quests in order: identifiers, names, descriptions and starting steps, then
/// each step, then that following next steps from the start reaches every step exactly once.
pub fn validate_quests(world: &WorldDefinition) -> (result: Result<(), String>)
    ensures
        result_view(result) == as_result(quest_problems(*world)),
        result is Ok ==> super::laws::quests_well_formed(*world),
{
    let ghost problems = Seq::new(world.quests@.len(), |i: int| quest_problem(*world, i));
    let mut seen: Vec<String> = Vec::new();
    let n = world.quests.len();
    for i in 0..n
        invariant
            n == world.quests@.len(),
            problems == Seq::new(world.quests@.len(), |i: int| quest_problem(*world, i)),
            forall|k: int| 0 <= k < i ==> problems[k] is None,
            text_views(seen@) == quest_ids_of(world.quests@).take(i as int),
    {
        match check_quest(world, i, &seen) {
            Err(e) => {
                proof {
                    lemma_first_some(problems, i as int);
                }
                return Err(e);
            },
            Ok(()) => {},
        }
        let ghost old_seen = seen@;
        seen.push(world.quests[i].id.clone());
        proof {
            let ids = quest_ids_of(world.quests@);
            assert(text_views(seen@) =~= text_views(old_seen).push(ids[i as int]));
            assert(ids.take(i + 1) =~= ids.take(i as int).push(ids[i as int]));
        }
    }
    proof {
        lemma_first_some(problems, n as int);
        super::laws::law_valid_quests_are_well_formed(*world);
    }
    Ok(())
}


/// The checks a world definition must pass, in the order they are made.
pub open spec fn world_checks(world: WorldDefinition) -> Seq<Option<Seq<char>>> {
    seq![
        world_id_problem(world.id@),
        id_problems(item_ids_of(world.items@), item_names_of(world.items@), "Item"@, "item"@),
        duplicate_problems(item_ids_of(world.items@), item_names_of(world.items@), "item"@),
        id_problems(feature_ids_of(world.features@), feature_names_of(world.features@), "Feature"@, "feature"@),
        duplicate_problems(feature_ids_of(world.features@), feature_names_of(world.features@), "feature"@),
        reference_problems(world.rooms@, RoomList::Features, feature_ids_of(world.features@), "feature"@),
        placement_problems(world.rooms@, RoomList::Features, "Feature"@),
        id_problems(npc_ids_of(world.npcs@), npc_names_of(world.npcs@), "NPC"@, "NPC"@),
        duplicate_problems(npc_ids_of(world.npcs@), npc_names_of(world.npcs@), "NPC"@),
        first_some(Seq::new(world.npcs@.len(), |i: int| npc_topic_problems(world.npcs@[i]))),
        first_some(Seq::new(world.facts@.len(), |i: int| fact_problem(world.facts@, i))),
        quest_problems(world),
        topic_reference_problems(TopicReferences::Facts, fact_ids_of(world.facts@), world.npcs@),
        topic_reference_problems(TopicReferences::Quests, quest_ids_of(world.quests@), world.npcs@),
        reference_problems(world.rooms@, RoomList::Npcs, npc_ids_of(world.npcs@), "NPC"@),
        placement_problems(world.rooms@, RoomList::Npcs, "NPC"@),
        reference_problems(world.rooms@, RoomList::Items, item_ids_of(world.items@), "item"@),
        placement_problems(world.rooms@, RoomList::Items, "Item"@),
        blank_room_id_problems(world.rooms@),
        room_id_format_problems(world.rooms@),
        duplicate_problems(room_ids_of(world.rooms@), room_names_of(world.rooms@), "room"@),
        exit_direction_problems(world.rooms@),
        exit_destination_problems(world.rooms@),
        starting_room_problem(world),
    ]
}

/// The first problem with a world definition, in the order the checks are made.
pub open spec fn world_problem(world: WorldDefinition) -> Option<Seq<char>> {
    first_some(world_checks(world))
}

/// Checks a world definition: its identifier; its items, features and non-player
/// characters with their topics; its facts and quests; what the topics refer to; what the
/// rooms list; the rooms' identifiers and exits; and the starting room. The error is that of
/// the first check that fails.
pub fn validate_world(world: &WorldDefinition) -> (result: Result<(), String>)
    ensures
        result_view(result) == as_result(world_problem(*world)),
        result is Ok ==> super::laws::world_well_formed(*world),
{
    let ghost checks = world_checks(*world);
    match validate_world_id(world) {
        Err(e) => {
            proof {
                lemma_first_some(checks, 0);
            }
            return Err(e);
        },
        Ok(()) => {},
    }
    assert(checks[0] is None);
    match validate_item_ids(world) {
        Err(e) => {
            proof {
                lemma_first_some(checks, 1);
            }
            return Err(e);
        },
        Ok(()) => {},
    }
    assert(checks[1] is None);
    match validate_unique_item_ids(world) {
        Err(e) => {
            proof {
                lemma_first_some(checks, 2);
            }
            return Err(e);
        },
        Ok(()) => {},
    }
    assert(checks[2] is None);
    match validate_feature_ids(world) {
        Err(e) => {
            proof {
                lemma_first_some(checks, 3);
            }
            return Err(e);
        },
        Ok(()) => {},
    }
    assert(checks[3] is None);
    match validate_unique_feature_ids(world) {
        Err(e) => {
            proof {
                lemma_first_some(checks, 4);
            }
            return Err(e);
        },
        Ok(()) => {},
    }
    assert(checks[4] is None);
    match validate_room_feature_references(world) {
        Err(e) => {
            proof {
                lemma_first_some(checks, 5);
            }
            return Err(e);
        },
        Ok(()) => {},
    }
    assert(checks[5] is None);
    match validate_unique_feature_placements(world) {
        Err(e) => {
            proof {
                lemma_first_some(checks, 6);
            }
            return Err(e);
        },
        Ok(()) => {},
    }
    assert(checks[6] is None);
    match validate_npc_ids(world) {
        Err(e) => {
            proof {
                lemma_first_some(checks, 7);
            }
            return Err(e);
        },
        Ok(()) => {},
    }
    assert(checks[7] is None);
    match validate_unique_npc_ids(world) {
        Err(e) => {
            proof {
                lemma_first_some(checks, 8);
            }
            return Err(e);
        },
        Ok(()) => {},
    }
    assert(checks[8] is None);
    match validate_npc_topics(world) {
        Err(e) => {
            proof {
                lemma_first_some(checks, 9);
            }
            return Err(e);
        },
        Ok(()) => {},
    }
    assert(checks[9] is None);
    match validate_fact_ids(world) {
        Err(e) => {
            proof {
                lemma_first_some(checks, 10);
            }
            return Err(e);
        },
        Ok(()) => {},
    }
    assert(checks[10] is None);
    match validate_quests(world) {
        Err(e) => {
            proof {
                lemma_first_some(checks, 11);
            }
            return Err(e);
        },
        Ok(()) => {},
    }
    assert(checks[11] is None);
    match validate_topic_fact_references(world) {
        Err(e) => {
            proof {
                lemma_first_some(checks, 12);
            }
            return Err(e);
        },
        Ok(()) => {},
    }
    assert(checks[12] is None);
    match validate_topic_quest_references(world) {
        Err(e) => {
            proof {
                lemma_first_some(checks, 13);
            }
            return Err(e);
        },
        Ok(()) => {},
    }
    assert(checks[13] is None);
    match validate_room_npc_references(world) {
        Err(e) => {
            proof {
                lemma_first_some(checks, 14);
            }
            return Err(e);
        },
        Ok(()) => {},
    }
    assert(checks[14] is None);
    match validate_unique_npc_placements(world) {
        Err(e) => {
            proof {
                lemma_first_some(checks, 15);
            }
            return Err(e);
        },
        Ok(()) => {},
    }
    assert(checks[15] is None);
    match validate_room_item_references(world) {
        Err(e) => {
            proof {
                lemma_first_some(checks, 16);
            }
            return Err(e);
        },
        Ok(()) => {},
    }
    assert(checks[16] is None);
    match validate_unique_item_placements(world) {
        Err(e) => {
            proof {
                lemma_first_some(checks, 17);
            }
            return Err(e);
        },
        Ok(()) => {},
    }
    assert(checks[17] is None);
    match validate_non_empty_room_ids(world) {
        Err(e) => {
            proof {
                lemma_first_some(checks, 18);
            }
            return Err(e);
        },
        Ok(()) => {},
    }
    assert(checks[18] is None);
    match validate_room_id_formats(world) {
        Err(e) => {
            proof {
                lemma_first_some(checks, 19);
            }
            return Err(e);
        },
        Ok(()) => {},
    }
    assert(checks[19] is None);
    match validate_unique_room_ids(world) {
        Err(e) => {
            proof {
                lemma_first_some(checks, 20);
            }
            return Err(e);
        },
        Ok(()) => {},
    }
    assert(checks[20] is None);
    match validate_exit_directions(world) {
        Err(e) => {
            proof {
                lemma_first_some(checks, 21);
            }
            return Err(e);
        },
        Ok(()) => {},
    }
    assert(checks[21] is None);
    match validate_exit_destinations(world) {
        Err(e) => {
            proof {
                lemma_first_some(checks, 22);
            }
            return Err(e);
        },
        Ok(()) => {},
    }
    assert(checks[22] is None);
    match validate_starting_room(world) {
        Err(e) => {
            proof {
                lemma_first_some(checks, 23);
            }
            return Err(e);
        },
        Ok(()) => {},
    }
    assert(checks[23] is None);
    proof {
        lemma_first_some(checks, 24);
        super::laws::law_valid_world_is_well_formed(*world);
    }
    Ok(())
}

} // verus!
