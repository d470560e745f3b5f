use vstd::prelude::*;

use crate::game::command::TargetKind;
use crate::game::direction::{direction_name, direction_word, Direction};
use crate::game::event::{
    AskFailureReason, AskFailureReasonView, DropFailureReason, ExamineFailureReason,
    ExamineFailureReasonView, ExaminedFeatureView, GameEvent, GameEventView, ObservedFeature,
    ObservedFeatureView, ObservedItem, ObservedItemView, ObservedNpc, ObservedNpcView,
    ObservedQuest, ObservedQuestView, PutOnFailureReason, PutOnFailureReasonView,
    TakeFailureReason, TalkFailureReason, text_views,
};
use crate::game::exit::views;
use crate::order::{
    law_sorted_by_text_orders_the_same_values, law_sorting_texts_ignores_their_order,
    lemma_map_keeps_same_elements, seq_views, sort_by_text, sorted_by_text, text_sorted,
};
use crate::text::{join, push_char, push_text};

verus! {

/// The digit that writes a number below ten.
pub open spec fn digit_char(d: nat) -> char {
    if d == 0 {
        '0'
    } else if d == 1 {
        '1'
    } else if d == 2 {
        '2'
    } else if d == 3 {
        '3'
    } else if d == 4 {
        '4'
    } else if d == 5 {
        '5'
    } else if d == 6 {
        '6'
    } else if d == 7 {
        '7'
    } else if d == 8 {
        '8'
    } else {
        '9'
    }
}

/// A number written in decimal, without leading zeros.
pub open spec fn decimal_text(n: nat) -> Seq<char>
    decreases n,
{
    if n < 10 {
        seq![digit_char(n)]
    } else {
        decimal_text(n / 10).push(digit_char(n % 10))
    }
}

/// A number written in decimal.
pub fn decimal_string(n: usize) -> (s: String)
    ensures
        s@ == decimal_text(n as nat),
    decreases n,
{
    let d = n % 10;
    let c = if d == 0 {
        '0'
    } else if d == 1 {
        '1'
    } else if d == 2 {
        '2'
    } else if d == 3 {
        '3'
    } else if d == 4 {
        '4'
    } else if d == 5 {
        '5'
    } else if d == 6 {
        '6'
    } else if d == 7 {
        '7'
    } else if d == 8 {
        '8'
    } else {
        '9'
    };
    let mut s = if n < 10 {
        String::new()
    } else {
        decimal_string(n / 10)
    };
    push_char(&mut s, c);
    proof {
        if n < 10 {
            assert(s@ =~= seq![digit_char(n as nat)]);
        }
    }
    s
}

/// Names in sorted order joined by commas, or `none` when there are none.
pub open spec fn names_text(names: Seq<Seq<char>>) -> Seq<char> {
    if names.len() == 0 {
        "none"@
    } else {
        join(sorted_by_text::<String>(names), ", "@)
    }
}

/// The names of the items, in order.
pub open spec fn item_names(items: Seq<ObservedItemView>) -> Seq<Seq<char>> {
    Seq::new(items.len(), |i: int| items[i].name)
}

/// The words of the directions, in order.
pub open spec fn exit_names(exits: Seq<Direction>) -> Seq<Seq<char>> {
    Seq::new(exits.len(), |i: int| direction_word(exits[i]))
}

/// The lines a feature adds to a room's description: its own line, then, when something
/// lies on it, a line naming those things.
pub open spec fn feature_own_lines(f: ObservedFeatureView) -> Seq<Seq<char>> {
    if f.items.len() == 0 {
        seq![f.room_description]
    } else {
        seq![f.room_description, "On "@ + f.name + ": "@ + join(item_names(f.items), ", "@)]
    }
}

/// The lines all features add, in order.
pub open spec fn feature_lines(features: Seq<ObservedFeatureView>) -> Seq<Seq<char>>
    decreases features.len(),
{
    if features.len() == 0 {
        Seq::empty()
    } else {
        feature_lines(features.drop_last()) + feature_own_lines(features.last())
    }
}

/// The lines the non-player characters add, in order.
pub open spec fn npc_lines(npcs: Seq<ObservedNpcView>) -> Seq<Seq<char>> {
    Seq::new(npcs.len(), |i: int| npcs[i].room_description)
}

/// Lines, each on a new line, or nothing when there are none.
pub open spec fn paragraph(lines: Seq<Seq<char>>) -> Seq<char> {
    if lines.len() == 0 {
        Seq::empty()
    } else {
        "\n"@ + join(lines, "\n"@)
    }
}

/// What a room looks like: its name, its description, its features, who is there, what lies
/// there and where one can go.
pub open spec fn room_text(
    name: Seq<char>,
    description: Seq<char>,
    items: Seq<ObservedItemView>,
    features: Seq<ObservedFeatureView>,
    npcs: Seq<ObservedNpcView>,
    exits: Seq<Direction>,
) -> Seq<char> {
    name + "\n"@ + description + paragraph(feature_lines(features)) + paragraph(npc_lines(npcs))
        + "\nItems: "@ + names_text(item_names(items)) + "\nExits: "@ + names_text(
        exit_names(exits),
    )
}

/// One numbered choice of what a player may have meant.
pub open spec fn choice_line(number: nat, query: Seq<char>, kind: Seq<char>) -> Seq<char> {
    decimal_text(number) + ". "@ + query + " ("@ + kind + ")"@
}

/// The choices numbered one to `count`, all of one kind, one per line.
pub open spec fn numbered_choices(count: nat, query: Seq<char>, kind: Seq<char>) -> Seq<char> {
    join(Seq::new(count, |i: int| choice_line((i + 1) as nat, query, kind)), "\n"@)
}

/// The word for a kind of target.
pub open spec fn kind_word(kind: TargetKind) -> Seq<char> {
    match kind {
        TargetKind::Item => "item"@,
        TargetKind::Feature => "feature"@,
        TargetKind::Npc => "npc"@,
    }
}

/// The choices numbered from one, each of its own kind, one per line.
pub open spec fn kind_choices(kinds: Seq<TargetKind>, query: Seq<char>) -> Seq<char> {
    join(
        Seq::new(kinds.len(), |i: int| choice_line((i + 1) as nat, query, kind_word(kinds[i]))),
        "\n"@,
    )
}

/// A quest as the journal lists it.
pub open spec fn quest_entry(q: ObservedQuestView) -> Seq<char> {
    match q.current_objective {
        Some(objective) => "- "@ + q.name + "\n  "@ + q.description + "\n  Current objective: "@
            + objective,
        None => "- "@ + q.name + "\n  "@ + q.description,
    }
}

/// Quests as the journal lists them, one after the other.
pub open spec fn quest_entries(quests: Seq<ObservedQuestView>) -> Seq<char> {
    join(Seq::new(quests.len(), |i: int| quest_entry(quests[i])), "\n"@)
}

/// The quest journal: a section of active quests and one of completed quests, each present
/// only when it has quests.
pub open spec fn journal_text(
    active: Seq<ObservedQuestView>,
    completed: Seq<ObservedQuestView>,
) -> Seq<char> {
    let active_section = "Active quests:\n"@ + quest_entries(active);
    let completed_section = "Completed quests:\n"@ + quest_entries(completed);
    if active.len() == 0 && completed.len() == 0 {
        "Quests: none"@
    } else if completed.len() == 0 {
        active_section
    } else if active.len() == 0 {
        completed_section
    } else {
        active_section + "\n"@ + completed_section
    }
}

/// The line about a quest's current objective, when it has one.
pub open spec fn objective_line(objective: Option<Seq<char>>) -> Seq<char> {
    match objective {
        Some(o) => "\nCurrent objective: "@ + o,
        None => Seq::empty(),
    }
}

/// What a character says, in quotes.
pub open spec fn speech(name: Seq<char>, words: Seq<char>) -> Seq<char> {
    name + " says, \""@ + words + "\""@
}

/// The text of the command list.
pub open spec fn help_text() -> Seq<char> {
    "Commands:\n  look (l)\n  look [item|feature|npc] <target>\n  examine (x) [item|feature|npc] <target>\n  north (n), south (s), east (e), west (w)\n  go <direction>\n  exits\n  take (get) <item>\n  drop <item>\n  put <item> on <feature>\n  inventory (inv, i)\n  quests (journal)\n  talk to <npc>\n  ask <npc> about <topic>\n  help (commands)\n  quit (exit)"@
}


/// What the player is told of a failed take.
pub open spec fn take_failed_text(query: Seq<char>, reason: TakeFailureReason) -> Seq<char> {
    match reason {
        TakeFailureReason::NotFound => "You do not see '"@ + query + "' here."@,
        TakeFailureReason::Ambiguous { match_count } => "More than one item matches '"@ + query
            + "':\n"@ + numbered_choices(match_count as nat, query, "item"@) + "\nTry 'take 1 "@
            + query + "' or another listed number."@,
        TakeFailureReason::OrdinalOutOfRange { requested, available } => "There is no #"@
            + decimal_text(requested as nat) + " '"@ + query + "' here; "@ + decimal_text(
            available as nat,
        ) + " matched."@,
    }
}

/// What the player is told of a failed drop.
pub open spec fn drop_failed_text(query: Seq<char>, reason: DropFailureReason) -> Seq<char> {
    match reason {
        DropFailureReason::NotFound => "You are not carrying '"@ + query + "'."@,
        DropFailureReason::Ambiguous { match_count } => "More than one carried item matches '"@
            + query + "':\n"@ + numbered_choices(match_count as nat, query, "item"@)
            + "\nTry 'drop 1 "@ + query + "' or another listed number."@,
        DropFailureReason::OrdinalOutOfRange { requested, available } =>
            "You are not carrying a #"@ + decimal_text(requested as nat) + " '"@ + query + "'; "@
            + decimal_text(available as nat) + " matched."@,
    }
}

/// What the player is told when an item cannot be put on a feature.
pub open spec fn put_on_failed_text(
    item_query: Seq<char>,
    feature_query: Seq<char>,
    reason: PutOnFailureReasonView,
) -> Seq<char> {
    match reason {
        PutOnFailureReasonView::ItemNotFound => "You are not carrying '"@ + item_query + "'."@,
        PutOnFailureReasonView::ItemAmbiguous { match_count } =>
            "More than one carried item matches '"@ + item_query + "':\n"@ + numbered_choices(
            match_count as nat,
            item_query,
            "item"@,
        ) + "\nTry 'put 1 "@ + item_query + " on "@ + feature_query
            + "' or another listed number."@,
        PutOnFailureReasonView::ItemOrdinalOutOfRange { requested, available } =>
            "There is no #"@ + decimal_text(requested as nat) + " '"@ + item_query
            + "' in your inventory; "@ + decimal_text(available as nat) + " matched."@,
        PutOnFailureReasonView::FeatureNotFound => "You do not see '"@ + feature_query
            + "' here."@,
        PutOnFailureReasonView::FeatureAmbiguous { match_count } =>
            "More than one feature matches '"@ + feature_query + "':\n"@ + numbered_choices(
            match_count as nat,
            feature_query,
            "feature"@,
        ) + "\nTry 'put "@ + item_query + " on 1 "@ + feature_query
            + "' or another listed number."@,
        PutOnFailureReasonView::FeatureOrdinalOutOfRange { requested, available } =>
            "There is no #"@ + decimal_text(requested as nat) + " '"@ + feature_query
            + "' here; "@ + decimal_text(available as nat) + " matched."@,
        PutOnFailureReasonView::NotSupporter { feature_name } => "You cannot put things on "@
            + feature_name + "."@,
        PutOnFailureReasonView::Rejected { message } => message,
        PutOnFailureReasonView::Full { message } => message,
    }
}

/// What the player is told when no one could be talked to.
pub open spec fn talk_failed_text(query: Seq<char>, reason: TalkFailureReason) -> Seq<char> {
    match reason {
        TalkFailureReason::NotFound => "You do not see '"@ + query + "' here to talk to."@,
        TalkFailureReason::Ambiguous { match_count } => "More than one NPC matches '"@ + query
            + "':\n"@ + numbered_choices(match_count as nat, query, "npc"@) + "\nTry 'talk to 1 "@
            + query + "' or another listed number."@,
        TalkFailureReason::OrdinalOutOfRange { requested, available } => "There is no #"@
            + decimal_text(requested as nat) + " '"@ + query + "' here; "@ + decimal_text(
            available as nat,
        ) + " NPCs matched."@,
    }
}

/// What the player is told when a question got no answer.
pub open spec fn ask_failed_text(
    npc_query: Seq<char>,
    topic_query: Seq<char>,
    reason: AskFailureReasonView,
) -> Seq<char> {
    match reason {
        AskFailureReasonView::NpcNotFound => "You do not see '"@ + npc_query + "' here to ask."@,
        AskFailureReasonView::NpcAmbiguous { match_count } => "More than one NPC matches '"@
            + npc_query + "':\n"@ + numbered_choices(match_count as nat, npc_query, "npc"@)
            + "\nTry 'ask 1 "@ + npc_query + " about "@ + topic_query
            + "' or another listed number."@,
        AskFailureReasonView::NpcOrdinalOutOfRange { requested, available } => "There is no #"@
            + decimal_text(requested as nat) + " '"@ + npc_query + "' here; "@ + decimal_text(
            available as nat,
        ) + " NPCs matched for the topic '"@ + topic_query + "'."@,
        AskFailureReasonView::TopicNotFound { npc_name } => npc_name
            + " has nothing to say about '"@ + topic_query + "'."@,
    }
}

/// What the player is told when nothing could be examined.
pub open spec fn examine_failed_text(query: Seq<char>, reason: ExamineFailureReasonView) -> Seq<
    char,
> {
    match reason {
        ExamineFailureReasonView::NotFound => "You cannot find '"@ + query + "' to examine."@,
        ExamineFailureReasonView::Ambiguous { kinds } =>
            "More than one accessible target matches '"@ + query + "':\n"@ + kind_choices(
            kinds,
            query,
        ) + "\nTry 'examine 1 "@ + query + "', 'examine item "@ + query
            + "', 'examine feature "@ + query + "', or 'examine npc "@ + query + "'."@,
        ExamineFailureReasonView::OrdinalOutOfRange { requested, available } =>
            "There is no accessible #"@ + decimal_text(requested as nat) + " '"@ + query + "'; "@
            + decimal_text(available as nat) + " matched."@,
    }
}

/// What a feature looks like when examined, with what lies on it.
pub open spec fn examined_feature_text(feature: ExaminedFeatureView) -> Seq<char> {
    if feature.items.len() == 0 {
        feature.name + "\n"@ + feature.description
    } else {
        feature.name + "\n"@ + feature.description + "\nOn it: "@ + join(
            item_names(feature.items),
            ", "@,
        )
    }
}

/// What a character says on being greeted, and what one could ask about.
pub open spec fn greeting_text(name: Seq<char>, greeting: Seq<char>, topics: Seq<Seq<char>>) -> Seq<
    char,
> {
    if topics.len() == 0 {
        speech(name, greeting)
    } else {
        speech(name, greeting) + "\nYou could ask "@ + name + " about: "@ + join(topics, ", "@)
            + "."@
    }
}

/// What a character answers, and how the topics changed, when they did.
pub open spec fn answer_text(
    npc_name: Seq<char>,
    response: Seq<char>,
    updated_topics: Option<Seq<Seq<char>>>,
) -> Seq<char> {
    match updated_topics {
        None => speech(npc_name, response),
        Some(topics) => if topics.len() == 0 {
            speech(npc_name, response) + "\nThere are no remaining discussion topics."@
        } else {
            speech(npc_name, response) + "\nYou could now ask "@ + npc_name + " about: "@ + join(
                topics,
                ", "@,
            ) + "."@
        },
    }
}

/// The text the player is shown for an event.
pub open spec fn event_text(event: GameEventView) -> Seq<char> {
    match event {
        GameEventView::RoomObserved { name, description, items, features, npcs, exits, .. } =>
            room_text(name, description, items, features, npcs, exits),
        GameEventView::ExitsObserved { exits, .. } => "Exits: "@ + names_text(exit_names(exits)),
        GameEventView::HelpRequested => help_text(),
        GameEventView::CharacterMoved { direction, .. } => "You move "@ + direction_word(direction)
            + "."@,
        GameEventView::MovementFailed { direction, .. } => "You cannot go "@ + direction_word(
            direction,
        ) + "."@,
        GameEventView::MovementBlocked { message, .. } => message,
        GameEventView::ItemTaken { item, .. } => "You take "@ + item.name + "."@,
        GameEventView::TakeFailed { query, reason, .. } => take_failed_text(query, reason),
        GameEventView::InventoryObserved { items } => "Inventory: "@ + names_text(
            item_names(items),
        ),
        GameEventView::QuestsObserved { active, completed } => journal_text(active, completed),
        GameEventView::QuestStarted { quest, .. } => "Quest started: "@ + quest.name + "\n"@
            + quest.description + objective_line(quest.current_objective),
        GameEventView::QuestAdvanced { quest, .. } => "Quest updated: "@ + quest.name
            + objective_line(quest.current_objective),
        GameEventView::QuestCompleted { quest, .. } => "Quest completed: "@ + quest.name,
        GameEventView::ItemDropped { item, .. } => "You drop "@ + item.name + "."@,
        GameEventView::DropFailed { query, reason, .. } => drop_failed_text(query, reason),
        GameEventView::ItemPlacedOnFeature { item, feature_name, .. } => "You put "@ + item.name
            + " on "@ + feature_name + "."@,
        GameEventView::PutOnFailed { item_query, feature_query, reason, .. } => put_on_failed_text(
            item_query,
            feature_query,
            reason,
        ),
        GameEventView::ItemExamined { item, .. } => item.name + "\n"@ + item.description,
        GameEventView::FeatureExamined { feature, .. } => examined_feature_text(feature),
        GameEventView::NpcExamined { npc, .. } => npc.name + "\n"@ + npc.description,
        GameEventView::NpcSpoke { name, greeting, topics, .. } => greeting_text(
            name,
            greeting,
            topics,
        ),
        GameEventView::TalkFailed { query, reason, .. } => talk_failed_text(query, reason),
        GameEventView::NpcAnswered { npc_name, response, updated_topics, .. } => answer_text(
            npc_name,
            response,
            updated_topics,
        ),
        GameEventView::AskFailed { npc_query, topic_query, reason, .. } => ask_failed_text(
            npc_query,
            topic_query,
            reason,
        ),
        GameEventView::ExamineFailed { query, reason, .. } => examine_failed_text(query, reason),
    }
}


/// The texts joined, with `sep` between each two.
pub fn join_texts(parts: &Vec<String>, sep: &str) -> (out: String)
    ensures
        out@ == join(seq_views(parts@), sep@),
{
    let ghost all = seq_views(parts@);
    let mut out = String::new();
    let n = parts.len();
    for i in 0..n
        invariant
            n == parts@.len(),
            all == seq_views(parts@),
            out@ == join(all.take(i as int), sep@),
    {
        let ghost before = all.take(i as int);
        if i > 0 {
            push_text(&mut out, sep);
        }
        push_text(&mut out, parts[i].as_str());
        proof {
            let after = all.take(i + 1);
            assert(after.drop_last() =~= before);
            assert(after.last() == parts@[i as int]@);
            if i == 0 {
                assert(out@ =~= parts@[0]@);
            }
        }
    }
    assert(all.take(n as int) =~= all);
    out
}

/// Names in sorted order joined by commas, or `none` when there are none.
pub fn names_listing(names: Vec<String>) -> (out: String)
    ensures
        out@ == names_text(seq_views(names@)),
{
    if names.len() == 0 {
        return "none".to_string();
    }
    let sorted = sort_by_text(names);
    join_texts(&sorted, ", ")
}

/// The names of the items, in order.
pub fn item_name_texts(items: &Vec<ObservedItem>) -> (names: Vec<String>)
    ensures
        seq_views(names@) == item_names(views(items@)),
{
    let mut names: Vec<String> = Vec::new();
    let n = items.len();
    for i in 0..n
        invariant
            n == items@.len(),
            names@.len() == i,
            forall|k: int| 0 <= k < i ==> #[trigger] names@[k]@ == items@[k].name@,
    {
        names.push(items[i].name.clone());
    }
    assert(seq_views(names@) =~= item_names(views(items@)));
    names
}

/// The words of the directions, in order.
pub fn exit_name_texts(exits: &Vec<Direction>) -> (names: Vec<String>)
    ensures
        seq_views(names@) == exit_names(exits@),
{
    let mut names: Vec<String> = Vec::new();
    let n = exits.len();
    for i in 0..n
        invariant
            n == exits@.len(),
            names@.len() == i,
            forall|k: int| 0 <= k < i ==> #[trigger] names@[k]@ == direction_word(exits@[k]),
    {
        names.push(direction_name(&exits[i]).to_string());
    }
    assert(seq_views(names@) =~= exit_names(exits@));
    names
}

/// The lines all features add to a room's description, in order.
pub fn feature_line_texts(features: &Vec<ObservedFeature>) -> (lines: Vec<String>)
    ensures
        seq_views(lines@) == feature_lines(views(features@)),
{
    let ghost all = views(features@);
    let mut lines: Vec<String> = Vec::new();
    let n = features.len();
    assert(all.take(0) =~= Seq::<ObservedFeatureView>::empty());
    assert(seq_views(lines@) =~= Seq::<Seq<char>>::empty());
    for i in 0..n
        invariant
            n == features@.len(),
            all == views(features@),
            seq_views(lines@) == feature_lines(all.take(i as int)),
    {
        let feature = &features[i];
        let ghost before = seq_views(lines@);
        lines.push(feature.room_description.clone());
        if feature.items.len() > 0 {
            let mut on = "On ".to_string();
            push_text(&mut on, feature.name.as_str());
            push_text(&mut on, ": ");
            let names = item_name_texts(&feature.items);
            let listed = join_texts(&names, ", ");
            push_text(&mut on, listed.as_str());
            lines.push(on);
        }
        proof {
            let after = all.take(i + 1);
            assert(after.drop_last() =~= all.take(i as int));
            assert(after.last() == feature@);
            assert(seq_views(lines@) =~= before + feature_own_lines(feature@));
        }
    }
    assert(all.take(n as int) =~= all);
    lines
}

/// The lines the non-player characters add to a room's description, in order.
pub fn npc_line_texts(npcs: &Vec<ObservedNpc>) -> (lines: Vec<String>)
    ensures
        seq_views(lines@) == npc_lines(views(npcs@)),
{
    let mut lines: Vec<String> = Vec::new();
    let n = npcs.len();
    for i in 0..n
        invariant
            n == npcs@.len(),
            lines@.len() == i,
            forall|k: int| 0 <= k < i ==> #[trigger] lines@[k]@ == npcs@[k].room_description@,
    {
        lines.push(npcs[i].room_description.clone());
    }
    assert(seq_views(lines@) =~= npc_lines(views(npcs@)));
    lines
}

/// Lines, each on a new line, or nothing when there are none.
pub fn paragraph_string(lines: &Vec<String>) -> (out: String)
    ensures
        out@ == paragraph(seq_views(lines@)),
{
    if lines.len() == 0 {
        return String::new();
    }
    let mut out = "\n".to_string();
    let joined = join_texts(lines, "\n");
    push_text(&mut out, joined.as_str());
    out
}

/// What a room looks like.
pub fn render_room(
    name: &String,
    description: &String,
    items: &Vec<ObservedItem>,
    features: &Vec<ObservedFeature>,
    npcs: &Vec<ObservedNpc>,
    exits: &Vec<Direction>,
) -> (out: String)
    ensures
        out@ == room_text(name@, description@, views(items@), views(features@), views(npcs@), exits@),
{
    let mut out = name.clone();
    push_text(&mut out, "\n");
    push_text(&mut out, description.as_str());
    let feature_text = paragraph_string(&feature_line_texts(features));
    push_text(&mut out, feature_text.as_str());
    let npc_text = paragraph_string(&npc_line_texts(npcs));
    push_text(&mut out, npc_text.as_str());
    push_text(&mut out, "\nItems: ");
    let items_text = names_listing(item_name_texts(items));
    push_text(&mut out, items_text.as_str());
    push_text(&mut out, "\nExits: ");
    let exits_text = names_listing(exit_name_texts(exits));
    push_text(&mut out, exits_text.as_str());
    out
}

/// One numbered choice of what a player may have meant.
pub fn choice_line_string(number: usize, query: &str, kind: &str) -> (out: String)
    ensures
        out@ == choice_line(number as nat, query@, kind@),
{
    let mut out = decimal_string(number);
    push_text(&mut out, ". ");
    push_text(&mut out, query);
    push_text(&mut out, " (");
    push_text(&mut out, kind);
    push_text(&mut out, ")");
    out
}

/// The choices numbered one to `count`, all of one kind, one per line.
pub fn numbered_choices_string(count: usize, query: &str, kind: &str) -> (out: String)
    ensures
        out@ == numbered_choices(count as nat, query@, kind@),
{
    let ghost all = Seq::new(count as nat, |i: int| choice_line((i + 1) as nat, query@, kind@));
    let mut lines: Vec<String> = Vec::new();
    for i in 0..count
        invariant
            lines@.len() == i,
            all == Seq::new(count as nat, |i: int| choice_line((i + 1) as nat, query@, kind@)),
            forall|k: int| 0 <= k < i ==> #[trigger] lines@[k]@ == all[k],
    {
        lines.push(choice_line_string(i + 1, query, kind));
    }
    assert(seq_views(lines@) =~= all);
    join_texts(&lines, "\n")
}

/// The choices numbered from one, each of its own kind, one per line.
pub fn kind_choices_string(kinds: &Vec<TargetKind>, query: &str) -> (out: String)
    ensures
        out@ == kind_choices(kinds@, query@),
{
    let ghost all = Seq::new(
        kinds@.len(),
        |i: int| choice_line((i + 1) as nat, query@, kind_word(kinds@[i])),
    );
    let mut lines: Vec<String> = Vec::new();
    let n = kinds.len();
    for i in 0..n
        invariant
            n == kinds@.len(),
            lines@.len() == i,
            all == Seq::new(
                kinds@.len(),
                |i: int| choice_line((i + 1) as nat, query@, kind_word(kinds@[i])),
            ),
            forall|k: int| 0 <= k < i ==> #[trigger] lines@[k]@ == all[k],
    {
        let word = match kinds[i] {
            TargetKind::Item => "item",
            TargetKind::Feature => "feature",
            TargetKind::Npc => "npc",
        };
        lines.push(choice_line_string(i + 1, query, word));
    }
    assert(seq_views(lines@) =~= all);
    join_texts(&lines, "\n")
}

/// A quest as the journal lists it.
pub fn render_quest_entry(quest: &ObservedQuest) -> (out: String)
    ensures
        out@ == quest_entry(quest@),
{
    let mut out = "- ".to_string();
    push_text(&mut out, quest.name.as_str());
    push_text(&mut out, "\n  ");
    push_text(&mut out, quest.description.as_str());
    match &quest.current_objective {
        Some(objective) => {
            push_text(&mut out, "\n  Current objective: ");
            push_text(&mut out, objective.as_str());
        },
        None => {},
    }
    out
}

/// Quests as the journal lists them, one after the other.
pub fn quest_entries_string(quests: &Vec<ObservedQuest>) -> (out: String)
    ensures
        out@ == quest_entries(views(quests@)),
{
    let ghost all = Seq::new(quests@.len(), |i: int| quest_entry(views(quests@)[i]));
    let mut lines: Vec<String> = Vec::new();
    let n = quests.len();
    for i in 0..n
        invariant
            n == quests@.len(),
            lines@.len() == i,
            all == Seq::new(quests@.len(), |i: int| quest_entry(views(quests@)[i])),
            forall|k: int| 0 <= k < i ==> #[trigger] lines@[k]@ == all[k],
    {
        lines.push(render_quest_entry(&quests[i]));
    }
    assert(seq_views(lines@) =~= all);
    join_texts(&lines, "\n")
}

/// The quest journal.
pub fn journal_string(active: &Vec<ObservedQuest>, completed: &Vec<ObservedQuest>) -> (out: String)
    ensures
        out@ == journal_text(views(active@), views(completed@)),
{
    if active.len() == 0 && completed.len() == 0 {
        return "Quests: none".to_string();
    }
    let mut active_section = "Active quests:\n".to_string();
    let active_entries = quest_entries_string(active);
    push_text(&mut active_section, active_entries.as_str());
    let mut completed_section = "Completed quests:\n".to_string();
    let completed_entries = quest_entries_string(completed);
    push_text(&mut completed_section, completed_entries.as_str());
    if completed.len() == 0 {
        active_section
    } else if active.len() == 0 {
        completed_section
    } else {
        push_text(&mut active_section, "\n");
        push_text(&mut active_section, completed_section.as_str());
        active_section
    }
}

/// The line about a quest's current objective, when it has one.
pub fn objective_line_string(objective: &Option<String>) -> (out: String)
    ensures
        out@ == objective_line(
            match objective {
                Some(o) => Some(o@),
                None => None,
            },
        ),
{
    match objective {
        Some(o) => {
            let mut out = "\nCurrent objective: ".to_string();
            push_text(&mut out, o.as_str());
            out
        },
        None => String::new(),
    }
}


/// Appends the choices, and the hint that follows them, for an ambiguous query.
fn push_ambiguous(
    out: &mut String,
    head: &str,
    query: &str,
    count: usize,
    kind: &str,
    hint_head: &str,
    hint_tail: &str,
)
    ensures
        final(out)@ == old(out)@ + head@ + query@ + "':\n"@ + numbered_choices(
            count as nat,
            query@,
            kind@,
        ) + hint_head@ + hint_tail@,
{
    push_text(out, head);
    push_text(out, query);
    push_text(out, "':\n");
    let choices = numbered_choices_string(count, query, kind);
    push_text(out, choices.as_str());
    push_text(out, hint_head);
    push_text(out, hint_tail);
}

/// Appends a number in decimal.
fn push_number(out: &mut String, n: usize)
    ensures
        final(out)@ == old(out)@ + decimal_text(n as nat),
{
    let digits = decimal_string(n);
    push_text(out, digits.as_str());
}

/// What the player is told of a failed take.
pub fn take_failed_string(query: &String, reason: &TakeFailureReason) -> (out: String)
    ensures
        out@ == take_failed_text(query@, *reason),
{
    let q = query.as_str();
    match reason {
        TakeFailureReason::NotFound => {
            let mut out = "You do not see '".to_string();
            push_text(&mut out, q);
            push_text(&mut out, "' here.");
            out
        },
        TakeFailureReason::Ambiguous { match_count } => {
            let mut out = String::new();
            let mut hint = "\nTry 'take 1 ".to_string();
            push_text(&mut hint, q);
            push_ambiguous(
                &mut out,
                "More than one item matches '",
                q,
                *match_count,
                "item",
                hint.as_str(),
                "' or another listed number.",
            );
            out
        },
        TakeFailureReason::OrdinalOutOfRange { requested, available } => {
            let mut out = "There is no #".to_string();
            push_number(&mut out, *requested);
            push_text(&mut out, " '");
            push_text(&mut out, q);
            push_text(&mut out, "' here; ");
            push_number(&mut out, *available);
            push_text(&mut out, " matched.");
            out
        },
    }
}

/// What the player is told of a failed drop.
pub fn drop_failed_string(query: &String, reason: &DropFailureReason) -> (out: String)
    ensures
        out@ == drop_failed_text(query@, *reason),
{
    let q = query.as_str();
    match reason {
        DropFailureReason::NotFound => {
            let mut out = "You are not carrying '".to_string();
            push_text(&mut out, q);
            push_text(&mut out, "'.");
            out
        },
        DropFailureReason::Ambiguous { match_count } => {
            let mut out = String::new();
            let mut hint = "\nTry 'drop 1 ".to_string();
            push_text(&mut hint, q);
            push_ambiguous(
                &mut out,
                "More than one carried item matches '",
                q,
                *match_count,
                "item",
                hint.as_str(),
                "' or another listed number.",
            );
            out
        },
        DropFailureReason::OrdinalOutOfRange { requested, available } => {
            let mut out = "You are not carrying a #".to_string();
            push_number(&mut out, *requested);
            push_text(&mut out, " '");
            push_text(&mut out, q);
            push_text(&mut out, "'; ");
            push_number(&mut out, *available);
            push_text(&mut out, " matched.");
            out
        },
    }
}

/// What the player is told when an item cannot be put on a feature.
pub fn put_on_failed_string(
    item_query: &String,
    feature_query: &String,
    reason: &PutOnFailureReason,
) -> (out: String)
    ensures
        out@ == put_on_failed_text(item_query@, feature_query@, reason@),
{
    let iq = item_query.as_str();
    let fq = feature_query.as_str();
    match reason {
        PutOnFailureReason::ItemNotFound => {
            let mut out = "You are not carrying '".to_string();
            push_text(&mut out, iq);
            push_text(&mut out, "'.");
            out
        },
        PutOnFailureReason::ItemAmbiguous { match_count } => {
            let mut out = String::new();
            let mut hint = "\nTry 'put 1 ".to_string();
            push_text(&mut hint, iq);
            push_text(&mut hint, " on ");
            push_text(&mut hint, fq);
            push_ambiguous(
                &mut out,
                "More than one carried item matches '",
                iq,
                *match_count,
                "item",
                hint.as_str(),
                "' or another listed number.",
            );
            out
        },
        PutOnFailureReason::ItemOrdinalOutOfRange { requested, available } => {
            let mut out = "There is no #".to_string();
            push_number(&mut out, *requested);
            push_text(&mut out, " '");
            push_text(&mut out, iq);
            push_text(&mut out, "' in your inventory; ");
            push_number(&mut out, *available);
            push_text(&mut out, " matched.");
            out
        },
        PutOnFailureReason::FeatureNotFound => {
            let mut out = "You do not see '".to_string();
            push_text(&mut out, fq);
            push_text(&mut out, "' here.");
            out
        },
        PutOnFailureReason::FeatureAmbiguous { match_count } => {
            let mut out = String::new();
            let mut hint = "\nTry 'put ".to_string();
            push_text(&mut hint, iq);
            push_text(&mut hint, " on 1 ");
            push_text(&mut hint, fq);
            push_ambiguous(
                &mut out,
                "More than one feature matches '",
                fq,
                *match_count,
                "feature",
                hint.as_str(),
                "' or another listed number.",
            );
            out
        },
        PutOnFailureReason::FeatureOrdinalOutOfRange { requested, available } => {
            let mut out = "There is no #".to_string();
            push_number(&mut out, *requested);
            push_text(&mut out, " '");
            push_text(&mut out, fq);
            push_text(&mut out, "' here; ");
            push_number(&mut out, *available);
            push_text(&mut out, " matched.");
            out
        },
        PutOnFailureReason::NotSupporter { feature_name } => {
            let mut out = "You cannot put things on ".to_string();
            push_text(&mut out, feature_name.as_str());
            push_text(&mut out, ".");
            out
        },
        PutOnFailureReason::Rejected { message } => message.clone(),
        PutOnFailureReason::Full { message } => message.clone(),
    }
}

/// What the player is told when no one could be talked to.
pub fn talk_failed_string(query: &String, reason: &TalkFailureReason) -> (out: String)
    ensures
        out@ == talk_failed_text(query@, *reason),
{
    let q = query.as_str();
    match reason {
        TalkFailureReason::NotFound => {
            let mut out = "You do not see '".to_string();
            push_text(&mut out, q);
            push_text(&mut out, "' here to talk to.");
            out
        },
        TalkFailureReason::Ambiguous { match_count } => {
            let mut out = String::new();
            let mut hint = "\nTry 'talk to 1 ".to_string();
            push_text(&mut hint, q);
            push_ambiguous(
                &mut out,
                "More than one NPC matches '",
                q,
                *match_count,
                "npc",
                hint.as_str(),
                "' or another listed number.",
            );
            out
        },
        TalkFailureReason::OrdinalOutOfRange { requested, available } => {
            let mut out = "There is no #".to_string();
            push_number(&mut out, *requested);
            push_text(&mut out, " '");
            push_text(&mut out, q);
            push_text(&mut out, "' here; ");
            push_number(&mut out, *available);
            push_text(&mut out, " NPCs matched.");
            out
        },
    }
}

/// What the player is told when a question got no answer.
pub fn ask_failed_string(npc_query: &String, topic_query: &String, reason: &AskFailureReason) -> (out:
    String)
    ensures
        out@ == ask_failed_text(npc_query@, topic_query@, reason@),
{
    let nq = npc_query.as_str();
    let tq = topic_query.as_str();
    match reason {
        AskFailureReason::NpcNotFound => {
            let mut out = "You do not see '".to_string();
            push_text(&mut out, nq);
            push_text(&mut out, "' here to ask.");
            out
        },
        AskFailureReason::NpcAmbiguous { match_count } => {
            let mut out = String::new();
            let mut hint = "\nTry 'ask 1 ".to_string();
            push_text(&mut hint, nq);
            push_text(&mut hint, " about ");
            push_text(&mut hint, tq);
            push_ambiguous(
                &mut out,
                "More than one NPC matches '",
                nq,
                *match_count,
                "npc",
                hint.as_str(),
                "' or another listed number.",
            );
            out
        },
        AskFailureReason::NpcOrdinalOutOfRange { requested, available } => {
            let mut out = "There is no #".to_string();
            push_number(&mut out, *requested);
            push_text(&mut out, " '");
            push_text(&mut out, nq);
            push_text(&mut out, "' here; ");
            push_number(&mut out, *available);
            push_text(&mut out, " NPCs matched for the topic '");
            push_text(&mut out, tq);
            push_text(&mut out, "'.");
            out
        },
        AskFailureReason::TopicNotFound { npc_name } => {
            let mut out = npc_name.clone();
            push_text(&mut out, " has nothing to say about '");
            push_text(&mut out, tq);
            push_text(&mut out, "'.");
            out
        },
    }
}

/// What the player is told when nothing could be examined.
pub fn examine_failed_string(query: &String, reason: &ExamineFailureReason) -> (out: String)
    ensures
        out@ == examine_failed_text(query@, reason@),
{
    let q = query.as_str();
    match reason {
        ExamineFailureReason::NotFound => {
            let mut out = "You cannot find '".to_string();
            push_text(&mut out, q);
            push_text(&mut out, "' to examine.");
            out
        },
        ExamineFailureReason::Ambiguous { kinds } => {
            let mut out = "More than one accessible target matches '".to_string();
            push_text(&mut out, q);
            push_text(&mut out, "':\n");
            let choices = kind_choices_string(kinds, q);
            push_text(&mut out, choices.as_str());
            push_text(&mut out, "\nTry 'examine 1 ");
            push_text(&mut out, q);
            push_text(&mut out, "', 'examine item ");
            push_text(&mut out, q);
            push_text(&mut out, "', 'examine feature ");
            push_text(&mut out, q);
            push_text(&mut out, "', or 'examine npc ");
            push_text(&mut out, q);
            push_text(&mut out, "'.");
            out
        },
        ExamineFailureReason::OrdinalOutOfRange { requested, available } => {
            let mut out = "There is no accessible #".to_string();
            push_number(&mut out, *requested);
            push_text(&mut out, " '");
            push_text(&mut out, q);
            push_text(&mut out, "'; ");
            push_number(&mut out, *available);
            push_text(&mut out, " matched.");
            out
        },
    }
}


/// What a character says, in quotes.
fn speech_string(name: &String, words: &String) -> (out: String)
    ensures
        out@ == speech(name@, words@),
{
    let mut out = name.clone();
    push_text(&mut out, " says, \"");
    push_text(&mut out, words.as_str());
    push_text(&mut out, "\"");
    out
}

/// What a character says on being greeted, and what one could ask about.
pub fn greeting_string(name: &String, greeting: &String, topics: &Vec<String>) -> (out: String)
    ensures
        out@ == greeting_text(name@, greeting@, text_views(topics@)),
{
    let mut out = speech_string(name, greeting);
    if topics.len() > 0 {
        push_text(&mut out, "\nYou could ask ");
        push_text(&mut out, name.as_str());
        push_text(&mut out, " about: ");
        let listed = join_texts(topics, ", ");
        push_text(&mut out, listed.as_str());
        push_text(&mut out, ".");
    }
    assert(text_views(topics@) =~= seq_views(topics@));
    out
}

/// What a character answers, and how the topics changed, when they did.
pub fn answer_string(npc_name: &String, response: &String, updated_topics: &Option<Vec<String>>) -> (out:
    String)
    ensures
        out@ == answer_text(
            npc_name@,
            response@,
            match updated_topics {
                Some(t) => Some(text_views(t@)),
                None => None,
            },
        ),
{
    let mut out = speech_string(npc_name, response);
    match updated_topics {
        None => {},
        Some(topics) => {
            assert(text_views(topics@) =~= seq_views(topics@));
            if topics.len() == 0 {
                push_text(&mut out, "\nThere are no remaining discussion topics.");
            } else {
                push_text(&mut out, "\nYou could now ask ");
                push_text(&mut out, npc_name.as_str());
                push_text(&mut out, " about: ");
                let listed = join_texts(topics, ", ");
                push_text(&mut out, listed.as_str());
                push_text(&mut out, ".");
            }
        },
    }
    out
}

/// The text the player is shown for an event.
pub fn render_event(event: &GameEvent) -> (text: String)
    ensures
        text@ == event_text(event@),
{
    match event {
        GameEvent::RoomObserved { name, description, items, features, npcs, exits, .. } =>
            render_room(name, description, items, features, npcs, exits),
        GameEvent::ExitsObserved { exits, .. } => {
            let mut out = "Exits: ".to_string();
            let listed = names_listing(exit_name_texts(exits));
            push_text(&mut out, listed.as_str());
            out
        },
        GameEvent::HelpRequested => {
            let text = "Commands:\n  look (l)\n  look [item|feature|npc] <target>\n  examine (x) [item|feature|npc] <target>\n  north (n), south (s), east (e), west (w)\n  go <direction>\n  exits\n  take (get) <item>\n  drop <item>\n  put <item> on <feature>\n  inventory (inv, i)\n  quests (journal)\n  talk to <npc>\n  ask <npc> about <topic>\n  help (commands)\n  quit (exit)".to_string();
            text
        },
        GameEvent::CharacterMoved { direction, .. } => {
            let mut out = "You move ".to_string();
            push_text(&mut out, direction_name(direction));
            push_text(&mut out, ".");
            out
        },
        GameEvent::MovementFailed { direction, .. } => {
            let mut out = "You cannot go ".to_string();
            push_text(&mut out, direction_name(direction));
            push_text(&mut out, ".");
            out
        },
        GameEvent::MovementBlocked { message, .. } => message.clone(),
        GameEvent::ItemTaken { item, .. } => {
            let mut out = "You take ".to_string();
            push_text(&mut out, item.name.as_str());
            push_text(&mut out, ".");
            out
        },
        GameEvent::TakeFailed { query, reason, .. } => take_failed_string(query, reason),
        GameEvent::InventoryObserved { items } => {
            let mut out = "Inventory: ".to_string();
            let listed = names_listing(item_name_texts(items));
            push_text(&mut out, listed.as_str());
            out
        },
        GameEvent::QuestsObserved { active, completed } => journal_string(active, completed),
        GameEvent::QuestStarted { quest, .. } => {
            let mut out = "Quest started: ".to_string();
            push_text(&mut out, quest.name.as_str());
            push_text(&mut out, "\n");
            push_text(&mut out, quest.description.as_str());
            let objective = objective_line_string(&quest.current_objective);
            push_text(&mut out, objective.as_str());
            out
        },
        GameEvent::QuestAdvanced { quest, .. } => {
            let mut out = "Quest updated: ".to_string();
            push_text(&mut out, quest.name.as_str());
            let objective = objective_line_string(&quest.current_objective);
            push_text(&mut out, objective.as_str());
            out
        },
        GameEvent::QuestCompleted { quest, .. } => {
            let mut out = "Quest completed: ".to_string();
            push_text(&mut out, quest.name.as_str());
            out
        },
        GameEvent::ItemDropped { item, .. } => {
            let mut out = "You drop ".to_string();
            push_text(&mut out, item.name.as_str());
            push_text(&mut out, ".");
            out
        },
        GameEvent::DropFailed { query, reason, .. } => drop_failed_string(query, reason),
        GameEvent::ItemPlacedOnFeature { item, feature_name, .. } => {
            let mut out = "You put ".to_string();
            push_text(&mut out, item.name.as_str());
            push_text(&mut out, " on ");
            push_text(&mut out, feature_name.as_str());
            push_text(&mut out, ".");
            out
        },
        GameEvent::PutOnFailed { item_query, feature_query, reason, .. } => put_on_failed_string(
            item_query,
            feature_query,
            reason,
        ),
        GameEvent::ItemExamined { item, .. } => {
            let mut out = item.name.clone();
            push_text(&mut out, "\n");
            push_text(&mut out, item.description.as_str());
            out
        },
        GameEvent::FeatureExamined { feature, .. } => {
            let mut out = feature.name.clone();
            push_text(&mut out, "\n");
            push_text(&mut out, feature.description.as_str());
            if feature.items.len() > 0 {
                push_text(&mut out, "\nOn it: ");
                let names = item_name_texts(&feature.items);
                let listed = join_texts(&names, ", ");
                push_text(&mut out, listed.as_str());
            }
            out
        },
        GameEvent::NpcExamined { npc, .. } => {
            let mut out = npc.name.clone();
            push_text(&mut out, "\n");
            push_text(&mut out, npc.description.as_str());
            out
        },
        GameEvent::NpcSpoke { name, greeting, topics, .. } => greeting_string(
            name,
            greeting,
            topics,
        ),
        GameEvent::TalkFailed { query, reason, .. } => talk_failed_string(query, reason),
        GameEvent::NpcAnswered { npc_name, response, updated_topics, .. } => answer_string(
            npc_name,
            response,
            updated_topics,
        ),
        GameEvent::AskFailed { npc_query, topic_query, reason, .. } => ask_failed_string(
            npc_query,
            topic_query,
            reason,
        ),
        GameEvent::ExamineFailed { query, reason, .. } => examine_failed_string(query, reason),
    }
}

/// The exits of a room are listed by name in sorted order, whatever order they come in: two
/// listings of the same exits read alike, and no exits read as `none`.
pub proof fn law_exit_listing_ignores_order(room_id: Seq<char>, a: Seq<Direction>, b: Seq<Direction>)
    requires
        a.to_multiset() == b.to_multiset(),
    ensures
        event_text(GameEventView::ExitsObserved { room_id, exits: a }) == event_text(
            GameEventView::ExitsObserved { room_id, exits: b },
        ),
        a.len() == 0 ==> event_text(GameEventView::ExitsObserved { room_id, exits: a })
            == "Exits: "@ + "none"@,
        text_sorted::<String>(sorted_by_text::<String>(exit_names(a))),
        sorted_by_text::<String>(exit_names(a)).to_multiset() == exit_names(a).to_multiset(),
{
    let f = |d: Direction| direction_word(d);
    assert(exit_names(a) =~= a.map_values(f));
    assert(exit_names(b) =~= b.map_values(f));
    lemma_map_keeps_same_elements(a, b, f);
    law_sorting_texts_ignores_their_order(exit_names(a), exit_names(b));
    law_sorted_by_text_orders_the_same_values::<String>(exit_names(a));
    vstd::seq_lib::to_multiset_len(a);
    vstd::seq_lib::to_multiset_len(b);
}

/// Whether `text`, from position `o`, lists the topics in full and in order, separated by
/// `, `, and then ends with a full stop.
pub open spec fn lists_topics_at(text: Seq<char>, topics: Seq<Seq<char>>, o: int) -> bool {
    &&& text.len() > 0 && text.last() == '.'
    &&& forall|i: int|
        0 <= i < topics.len() ==> {
            &&& o + crate::text::part_start(topics, ", "@, i) + topics[i].len() < text.len()
            &&& text.subrange(
                o + crate::text::part_start(topics, ", "@, i),
                o + crate::text::part_start(topics, ", "@, i) + topics[i].len(),
            ) == #[trigger] topics[i]
            &&& i + 1 < topics.len() ==> text.subrange(
                o + crate::text::part_start(topics, ", "@, i) + topics[i].len(),
                o + crate::text::part_start(topics, ", "@, i + 1),
            ) == ", "@
            &&& i + 1 == topics.len() ==> o + crate::text::part_start(topics, ", "@, i)
                + topics[i].len() == text.len() - 1
        }
}

/// A text made of `pre`, the topics joined by `, `, and a full stop lists the topics from the
/// end of `pre`.
proof fn lemma_listed_after(pre: Seq<char>, topics: Seq<Seq<char>>)
    requires
        topics.len() > 0,
    ensures
        lists_topics_at(pre + join(topics, ", "@) + "."@, topics, pre.len() as int),
{
    let j = join(topics, ", "@);
    reveal_strlit(".");
    let text = pre + j + "."@;
    let o = pre.len() as int;
    assert(text.last() == '.');
    assert forall|i: int| 0 <= i < topics.len() implies {
        &&& o + crate::text::part_start(topics, ", "@, i) + topics[i].len() < text.len()
        &&& text.subrange(
            o + crate::text::part_start(topics, ", "@, i),
            o + crate::text::part_start(topics, ", "@, i) + topics[i].len(),
        ) == #[trigger] topics[i]
        &&& i + 1 < topics.len() ==> text.subrange(
            o + crate::text::part_start(topics, ", "@, i) + topics[i].len(),
            o + crate::text::part_start(topics, ", "@, i + 1),
        ) == ", "@
        &&& i + 1 == topics.len() ==> o + crate::text::part_start(topics, ", "@, i)
            + topics[i].len() == text.len() - 1
    } by {
        crate::text::lemma_join_parts(topics, ", "@, i);
        let ps = crate::text::part_start(topics, ", "@, i);
        let st = o + ps;
        assert(text.subrange(st, st + topics[i].len()) =~= j.subrange(ps, ps + topics[i].len()));
        if i + 1 < topics.len() {
            crate::text::lemma_join_parts(topics, ", "@, i + 1);
            let ps2 = crate::text::part_start(topics, ", "@, i + 1);
            assert(text.subrange(st + topics[i].len(), o + ps2) =~= j.subrange(
                ps + topics[i].len(),
                ps2,
            ));
        } else {
            crate::text::lemma_join_len(topics, ", "@);
        }
    }
}

/// What a character says on being greeted starts with its own words; when there are topics to
/// ask about, it goes on to list every one of them, each in full and in the order given,
/// separated by `, ` and followed by a full stop that ends the text.
pub proof fn law_greeting_lists_every_topic(
    character_id: Seq<char>,
    npc_id: Seq<char>,
    name: Seq<char>,
    greeting: Seq<char>,
    topics: Seq<Seq<char>>,
)
    ensures
        ({
            let text = event_text(
                GameEventView::NpcSpoke { character_id, npc_id, name, greeting, topics },
            );
            let said = speech(name, greeting);
            &&& text.take(said.len() as int) == said
            &&& topics.len() == 0 ==> text == said
            &&& topics.len() > 0 ==> exists|o: int|
                said.len() <= o && #[trigger] lists_topics_at(text, topics, o)
        }),
{
    let text = event_text(GameEventView::NpcSpoke { character_id, npc_id, name, greeting, topics });
    let said = speech(name, greeting);
    if topics.len() == 0 {
        assert(text.take(said.len() as int) =~= said);
    } else {
        let pre = said + "\nYou could ask "@ + name + " about: "@;
        assert(text == pre + join(topics, ", "@) + "."@);
        assert(text.take(said.len() as int) =~= said);
        lemma_listed_after(pre, topics);
        assert(said.len() <= pre.len());
    }
}

/// An answer starts with what the character says; when the topics one could ask about
/// changed, it goes on to list every topic now available, each in full and in order, separated
/// by `, ` and followed by a full stop that ends the text, or says that none remain.
pub proof fn law_answer_lists_every_new_topic(
    character_id: Seq<char>,
    npc_id: Seq<char>,
    npc_name: Seq<char>,
    topic_id: Seq<char>,
    topic_name: Seq<char>,
    response: Seq<char>,
    learned_facts: Seq<crate::game::ids::FactKeyView>,
    updated_topics: Option<Seq<Seq<char>>>,
)
    ensures
        ({
            let text = event_text(
                GameEventView::NpcAnswered {
                    character_id,
                    npc_id,
                    npc_name,
                    topic_id,
                    topic_name,
                    response,
                    learned_facts,
                    updated_topics,
                },
            );
            let said = speech(npc_name, response);
            &&& text.take(said.len() as int) == said
            &&& updated_topics is None ==> text == said
            &&& updated_topics is Some && updated_topics->0.len() > 0 ==> exists|o: int|
                said.len() <= o && #[trigger] lists_topics_at(text, updated_topics->0, o)
        }),
{
    let text = event_text(
        GameEventView::NpcAnswered {
            character_id,
            npc_id,
            npc_name,
            topic_id,
            topic_name,
            response,
            learned_facts,
            updated_topics,
        },
    );
    let said = speech(npc_name, response);
    assert(text.take(said.len() as int) =~= said);
    match updated_topics {
        Some(topics) => if topics.len() > 0 {
            let pre = said + "\nYou could now ask "@ + npc_name + " about: "@;
            assert(text == pre + join(topics, ", "@) + "."@);
            lemma_listed_after(pre, topics);
            assert(said.len() <= pre.len());
        },
        None => {},
    }
}

} // verus!
