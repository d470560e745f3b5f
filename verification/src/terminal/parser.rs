use vstd::prelude::*;

use crate::game::command::{
    AskQuery, AskQueryView, Command, CommandView, Ordinal, TargetKind, TargetQuery, TargetQueryView,
};
use crate::game::direction::Direction;
use crate::game::naming::{normalize_name, normalized_name};
use crate::text::{
    char_rows, chars_vec, has_prefix, join, join_words, parse_usize, parsed_usize, push_text,
    seq_char_eq, split_words, strip_prefix_chars, str_eq, trim_text, trimmed, words,
};

verus! {

/// The kind that a word typed before a target's name restricts the target to.
pub open spec fn kind_word(w: Seq<char>) -> Option<TargetKind> {
    if w == "item"@ {
        Some(TargetKind::Item)
    } else if w == "feature"@ {
        Some(TargetKind::Feature)
    } else if w == "npc"@ {
        Some(TargetKind::Npc)
    } else {
        None
    }
}

/// What the words of a target query read as: an optional kind word (`item`, `feature` or
/// `npc`, where allowed), an optional number counting from one, then the name.
pub open spec fn target_query_words(
    ws: Seq<Seq<char>>,
    default_kind: Option<TargetKind>,
    allow_kind_qualifier: bool,
    missing_target_error: Seq<char>,
) -> Result<TargetQueryView, Seq<char>> {
    let qualifier = if allow_kind_qualifier && ws.len() > 0 {
        kind_word(ws[0])
    } else {
        None
    };
    let kind = if qualifier is Some {
        qualifier
    } else {
        default_kind
    };
    let first: int = if qualifier is Some {
        1
    } else {
        0
    };
    let number = if first < ws.len() {
        parsed_usize(ws[first])
    } else {
        None
    };
    let start: int = if number is Some {
        first + 1
    } else {
        first
    };
    if number == Some(0usize) {
        Err("target number must be at least 1"@)
    } else if start >= ws.len() {
        Err(missing_target_error)
    } else {
        Ok(TargetQueryView { kind, ordinal: number, name: join(ws.skip(start), seq![' ']) })
    }
}

/// What a target query typed after a command word reads as.
pub open spec fn target_query_result(
    query: Seq<char>,
    default_kind: Option<TargetKind>,
    allow_kind_qualifier: bool,
    missing_target_error: Seq<char>,
) -> Result<TargetQueryView, Seq<char>> {
    target_query_words(words(query), default_kind, allow_kind_qualifier, missing_target_error)
}

/// The direction a word names, in full or by its first letter.
pub open spec fn direction_named(w: Seq<char>) -> Option<Direction> {
    if w == "north"@ || w == "n"@ {
        Some(Direction::North)
    } else if w == "south"@ || w == "s"@ {
        Some(Direction::South)
    } else if w == "east"@ || w == "e"@ {
        Some(Direction::East)
    } else if w == "west"@ || w == "w"@ {
        Some(Direction::West)
    } else {
        None
    }
}

/// Whether `i` is where the word `about` first stands among `ws`.
pub open spec fn is_first_about(ws: Seq<Seq<char>>, i: int) -> bool {
    &&& 0 <= i < ws.len()
    &&& ws[i] == "about"@
    &&& forall|k: int| 0 <= k < i ==> ws[k] != "about"@
}

/// What the words after `ask` read as: the character asked, the word `about`, then the topic.
/// The first `about` divides the two.
pub open spec fn ask_result(ws: Seq<Seq<char>>) -> Result<CommandView, Seq<char>> {
    if exists|i: int| is_first_about(ws, i) {
        let i = choose|i: int| is_first_about(ws, i);
        if i == 0 {
            Err("ask whom?"@)
        } else if i + 1 >= ws.len() {
            Err("ask about what?"@)
        } else {
            match target_query_words(ws.take(i), Some(TargetKind::Npc), false, "ask whom?"@) {
                Ok(q) => Ok(
                    CommandView::Ask(AskQueryView { npc: q, topic: join(ws.skip(i + 1), seq![' ']) }),
                ),
                Err(e) => Err(e),
            }
        }
    } else {
        Err("ask whom about what?"@)
    }
}

/// The view of a parsed target query, or its error text.
pub open spec fn query_result_view(r: Result<TargetQuery, String>) -> Result<
    TargetQueryView,
    Seq<char>,
> {
    match r {
        Ok(q) => Ok(q@),
        Err(e) => Err(e@),
    }
}

/// The view of a parsed command, or its error text.
pub open spec fn command_result_view(r: Result<Command, String>) -> Result<CommandView, Seq<char>> {
    match r {
        Ok(c) => Ok(c@),
        Err(e) => Err(e@),
    }
}

/// A target query wrapped into the command it belongs to.
pub open spec fn wrap_query(
    r: Result<TargetQueryView, Seq<char>>,
    wrap: spec_fn(TargetQueryView) -> CommandView,
) -> Result<CommandView, Seq<char>> {
    match r {
        Ok(q) => Ok(wrap(q)),
        Err(e) => Err(e),
    }
}

/// What an examine query reads as.
pub open spec fn examine_result(query: Seq<char>) -> Result<CommandView, Seq<char>> {
    wrap_query(
        target_query_result(query, None, true, "examine what?"@),
        |q: TargetQueryView| CommandView::Examine(q),
    )
}

/// The words that follow `prefix` in a normalized command.
pub open spec fn after(s: Seq<char>, prefix: Seq<char>) -> Seq<char> {
    s.skip(prefix.len() as int)
}

/// What a line typed by the player reads as. The line is first normalized; then it is matched
/// against the command words in this order; anything else is an unknown command, reported with
/// the line as typed, trimmed.
pub open spec fn command_result(input: Seq<char>) -> Result<CommandView, Seq<char>> {
    let n = normalized_name(input);
    if n == "look"@ || n == "l"@ {
        Ok(CommandView::Look)
    } else if direction_named(n) is Some {
        Ok(CommandView::Move(direction_named(n)->0))
    } else if n == "go"@ {
        Err("go where?"@)
    } else if has_prefix(n, "go "@) {
        match direction_named(after(n, "go "@)) {
            Some(d) => Ok(CommandView::Move(d)),
            None => Err("unknown direction '"@ + after(n, "go "@) + "'"@),
        }
    } else if n == "exits"@ {
        Ok(CommandView::Exits)
    } else if n == "help"@ || n == "commands"@ {
        Ok(CommandView::Help)
    } else if n == "quests"@ || n == "journal"@ {
        Ok(CommandView::Quests)
    } else {
        item_command_result(n, input)
    }
}

/// What a normalized line reads as when it names no movement and asks for no listing: the
/// commands on items and features, in this order, then those on characters.
pub open spec fn item_command_result(n: Seq<char>, input: Seq<char>) -> Result<
    CommandView,
    Seq<char>,
> {
    if n == "take"@ || n == "get"@ {
        Err("take what?"@)
    } else if has_prefix(n, "take "@) {
        wrap_query(
            target_query_result(after(n, "take "@), Some(TargetKind::Item), false, "take what?"@),
            |q: TargetQueryView| CommandView::Take(q),
        )
    } else if has_prefix(n, "get "@) {
        wrap_query(
            target_query_result(after(n, "get "@), Some(TargetKind::Item), false, "take what?"@),
            |q: TargetQueryView| CommandView::Take(q),
        )
    } else if n == "inventory"@ || n == "inv"@ || n == "i"@ {
        Ok(CommandView::Inventory)
    } else if n == "drop"@ {
        Err("drop what?"@)
    } else if has_prefix(n, "drop "@) {
        wrap_query(
            target_query_result(after(n, "drop "@), Some(TargetKind::Item), false, "drop what?"@),
            |q: TargetQueryView| CommandView::Drop(q),
        )
    } else if n == "examine"@ || n == "x"@ || n == "look at"@ {
        Err("examine what?"@)
    } else if has_prefix(n, "examine "@) {
        examine_result(after(n, "examine "@))
    } else if has_prefix(n, "x "@) {
        examine_result(after(n, "x "@))
    } else if has_prefix(n, "look at "@) {
        examine_result(after(n, "look at "@))
    } else if has_prefix(n, "look "@) {
        examine_result(after(n, "look "@))
    } else {
        character_command_result(n, input)
    }
}

/// What a talk query reads as: the name of a character, perhaps numbered.
pub open spec fn talk_result(query: Seq<char>) -> Result<CommandView, Seq<char>> {
    wrap_query(
        target_query_result(query, Some(TargetKind::Npc), false, "talk to whom?"@),
        |q: TargetQueryView| CommandView::Talk(q),
    )
}

/// What a normalized line reads as when it is none of the other commands: talking to or asking
/// a character, or else an unknown command.
pub open spec fn character_command_result(n: Seq<char>, input: Seq<char>) -> Result<
    CommandView,
    Seq<char>,
> {
    if n == "talk"@ || n == "talk to"@ {
        Err("talk to whom?"@)
    } else if has_prefix(n, "talk to "@) {
        talk_result(after(n, "talk to "@))
    } else if has_prefix(n, "talk "@) {
        talk_result(after(n, "talk "@))
    } else if n == "ask"@ {
        Err("ask whom about what?"@)
    } else if has_prefix(n, "ask "@) {
        ask_result(words(after(n, "ask "@)))
    } else {
        Err("unknown command '"@ + trimmed(input) + "'"@)
    }
}

/// The kind a word restricts a target to, if it is a kind word.
pub fn kind_of_word(w: &Vec<char>) -> (kind: Option<TargetKind>)
    ensures
        kind == kind_word(w@),
{
    if seq_char_eq(w, &chars_vec("item")) {
        Some(TargetKind::Item)
    } else if seq_char_eq(w, &chars_vec("feature")) {
        Some(TargetKind::Feature)
    } else if seq_char_eq(w, &chars_vec("npc")) {
        Some(TargetKind::Npc)
    } else {
        None
    }
}

/// Reads the words of a target query: an optional kind word (where `allow_kind_qualifier` says
/// so), an optional number, then the name; `missing_target_error` is the error when no name is
/// left.
pub fn parse_target_words(
    ws: &Vec<Vec<char>>,
    default_kind: Option<TargetKind>,
    allow_kind_qualifier: bool,
    missing_target_error: &str,
) -> (result: Result<TargetQuery, String>)
    ensures
        query_result_view(result) == target_query_words(
            char_rows(ws@),
            default_kind,
            allow_kind_qualifier,
            missing_target_error@,
        ),
{
    let ghost views = char_rows(ws@);
    let mut first: usize = 0;
    let mut kind = default_kind;
    if allow_kind_qualifier && ws.len() > 0 {
        assert(views[0] == ws@[0]@);
        match kind_of_word(&ws[0]) {
            Some(k) => {
                first = 1;
                kind = Some(k);
            },
            None => {},
        }
    }
    let mut number: Option<usize> = None;
    if first < ws.len() {
        assert(views[first as int] == ws@[first as int]@);
        number = parse_usize(&ws[first]);
    }
    let mut start = first;
    match number {
        Some(value) => {
            if value == 0 {
                return Err("target number must be at least 1".to_string());
            }
            start = first + 1;
        },
        None => {},
    }
    if start >= ws.len() {
        return Err(missing_target_error.to_string());
    }
    let name = join_words(ws, start);
    let ordinal = match number {
        Some(value) => Ordinal::new(value),
        None => None,
    };
    Ok(TargetQuery { kind, ordinal, name })
}

/// Reads a target query: an optional kind word (where `allow_kind_qualifier` says so), an
/// optional number, then the name; `missing_target_error` is the error when no name is left.
pub fn parse_target_query(
    query: &str,
    default_kind: Option<TargetKind>,
    allow_kind_qualifier: bool,
    missing_target_error: &str,
) -> (result: Result<TargetQuery, String>)
    ensures
        query_result_view(result) == target_query_result(
            query@,
            default_kind,
            allow_kind_qualifier,
            missing_target_error@,
        ),
{
    let chars = chars_vec(query);
    let ws = split_words(&chars);
    parse_target_words(&ws, default_kind, allow_kind_qualifier, missing_target_error)
}

/// Reads what follows an examine command word; a kind word may narrow the query.
pub fn parse_examine_query(query: &str) -> (result: Result<Command, String>)
    ensures
        command_result_view(result) == examine_result(query@),
{
    match parse_target_query(query, None, true, "examine what?") {
        Ok(q) => Ok(Command::Examine(q)),
        Err(e) => Err(e),
    }
}

/// Reads what follows a talk command: the character spoken to.
fn parse_talk_query(query: &str) -> (result: Result<Command, String>)
    ensures
        command_result_view(result) == talk_result(query@),
{
    match parse_target_query(query, Some(TargetKind::Npc), false, "talk to whom?") {
        Ok(q) => Ok(Command::Talk(q)),
        Err(e) => Err(e),
    }
}

/// The direction a word names, if it names one.
pub fn direction_of_word(w: &str) -> (direction: Option<Direction>)
    ensures
        direction == direction_named(w@),
{
    if str_eq(w, "north") || str_eq(w, "n") {
        Some(Direction::North)
    } else if str_eq(w, "south") || str_eq(w, "s") {
        Some(Direction::South)
    } else if str_eq(w, "east") || str_eq(w, "e") {
        Some(Direction::East)
    } else if str_eq(w, "west") || str_eq(w, "w") {
        Some(Direction::West)
    } else {
        None
    }
}

/// The first `k` rows, copied.
fn take_rows(rows: &Vec<Vec<char>>, k: usize) -> (out: Vec<Vec<char>>)
    requires
        k <= rows.len(),
    ensures
        char_rows(out@) == char_rows(rows@).take(k as int),
{
    let mut out: Vec<Vec<char>> = Vec::new();
    for i in 0..k
        invariant
            k <= rows.len(),
            out.len() == i,
            char_rows(out@) == char_rows(rows@).take(i as int),
    {
        let row = &rows[i];
        let mut copy: Vec<char> = Vec::new();
        let m = row.len();
        for j in 0..m
            invariant
                m == row@.len(),
                copy@ == row@.take(j as int),
        {
            copy.push(row[j]);
            assert(row@.take(j as int).push(row@[j as int]) =~= row@.take(j + 1));
        }
        assert(row@.take(m as int) =~= row@);
        let ghost before = out@;
        out.push(copy);
        proof {
            assert(out@[i as int]@ == rows@[i as int]@);
            assert forall|j: int| 0 <= j < i implies out@[j]@ == rows@[j]@ by {
                assert(out@[j] == before[j]);
                assert(char_rows(before)[j] == char_rows(rows@).take(i as int)[j]);
            }
            assert(char_rows(out@) =~= char_rows(rows@).take(i + 1));
        }
    }
    out
}

/// Reads the words after `ask`: the character asked, `about`, then the topic.
pub fn parse_ask_words(ws: &Vec<Vec<char>>) -> (result: Result<Command, String>)
    ensures
        command_result_view(result) == ask_result(char_rows(ws@)),
{
    let ghost views = char_rows(ws@);
    let about = chars_vec("about");
    let n = ws.len();
    let mut i: usize = 0;
    while i < n && !seq_char_eq(&ws[i], &about)
        invariant
            i <= n,
            n == ws.len(),
            views == char_rows(ws@),
            about@ == "about"@,
            forall|k: int| 0 <= k < i ==> views[k] != "about"@,
        decreases n - i,
    {
        assert(views[i as int] == ws@[i as int]@);
        i = i + 1;
    }
    if i == n {
        proof {
            assert forall|j: int| !is_first_about(views, j) by {
                if 0 <= j < views.len() && views[j] == "about"@ {
                    assert(views[j] != "about"@);
                }
            }
        }
        return Err("ask whom about what?".to_string());
    }
    proof {
        assert(views[i as int] == ws@[i as int]@);
        assert(is_first_about(views, i as int));
        let c = choose|j: int| is_first_about(views, j);
        assert(is_first_about(views, c));
        if c < i {
            assert(views[c] != "about"@);
        }
        if i < c {
            assert(views[i as int] != "about"@);
        }
        assert(c == i);
    }
    if i == 0 {
        return Err("ask whom?".to_string());
    }
    if i + 1 >= n {
        return Err("ask about what?".to_string());
    }
    let npc_words = take_rows(ws, i);
    match parse_target_words(&npc_words, Some(TargetKind::Npc), false, "ask whom?") {
        Ok(q) => {
            let topic = join_words(ws, i + 1);
            Ok(Command::Ask(AskQuery { npc: q, topic }))
        },
        Err(e) => Err(e),
    }
}

/// Reads one line typed by the player as a command, or says why it cannot be read.
pub fn parse_command(input: &str) -> (result: Result<Command, String>)
    ensures
        command_result_view(result) == command_result(input@),
{
    let normalized = normalize_name(input);
    let n = normalized.as_str();
    if str_eq(n, "look") || str_eq(n, "l") {
        return Ok(Command::Look);
    }
    match direction_of_word(n) {
        Some(d) => {
            return Ok(Command::Move(d));
        },
        None => {},
    }
    if str_eq(n, "go") {
        return Err("go where?".to_string());
    }
    let chars = chars_vec(n);
    match strip_prefix_chars(&chars, "go ") {
        Some(rest) => {
            let word = crate::text::string_from_chars(&rest);
            return match direction_of_word(word.as_str()) {
                Some(d) => Ok(Command::Move(d)),
                None => {
                    let mut message = "unknown direction '".to_string();
                    push_text(&mut message, word.as_str());
                    push_text(&mut message, "'");
                    Err(message)
                },
            };
        },
        None => {},
    }
    if str_eq(n, "exits") {
        return Ok(Command::Exits);
    }
    if str_eq(n, "help") || str_eq(n, "commands") {
        return Ok(Command::Help);
    }
    if str_eq(n, "quests") || str_eq(n, "journal") {
        return Ok(Command::Quests);
    }
    parse_item_command(n, input)
}

/// Reads a normalized line `n` as one of the commands on items and features, or hands it on.
fn parse_item_command(n: &str, input: &str) -> (result: Result<Command, String>)
    ensures
        command_result_view(result) == item_command_result(n@, input@),
{
    if str_eq(n, "take") || str_eq(n, "get") {
        return Err("take what?".to_string());
    }
    let chars = chars_vec(n);
    match strip_prefix_chars(&chars, "take ") {
        Some(rest) => {
            let query = crate::text::string_from_chars(&rest);
            return match parse_target_query(
                query.as_str(),
                Some(TargetKind::Item),
                false,
                "take what?",
            ) {
                Ok(q) => Ok(Command::Take(q)),
                Err(e) => Err(e),
            };
        },
        None => {},
    }
    match strip_prefix_chars(&chars, "get ") {
        Some(rest) => {
            let query = crate::text::string_from_chars(&rest);
            return match parse_target_query(
                query.as_str(),
                Some(TargetKind::Item),
                false,
                "take what?",
            ) {
                Ok(q) => Ok(Command::Take(q)),
                Err(e) => Err(e),
            };
        },
        None => {},
    }
    if str_eq(n, "inventory") || str_eq(n, "inv") || str_eq(n, "i") {
        return Ok(Command::Inventory);
    }
    if str_eq(n, "drop") {
        return Err("drop what?".to_string());
    }
    match strip_prefix_chars(&chars, "drop ") {
        Some(rest) => {
            let query = crate::text::string_from_chars(&rest);
            return match parse_target_query(
                query.as_str(),
                Some(TargetKind::Item),
                false,
                "drop what?",
            ) {
                Ok(q) => Ok(Command::Drop(q)),
                Err(e) => Err(e),
            };
        },
        None => {},
    }
    if str_eq(n, "examine") || str_eq(n, "x") || str_eq(n, "look at") {
        return Err("examine what?".to_string());
    }
    match strip_prefix_chars(&chars, "examine ") {
        Some(rest) => {
            let query = crate::text::string_from_chars(&rest);
            return parse_examine_query(query.as_str());
        },
        None => {},
    }
    match strip_prefix_chars(&chars, "x ") {
        Some(rest) => {
            let query = crate::text::string_from_chars(&rest);
            return parse_examine_query(query.as_str());
        },
        None => {},
    }
    match strip_prefix_chars(&chars, "look at ") {
        Some(rest) => {
            let query = crate::text::string_from_chars(&rest);
            return parse_examine_query(query.as_str());
        },
        None => {},
    }
    match strip_prefix_chars(&chars, "look ") {
        Some(rest) => {
            let query = crate::text::string_from_chars(&rest);
            return parse_examine_query(query.as_str());
        },
        None => {},
    }
    parse_character_command(n, input)
}

/// Reads a normalized line `n` as talking to or asking a character, or else reports it as an
/// unknown command.
fn parse_character_command(n: &str, input: &str) -> (result: Result<Command, String>)
    ensures
        command_result_view(result) == character_command_result(n@, input@),
{
    if str_eq(n, "talk") || str_eq(n, "talk to") {
        return Err("talk to whom?".to_string());
    }
    let chars = chars_vec(n);
    match strip_prefix_chars(&chars, "talk to ") {
        Some(rest) => {
            let query = crate::text::string_from_chars(&rest);
            return parse_talk_query(query.as_str());
        },
        None => {},
    }
    match strip_prefix_chars(&chars, "talk ") {
        Some(rest) => {
            let query = crate::text::string_from_chars(&rest);
            return parse_talk_query(query.as_str());
        },
        None => {},
    }
    if str_eq(n, "ask") {
        return Err("ask whom about what?".to_string());
    }
    match strip_prefix_chars(&chars, "ask ") {
        Some(rest) => {
            let ws = split_words(&rest);
            return parse_ask_words(&ws);
        },
        None => {},
    }
    let mut message = "unknown command '".to_string();
    let typed = trim_text(input);
    push_text(&mut message, typed.as_str());
    push_text(&mut message, "'");
    Err(message)
}

/// Words of lower-case ASCII letters and digits, joined by single spaces, are already in
/// normal form.
proof fn lemma_folded_words_normal(ws: Seq<Seq<char>>)
    requires
        forall|k: int| 0 <= k < ws.len() ==> crate::text::folded_word(#[trigger] ws[k]),
    ensures
        normalized_name(join(ws, seq![' '])) == join(ws, seq![' ']),
{
    crate::text::lemma_join_folded(ws);
    crate::game::naming::lemma_name_chars_of_folded(join(ws, seq![' ']));
    assert forall|k: int| 0 <= k < ws.len() implies crate::text::solid_word(#[trigger] ws[k]) by {
        assert(crate::text::folded_word(ws[k]));
        assert forall|i: int| 0 <= i < ws[k].len() implies !crate::text::char_is_whitespace(
            #[trigger] ws[k][i],
        ) by {
            assert(crate::text::is_folded_char(ws[k][i]));
        }
    }
    crate::text::lemma_words_of_join(ws);
}

/// Each direction is read back from the word that names it, from that word's first letter,
/// and from `go` followed by the word: typing a direction's word moves that way.
pub proof fn law_direction_words_read_back(d: Direction)
    ensures
        command_result(crate::game::direction::direction_word(d)) == Ok::<CommandView, Seq<char>>(
            CommandView::Move(d),
        ),
        command_result(seq![crate::game::direction::direction_word(d)[0]]) == Ok::<
            CommandView,
            Seq<char>,
        >(CommandView::Move(d)),
        command_result("go "@ + crate::game::direction::direction_word(d)) == Ok::<
            CommandView,
            Seq<char>,
        >(CommandView::Move(d)),
{
    reveal_strlit("north");
    reveal_strlit("south");
    reveal_strlit("east");
    reveal_strlit("west");
    reveal_strlit("n");
    reveal_strlit("s");
    reveal_strlit("e");
    reveal_strlit("w");
    reveal_strlit("look");
    reveal_strlit("l");
    reveal_strlit("go");
    reveal_strlit("go ");
    let w = crate::game::direction::direction_word(d);
    let letter = seq![w[0]];
    assert(crate::text::folded_word(w));
    assert(crate::text::folded_word(letter));
    assert(crate::text::folded_word("go"@));
    lemma_folded_words_normal(seq![w]);
    lemma_folded_words_normal(seq![letter]);
    lemma_folded_words_normal(seq!["go"@, w]);
    assert(join(seq![w], seq![' ']) == w);
    assert(join(seq![letter], seq![' ']) == letter);
    let go = "go "@ + w;
    assert(seq!["go"@, w].drop_last() =~= seq!["go"@]);
    assert(join(seq!["go"@], seq![' ']) == "go"@);
    assert("go "@ =~= "go"@ + seq![' ']);
    assert(join(seq!["go"@, w], seq![' ']) =~= go);
    assert(normalized_name(w) == w);
    assert(normalized_name(letter) == letter);
    match d {
        Direction::North => assert(letter =~= "n"@),
        Direction::South => assert(letter =~= "s"@),
        Direction::East => assert(letter =~= "e"@),
        Direction::West => assert(letter =~= "w"@),
    }
    assert(normalized_name(go) == go);
    assert(go.take(3) =~= "go "@);
    assert(has_prefix(go, "go "@));
    assert(after(go, "go "@) =~= w);
}

} // verus!
