use vstd::prelude::*;

use super::ids::{QuestKey, QuestKeyView};
use super::quest::{find_step, QuestProgressView, QuestStatus, QuestView};
use super::rules::{
    active_step_objective, advanced_progress, apply_transition, apply_transitions,
    apply_transitions_in_order, chain_length, quest_chains_end, quests_end, remaining_steps,
    satisfied_quests, steps_ahead, with_quests, GameView,
};
use super::table::{
    key_position, keys_unique, lemma_insert_keeps_unique, lemma_key_position_found, lookup,
    table_insert,
};
use super::world::WorldView;
use crate::order::{sorted_by_text, sorted_insert};

verus! {

/// Changing one entry changes the steps ahead by the difference of that entry's steps.
pub proof fn lemma_steps_ahead_update(
    w: WorldView,
    s: Seq<(QuestKeyView, QuestProgressView)>,
    p: int,
    x: (QuestKeyView, QuestProgressView),
)
    requires
        0 <= p < s.len(),
    ensures
        steps_ahead(w, s.update(p, x)) + remaining_steps(w, s[p].0, s[p].1) == steps_ahead(w, s)
            + remaining_steps(w, x.0, x.1),
    decreases s.len(),
{
    let u = s.update(p, x);
    if p == s.len() - 1 {
        assert(u.drop_last() =~= s.drop_last());
    } else {
        assert(u.drop_last() =~= s.drop_last().update(p, x));
        lemma_steps_ahead_update(w, s.drop_last(), p, x);
    }
}

/// With unique keys, an entry is the one its key finds.
pub proof fn lemma_unique_position<A, B>(entries: Seq<(A, B)>, i: int)
    requires
        keys_unique(entries),
        0 <= i < entries.len(),
    ensures
        key_position(entries, entries[i].0) == i,
        lookup(entries, entries[i].0) == Some(entries[i].1),
{
    lemma_key_position_found(entries, entries[i].0);
}

/// A found value is the value of an entry.
pub proof fn lemma_lookup_entry<A, B>(entries: Seq<(A, B)>, key: A)
    requires
        lookup(entries, key) is Some,
    ensures
        0 <= key_position(entries, key) < entries.len(),
        entries[key_position(entries, key)] == (key, lookup(entries, key)->0),
{
    lemma_key_position_found(entries, key);
}

/// A quest found in a world whose quest chains end has chains that end.
pub proof fn lemma_found_quest_ends(w: WorldView, id: Seq<char>)
    requires
        quests_end(w),
        lookup(w.quests, id) is Some,
    ensures
        quest_chains_end(lookup(w.quests, id)->0),
{
    lemma_lookup_entry(w.quests, id);
    let p = key_position(w.quests, id);
    assert(quest_chains_end(w.quests[p].1));
}

/// Finishing a found step takes exactly one step off what lies ahead, in a quest whose
/// chains end.
pub proof fn lemma_chain_advance(quest: QuestView, step: Seq<char>)
    requires
        quest_chains_end(quest),
        find_step(quest.steps, step) is Some,
    ensures
        chain_length(quest, step, quest.steps.len() + 1) == 1 + match find_step(
            quest.steps,
            step,
        )->0.next_step {
            None => 0,
            Some(n) => chain_length(quest, n, quest.steps.len() + 1),
        },
{
    let l = quest.steps.len();
    match find_step(quest.steps, step)->0.next_step {
        None => {},
        Some(n) => {
            assert(chain_length(quest, n, l) == chain_length(quest, n, l + 1));
        },
    }
}

/// Whether the tracked quest `key`, with some entry in `entries`, is an active quest of
/// this world whose current step the world has.
pub open spec fn has_active_step(
    g: GameView,
    entries: Seq<(QuestKeyView, QuestProgressView)>,
    key: QuestKeyView,
) -> bool {
    exists|i: int|
        0 <= i < entries.len() && entries[i].0 == key && (#[trigger] active_step_objective(
            g,
            key,
            entries[i].1,
        )) is Some
}

/// One transition leaves the world alone, keeps the keys unique, never adds to the steps
/// ahead, and takes one off them for an active quest whose step the world has.
pub proof fn lemma_transition_measure(g: GameView, key: QuestKeyView)
    requires
        quests_end(g.world),
        keys_unique(g.character.quests),
    ensures
        ({
            let g2 = apply_transition(g, key).0;
            &&& g2.world == g.world
            &&& g2.character.id == g.character.id
            &&& g2.character.current_room == g.character.current_room
            &&& g2.character.facts == g.character.facts
            &&& keys_unique(g2.character.quests)
            &&& steps_ahead(g2.world, g2.character.quests) <= steps_ahead(
                g.world,
                g.character.quests,
            )
            &&& has_active_step(g, g.character.quests, key) ==> steps_ahead(
                g2.world,
                g2.character.quests,
            ) + 1 <= steps_ahead(g.world, g.character.quests)
        }),
{
    let w = g.world;
    let s = g.character.quests;
    if has_active_step(g, s, key) {
        let i = choose|i: int|
            0 <= i < s.len() && s[i].0 == key && (#[trigger] active_step_objective(
                g,
                key,
                s[i].1,
            )) is Some;
        lemma_unique_position(s, i);
    }
    match lookup(s, key) {
        None => {},
        Some(progress) => match lookup(w.quests, key.quest_id) {
            None => {},
            Some(quest) => match find_step(quest.steps, progress.current_step) {
                None => {},
                Some(step) => {
                    lemma_lookup_entry(s, key);
                    let p = key_position(s, key);
                    let next = advanced_progress(progress, step.next_step);
                    lemma_key_position_found(s, key);
                    assert(table_insert(s, key, next) == s.update(p, (key, next)));
                    lemma_insert_keeps_unique(s, key, next);
                    lemma_steps_ahead_update(w, s, p, (key, next));
                    if key.world_id == w.id && progress.status == QuestStatus::Active {
                        lemma_found_quest_ends(w, key.quest_id);
                        lemma_chain_advance(quest, progress.current_step);
                    }
                },
            },
        },
    }
}

/// Transitions in order leave the world alone, keep the keys unique, never add to the
/// steps ahead, and take one off them when the first key is an active quest with its step.
pub proof fn lemma_transitions_measure(g: GameView, keys: Seq<QuestKeyView>)
    requires
        quests_end(g.world),
        keys_unique(g.character.quests),
    ensures
        ({
            let g2 = apply_transitions_in_order(g, keys).0;
            &&& g2.world == g.world
            &&& g2.character.id == g.character.id
            &&& g2.character.current_room == g.character.current_room
            &&& g2.character.facts == g.character.facts
            &&& keys_unique(g2.character.quests)
            &&& steps_ahead(g2.world, g2.character.quests) <= steps_ahead(
                g.world,
                g.character.quests,
            )
            &&& keys.len() > 0 && has_active_step(g, g.character.quests, keys[0]) ==> steps_ahead(
                g2.world,
                g2.character.quests,
            ) + 1 <= steps_ahead(g.world, g.character.quests)
        }),
    decreases keys.len(),
{
    if keys.len() > 0 {
        lemma_transitions_measure(g, keys.drop_last());
        let g1 = apply_transitions_in_order(g, keys.drop_last()).0;
        lemma_transition_measure(g1, keys.last());
        if keys.len() == 1 {
            assert(keys.drop_last().len() == 0);
            assert(g1 == g);
        } else {
            assert(keys.drop_last()[0] == keys[0]);
        }
    }
}

/// Every element of a sorted insertion is the inserted one or one of the sequence's.
pub proof fn lemma_sorted_insert_members(s: Seq<QuestKeyView>, x: QuestKeyView)
    ensures
        sorted_insert::<QuestKey>(s, x).len() == s.len() + 1,
        forall|y: QuestKeyView| #[trigger]
            sorted_insert::<QuestKey>(s, x).contains(y) ==> y == x || s.contains(y),
    decreases s.len(),
{
    if s.len() > 0 {
        lemma_sorted_insert_members(s.drop_last(), x);
        let r = sorted_insert::<QuestKey>(s, x);
        assert forall|y: QuestKeyView| #[trigger] r.contains(y) implies y == x || s.contains(y) by {
            let k = choose|k: int| 0 <= k < r.len() && r[k] == y;
            if !(y == x) {
                if r == s.push(x) {
                    assert(s[k] == y);
                } else {
                    let t = sorted_insert::<QuestKey>(s.drop_last(), x);
                    if k == r.len() - 1 {
                        assert(y == s.last());
                        assert(s[s.len() - 1] == y);
                    } else {
                        assert(t[k] == y);
                        assert(t.contains(y));
                        let m = choose|m: int| 0 <= m < s.drop_last().len() && s.drop_last()[m] == y;
                        assert(s[m] == y);
                    }
                }
            }
        }
    }
}

/// Sorting keeps the length and adds no element.
pub proof fn lemma_sorted_members(s: Seq<QuestKeyView>)
    ensures
        sorted_by_text::<QuestKey>(s).len() == s.len(),
        forall|y: QuestKeyView| #[trigger]
            sorted_by_text::<QuestKey>(s).contains(y) ==> s.contains(y),
    decreases s.len(),
{
    if s.len() > 0 {
        lemma_sorted_members(s.drop_last());
        let t = sorted_by_text::<QuestKey>(s.drop_last());
        lemma_sorted_insert_members(t, s.last());
        assert forall|y: QuestKeyView| #[trigger]
            sorted_by_text::<QuestKey>(s).contains(y) implies s.contains(y) by {
            if y == s.last() {
                assert(s[s.len() - 1] == y);
            } else {
                assert(t.contains(y));
                let m = choose|m: int| 0 <= m < s.drop_last().len() && s.drop_last()[m] == y;
                assert(s[m] == y);
            }
        }
    }
}

/// A key whose objective is met is an active quest of this world with its step.
pub proof fn lemma_satisfied_active(
    g: GameView,
    entries: Seq<(QuestKeyView, QuestProgressView)>,
    key: QuestKeyView,
)
    requires
        satisfied_quests(g, entries).contains(key),
    ensures
        has_active_step(g, entries, key),
    decreases entries.len(),
{
    if entries.len() > 0 {
        let rest = satisfied_quests(g, entries.drop_last());
        let (k, progress) = entries.last();
        if rest.contains(key) {
            lemma_satisfied_active(g, entries.drop_last(), key);
            let i = choose|i: int|
                0 <= i < entries.drop_last().len() && entries.drop_last()[i].0 == key && (
                #[trigger] active_step_objective(g, key, entries.drop_last()[i].1)) is Some;
            assert(entries[i] == entries.drop_last()[i]);
        } else {
            let i = entries.len() - 1;
            assert(entries[i].0 == key);
            assert(active_step_objective(g, key, entries[i].1) is Some);
        }
    }
}

/// A round of transitions takes at least one step off what lies ahead.
pub proof fn lemma_round_measure(g: GameView)
    requires
        quests_end(g.world),
        keys_unique(g.character.quests),
        satisfied_quests(g, g.character.quests).len() > 0,
    ensures
        ({
            let g2 = apply_transitions(g, satisfied_quests(g, g.character.quests)).0;
            &&& g2.world == g.world
            &&& g2.character.id == g.character.id
            &&& g2.character.current_room == g.character.current_room
            &&& g2.character.facts == g.character.facts
            &&& keys_unique(g2.character.quests)
            &&& steps_ahead(g2.world, g2.character.quests) + 1 <= steps_ahead(
                g.world,
                g.character.quests,
            )
        }),
{
    let keys = satisfied_quests(g, g.character.quests);
    let sorted = sorted_by_text::<QuestKey>(keys);
    lemma_sorted_members(keys);
    assert(sorted.contains(sorted[0]));
    lemma_satisfied_active(g, g.character.quests, sorted[0]);
    lemma_transitions_measure(g, sorted);
}

} // verus!
