use vstd::prelude::*;

use super::direction::Direction;

verus! {

/// A count that is never zero: which of several matching things a player means, counted
/// from one.
#[derive(Debug, Clone, Copy, PartialEq, Eq)]
pub struct Ordinal {
    value: usize,
}

impl Ordinal {
    #[verifier::type_invariant]
    spec fn is_positive(self) -> bool {
        self.value > 0
    }

    /// The number held.
    pub closed spec fn spec_get(self) -> usize {
        self.value
    }

    /// A count holding `value`, or `None` when `value` is zero.
    pub fn new(value: usize) -> (ordinal: Option<Ordinal>)
        ensures
            ordinal is Some <==> value != 0,
            ordinal matches Some(o) ==> o.spec_get() == value,
    {
        if value == 0 {
            None
        } else {
            Some(Ordinal { value })
        }
    }

    /// The number held, which is at least one.
    pub fn get(&self) -> (value: usize)
        ensures
            value == self.spec_get(),
            value > 0,
    {
        proof {
            use_type_invariant(self);
        }
        self.value
    }
}

/// Which kind of thing a player named.
#[derive(Debug, Clone, Copy, PartialEq, Eq)]
pub enum TargetKind {
    Item,
    Feature,
    Npc,
}

impl View for TargetKind {
    type V = TargetKind;

    open spec fn view(&self) -> TargetKind {
        *self
    }
}

/// The view of a [`TargetQuery`].
pub struct TargetQueryView {
    pub kind: Option<TargetKind>,
    pub ordinal: Option<usize>,
    pub name: Seq<char>,
}

/// A name a player typed, perhaps restricted to one kind of thing and numbered among the
/// things that match it.
#[derive(Debug, Clone, PartialEq, Eq)]
pub struct TargetQuery {
    pub kind: Option<TargetKind>,
    pub ordinal: Option<Ordinal>,
    pub name: String,
}

impl View for TargetQuery {
    type V = TargetQueryView;

    open spec fn view(&self) -> TargetQueryView {
        TargetQueryView {
            kind: self.kind,
            ordinal: match self.ordinal {
                Some(n) => Some(n.spec_get()),
                None => None,
            },
            name: self.name@,
        }
    }
}

impl TargetQuery {
    /// A query for anything with the given name.
    pub fn any(name: String) -> (query: Self)
        ensures
            query.kind is None,
            query.ordinal is None,
            query.name == name,
    {
        Self { kind: None, ordinal: None, name }
    }

    /// A query for an item with the given name.
    pub fn item(name: String) -> (query: Self)
        ensures
            query.kind == Some(TargetKind::Item),
            query.ordinal is None,
            query.name == name,
    {
        Self { kind: Some(TargetKind::Item), ordinal: None, name }
    }

    /// A query for a room feature with the given name.
    pub fn feature(name: String) -> (query: Self)
        ensures
            query.kind == Some(TargetKind::Feature),
            query.ordinal is None,
            query.name == name,
    {
        Self { kind: Some(TargetKind::Feature), ordinal: None, name }
    }

    /// A query for a non-player character with the given name.
    pub fn npc(name: String) -> (query: Self)
        ensures
            query.kind == Some(TargetKind::Npc),
            query.ordinal is None,
            query.name == name,
    {
        Self { kind: Some(TargetKind::Npc), ordinal: None, name }
    }

    /// The same query, asking for the `ordinal`-th match.
    pub fn with_ordinal(self, ordinal: Ordinal) -> (query: Self)
        ensures
            query.kind == self.kind,
            query.ordinal == Some(ordinal),
            query.name == self.name,
    {
        let mut query = self;
        query.ordinal = Some(ordinal);
        query
    }
}

impl From<String> for TargetQuery {
    fn from(name: String) -> (query: Self) {
        Self::any(name)
    }
}

impl vstd::std_specs::convert::FromSpecImpl<String> for TargetQuery {
    open spec fn obeys_from_spec() -> bool {
        true
    }

    open spec fn from_spec(name: String) -> TargetQuery {
        TargetQuery { kind: None, ordinal: None, name }
    }
}

/// The view of an [`AskQuery`].
pub struct AskQueryView {
    pub npc: TargetQueryView,
    pub topic: Seq<char>,
}

/// A question about a topic, put to a non-player character.
#[derive(Debug, Clone, PartialEq, Eq)]
pub struct AskQuery {
    pub npc: TargetQuery,
    pub topic: String,
}

impl View for AskQuery {
    type V = AskQueryView;

    open spec fn view(&self) -> AskQueryView {
        AskQueryView { npc: self.npc@, topic: self.topic@ }
    }
}

/// The view of a [`Command`].
pub enum CommandView {
    Look,
    Exits,
    Help,
    Move(Direction),
    Take(TargetQueryView),
    Inventory,
    Quests,
    Drop(TargetQueryView),
    Examine(TargetQueryView),
    Talk(TargetQueryView),
    Ask(AskQueryView),
}

impl View for Command {
    type V = CommandView;

    open spec fn view(&self) -> CommandView {
        match self {
            Command::Look => CommandView::Look,
            Command::Exits => CommandView::Exits,
            Command::Help => CommandView::Help,
            Command::Move(d) => CommandView::Move(*d),
            Command::Take(q) => CommandView::Take(q@),
            Command::Inventory => CommandView::Inventory,
            Command::Quests => CommandView::Quests,
            Command::Drop(q) => CommandView::Drop(q@),
            Command::Examine(q) => CommandView::Examine(q@),
            Command::Talk(q) => CommandView::Talk(q@),
            Command::Ask(q) => CommandView::Ask(q@),
        }
    }
}

/// Something a player asks the game to do.
#[derive(Debug, Clone, PartialEq, Eq)]
pub enum Command {
    Look,
    Exits,
    Help,
    Move(Direction),
    Take(TargetQuery),
    Inventory,
    Quests,
    Drop(TargetQuery),
    Examine(TargetQuery),
    Talk(TargetQuery),
    Ask(AskQuery),
}

} // verus!
