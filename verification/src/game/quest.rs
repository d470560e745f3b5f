use vstd::prelude::*;

use super::exit::views;
use super::ids::{ItemId, NpcId, NpcTopicId, QuestId, QuestStepId, RoomId};

verus! {

/// The view of a [`QuestObjective`].
pub enum QuestObjectiveView {
    ReachRoom(Seq<char>),
    PossessItem(Seq<char>),
    AskTopic { npc_id: Seq<char>, topic_id: Seq<char> },
}

/// What a character must do to finish a step of a quest.
#[derive(Debug, Clone, PartialEq, Eq)]
pub enum QuestObjective {
    ReachRoom(RoomId),
    PossessItem(ItemId),
    AskTopic { npc_id: NpcId, topic_id: NpcTopicId },
}

impl View for QuestObjective {
    type V = QuestObjectiveView;

    open spec fn view(&self) -> QuestObjectiveView {
        match self {
            QuestObjective::ReachRoom(room) => QuestObjectiveView::ReachRoom(room@),
            QuestObjective::PossessItem(item) => QuestObjectiveView::PossessItem(item@),
            QuestObjective::AskTopic { npc_id, topic_id } => QuestObjectiveView::AskTopic {
                npc_id: npc_id@,
                topic_id: topic_id@,
            },
        }
    }
}

/// The view of a [`QuestStep`].
pub struct QuestStepView {
    pub id: Seq<char>,
    pub description: Seq<char>,
    pub objective: QuestObjectiveView,
    pub next_step: Option<Seq<char>>,
}

/// One step of a quest, and the step that follows it, if any.
#[derive(Debug, Clone)]
pub struct QuestStep {
    pub id: QuestStepId,
    pub description: String,
    pub objective: QuestObjective,
    pub next_step: Option<QuestStepId>,
}

impl View for QuestStep {
    type V = QuestStepView;

    open spec fn view(&self) -> QuestStepView {
        QuestStepView {
            id: self.id@,
            description: self.description@,
            objective: self.objective@,
            next_step: match self.next_step {
                Some(id) => Some(id@),
                None => None,
            },
        }
    }
}

/// The view of a [`Quest`].
pub struct QuestView {
    pub id: Seq<char>,
    pub name: Seq<char>,
    pub description: Seq<char>,
    pub starting_step: Seq<char>,
    pub steps: Seq<QuestStepView>,
}

/// A quest: a chain of steps starting from one of them.
#[derive(Debug, Clone)]
pub struct Quest {
    pub id: QuestId,
    pub name: String,
    pub description: String,
    pub starting_step: QuestStepId,
    pub steps: Vec<QuestStep>,
}

impl View for Quest {
    type V = QuestView;

    open spec fn view(&self) -> QuestView {
        QuestView {
            id: self.id@,
            name: self.name@,
            description: self.description@,
            starting_step: self.starting_step@,
            steps: views(self.steps@),
        }
    }
}

/// The first step of `steps` with identifier `id`.
pub open spec fn find_step(steps: Seq<QuestStepView>, id: Seq<char>) -> Option<QuestStepView>
    decreases steps.len(),
{
    if steps.len() == 0 {
        None
    } else if steps[0].id == id {
        Some(steps[0])
    } else {
        find_step(steps.drop_first(), id)
    }
}

impl Quest {
    /// The step of this quest with identifier `id`; the first one if several share it.
    pub fn step(&self, id: &QuestStepId) -> (step: Option<&QuestStep>)
        ensures
            match step {
                Some(s) => find_step(self@.steps, id@) == Some(s@),
                None => find_step(self@.steps, id@) is None,
            },
    {
        let n = self.steps.len();
        let mut i: usize = 0;
        assert(self@.steps.skip(0) =~= self@.steps);
        while i < n
            invariant
                0 <= i <= n,
                n == self@.steps.len(),
                find_step(self@.steps, id@) == find_step(self@.steps.skip(i as int), id@),
            decreases n - i,
        {
            assert(self@.steps.skip(i as int)[0] == self@.steps[i as int]);
            if self.steps[i].id.0 == id.0 {
                return Some(&self.steps[i]);
            }
            assert(self@.steps.skip(i as int).drop_first() =~= self@.steps.skip(i + 1));
            i = i + 1;
        }
        assert(self@.steps.skip(i as int).len() == 0);
        None
    }
}

/// Whether a tracked quest is still under way.
#[derive(Debug, Clone, Copy, PartialEq, Eq)]
pub enum QuestStatus {
    Active,
    Completed,
}

impl View for QuestStatus {
    type V = QuestStatus;

    open spec fn view(&self) -> QuestStatus {
        *self
    }
}

/// The view of a [`QuestProgress`].
pub struct QuestProgressView {
    pub status: QuestStatus,
    pub current_step: Seq<char>,
}

/// How far a character has come in a quest.
#[derive(Debug, PartialEq, Eq)]
pub struct QuestProgress {
    pub status: QuestStatus,
    pub current_step: QuestStepId,
}

impl View for QuestProgress {
    type V = QuestProgressView;

    open spec fn view(&self) -> QuestProgressView {
        QuestProgressView { status: self.status, current_step: self.current_step@ }
    }
}

impl Clone for QuestProgress {
    fn clone(&self) -> (copy: Self)
        ensures
            copy == *self,
    {
        QuestProgress { status: self.status, current_step: self.current_step.clone() }
    }
}

} // verus!
