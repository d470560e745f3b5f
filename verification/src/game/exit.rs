use vstd::prelude::*;

use super::ids::{FactId, ItemId, RoomId};

verus! {

/// The view of an [`ExitRequirement`].
pub enum ExitRequirementView {
    CarryingItem(Seq<char>),
    KnowsFact(Seq<char>),
}

/// A condition a character must meet to pass through an exit.
#[derive(Debug, Clone, PartialEq, Eq)]
pub enum ExitRequirement {
    CarryingItem(ItemId),
    KnowsFact(FactId),
}

impl View for ExitRequirement {
    type V = ExitRequirementView;

    open spec fn view(&self) -> ExitRequirementView {
        match self {
            ExitRequirement::CarryingItem(item) => ExitRequirementView::CarryingItem(item@),
            ExitRequirement::KnowsFact(fact) => ExitRequirementView::KnowsFact(fact@),
        }
    }
}

/// The views of the elements of a sequence.
pub open spec fn views<T: View>(s: Seq<T>) -> Seq<T::V> {
    s.map_values(|x: T| x@)
}

/// The view of an optional value.
pub open spec fn opt_view<T: View>(o: Option<T>) -> Option<T::V> {
    match o {
        Some(x) => Some(x@),
        None => None,
    }
}

/// The view of an [`Exit`].
pub struct ExitView {
    pub destination: Seq<char>,
    pub requirements: Seq<ExitRequirementView>,
    pub failure_message: Option<Seq<char>>,
}

/// A way out of a room, perhaps open only to characters that meet its requirements.
#[derive(Debug, Clone, PartialEq, Eq)]
pub struct Exit {
    pub destination: RoomId,
    pub requirements: Vec<ExitRequirement>,
    pub failure_message: Option<String>,
}

impl View for Exit {
    type V = ExitView;

    open spec fn view(&self) -> ExitView {
        ExitView {
            destination: self.destination@,
            requirements: views(self.requirements@),
            failure_message: opt_view(self.failure_message),
        }
    }
}

impl Exit {
    /// An exit to `destination` with no requirements.
    pub fn unrestricted(destination: RoomId) -> (exit: Self)
        ensures
            exit@ == (ExitView {
                destination: destination@,
                requirements: Seq::empty(),
                failure_message: None,
            }),
    {
        let exit = Self { destination, requirements: Vec::new(), failure_message: None };
        assert(exit@.requirements =~= Seq::<ExitRequirementView>::empty());
        exit
    }
}

} // verus!
