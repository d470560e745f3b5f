use vstd::prelude::*;

use super::exit::{opt_view, views};
use super::ids::{FeatureId, ItemId};

verus! {

/// The view of a [`Supporter`].
pub struct SupporterView {
    pub capacity: Option<usize>,
    pub accepts_items: Seq<Seq<char>>,
    pub rejection_message: Option<Seq<char>>,
    pub full_message: Option<Seq<char>>,
}

/// What lets items be put on a feature.
#[derive(Debug, Clone, PartialEq, Eq)]
pub struct Supporter {
    pub capacity: Option<usize>,
    pub accepts_items: Vec<ItemId>,
    pub rejection_message: Option<String>,
    pub full_message: Option<String>,
}

impl View for Supporter {
    type V = SupporterView;

    open spec fn view(&self) -> SupporterView {
        SupporterView {
            capacity: self.capacity,
            accepts_items: views(self.accepts_items@),
            rejection_message: opt_view(self.rejection_message),
            full_message: opt_view(self.full_message),
        }
    }
}

/// The view of a [`RoomFeature`].
pub struct RoomFeatureView {
    pub id: Seq<char>,
    pub name: Seq<char>,
    pub room_description: Seq<char>,
    pub description: Seq<char>,
    pub supporter: Option<SupporterView>,
}

/// A fixed part of a room that can be examined, and perhaps hold items.
#[derive(Debug, Clone)]
pub struct RoomFeature {
    pub id: FeatureId,
    pub name: String,
    pub room_description: String,
    pub description: String,
    pub supporter: Option<Supporter>,
}

impl View for RoomFeature {
    type V = RoomFeatureView;

    open spec fn view(&self) -> RoomFeatureView {
        RoomFeatureView {
            id: self.id@,
            name: self.name@,
            room_description: self.room_description@,
            description: self.description@,
            supporter: opt_view(self.supporter),
        }
    }
}

} // verus!
