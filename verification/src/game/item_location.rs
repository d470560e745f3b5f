use vstd::prelude::*;

use super::ids::{CharacterId, FeatureId, ItemId, RoomId};

verus! {

/// The view of an [`ItemLocation`].
pub enum ItemLocationView {
    Nowhere,
    Room(Seq<char>),
    CarriedBy(Seq<char>),
    OnFeature(Seq<char>),
}

/// Where an item is.
#[derive(Debug, Clone, PartialEq, Eq)]
pub enum ItemLocation {
    Nowhere,
    Room(RoomId),
    CarriedBy(CharacterId),
    OnFeature(FeatureId),
}

impl View for ItemLocation {
    type V = ItemLocationView;

    open spec fn view(&self) -> ItemLocationView {
        match self {
            ItemLocation::Nowhere => ItemLocationView::Nowhere,
            ItemLocation::Room(id) => ItemLocationView::Room(id@),
            ItemLocation::CarriedBy(id) => ItemLocationView::CarriedBy(id@),
            ItemLocation::OnFeature(id) => ItemLocationView::OnFeature(id@),
        }
    }
}

/// The view of an [`ItemPlacement`].
pub struct ItemPlacementView {
    pub item_id: Seq<char>,
    pub location: ItemLocationView,
}

/// Where one item is.
#[derive(Debug, Clone, PartialEq, Eq)]
pub struct ItemPlacement {
    pub item_id: ItemId,
    pub location: ItemLocation,
}

impl View for ItemPlacement {
    type V = ItemPlacementView;

    open spec fn view(&self) -> ItemPlacementView {
        ItemPlacementView { item_id: self.item_id@, location: self.location@ }
    }
}

} // verus!
