use vstd::prelude::*;

use super::exit::views;
use super::feature::{RoomFeature, RoomFeatureView};
use super::ids::{CharacterId, FactId, FeatureId, ItemId, NpcId, QuestId, RoomId, WorldId};
use super::item::{Item, ItemView};
use super::item_location::{ItemLocation, ItemLocationView, ItemPlacement, ItemPlacementView};
use super::npc::{Npc, NpcView};
use super::quest::{Quest, QuestView};
use super::room::{Room, RoomView};
use super::table::{lookup, table_insert, KeySet, Table};

verus! {

/// The view of a [`World`].
pub struct WorldView {
    pub id: Seq<char>,
    pub name: Seq<char>,
    pub starting_room: Seq<char>,
    pub facts: Seq<Seq<char>>,
    pub quests: Seq<(Seq<char>, QuestView)>,
    pub items: Seq<(Seq<char>, ItemView)>,
    pub item_placements: Seq<ItemPlacementView>,
    pub features: Seq<(Seq<char>, RoomFeatureView)>,
    pub npcs: Seq<(Seq<char>, NpcView)>,
    pub rooms: Seq<(Seq<char>, RoomView)>,
}

/// Everything a world is made of, and where its items are now.
#[derive(Debug)]
pub struct World {
    pub id: WorldId,
    pub name: String,
    pub starting_room: RoomId,
    pub facts: KeySet<FactId>,
    pub quests: Table<QuestId, Quest>,
    pub items: Table<ItemId, Item>,
    pub item_placements: Vec<ItemPlacement>,
    pub features: Table<FeatureId, RoomFeature>,
    pub npcs: Table<NpcId, Npc>,
    pub rooms: Table<RoomId, Room>,
}

impl View for World {
    type V = WorldView;

    open spec fn view(&self) -> WorldView {
        WorldView {
            id: self.id@,
            name: self.name@,
            starting_room: self.starting_room@,
            facts: self.facts@,
            quests: self.quests@,
            items: self.items@,
            item_placements: views(self.item_placements@),
            features: self.features@,
            npcs: self.npcs@,
            rooms: self.rooms@,
        }
    }
}

/// The position of the first placement of `item`, or -1 when there is none.
pub open spec fn placement_position(placements: Seq<ItemPlacementView>, item: Seq<char>) -> int
    decreases placements.len(),
{
    if placements.len() == 0 {
        -1
    } else if placements[0].item_id == item {
        0
    } else {
        let rest = placement_position(placements.drop_first(), item);
        if rest < 0 {
            -1
        } else {
            rest + 1
        }
    }
}

/// Where the first placement of `item` puts it.
pub open spec fn location_of(placements: Seq<ItemPlacementView>, item: Seq<char>) -> Option<
    ItemLocationView,
> {
    let p = placement_position(placements, item);
    if p >= 0 {
        Some(placements[p].location)
    } else {
        None
    }
}

/// The items placed at `location`, in placement order.
pub open spec fn items_at(placements: Seq<ItemPlacementView>, location: ItemLocationView) -> Seq<
    Seq<char>,
>
    decreases placements.len(),
{
    if placements.len() == 0 {
        Seq::empty()
    } else {
        let rest = items_at(placements.drop_last(), location);
        if placements.last().location == location {
            rest.push(placements.last().item_id)
        } else {
            rest
        }
    }
}

/// Whether an item at `location` can be reached from `room`: it lies in the room or on
/// one of the room's features.
pub open spec fn accessible_from(location: ItemLocationView, room: RoomView) -> bool {
    match location {
        ItemLocationView::Room(id) => id == room.id,
        ItemLocationView::OnFeature(id) => room.features.contains(id),
        _ => false,
    }
}

/// The items that can be reached from `room`, in placement order.
pub open spec fn items_accessible(placements: Seq<ItemPlacementView>, room: RoomView) -> Seq<
    Seq<char>,
>
    decreases placements.len(),
{
    if placements.len() == 0 {
        Seq::empty()
    } else {
        let rest = items_accessible(placements.drop_last(), room);
        if accessible_from(placements.last().location, room) {
            rest.push(placements.last().item_id)
        } else {
            rest
        }
    }
}

/// The placements after the first placement of `item` is taken out and appended again with
/// its new location; unchanged when the item has no placement.
pub open spec fn placements_after_move(
    placements: Seq<ItemPlacementView>,
    item: Seq<char>,
    location: ItemLocationView,
) -> Seq<ItemPlacementView> {
    let p = placement_position(placements, item);
    if p >= 0 {
        placements.remove(p).push(ItemPlacementView { item_id: placements[p].item_id, location })
    } else {
        placements
    }
}

/// A found placement position holds the item, with no earlier placement of it.
pub proof fn lemma_placement_position(placements: Seq<ItemPlacementView>, item: Seq<char>)
    ensures
        -1 <= placement_position(placements, item) < placements.len(),
        placement_position(placements, item) >= 0 ==> placements[placement_position(
            placements,
            item,
        )].item_id == item,
        forall|j: int|
            0 <= j < placements.len() && (placement_position(placements, item) < 0 || j
                < placement_position(placements, item)) ==> placements[j].item_id != item,
    decreases placements.len(),
{
    if placements.len() > 0 {
        let rest = placements.drop_first();
        lemma_placement_position(rest, item);
        assert forall|j: int|
            0 <= j < placements.len() && (placement_position(placements, item) < 0 || j
                < placement_position(placements, item)) implies placements[j].item_id
            != item by {
            if j > 0 {
                assert(placements[j] == rest[j - 1]);
            }
        }
    }
}

/// The first match found scanning from the front is the first placement of the item.
pub proof fn lemma_placement_scan(placements: Seq<ItemPlacementView>, item: Seq<char>, i: int)
    requires
        0 <= i <= placements.len(),
        forall|j: int| 0 <= j < i ==> placements[j].item_id != item,
    ensures
        i < placements.len() && placements[i].item_id == item ==> placement_position(
            placements,
            item,
        ) == i,
        i == placements.len() ==> placement_position(placements, item) == -1,
    decreases i,
{
    if i > 0 {
        let rest = placements.drop_first();
        assert forall|j: int| 0 <= j < i - 1 implies rest[j].item_id != item by {
            assert(rest[j] == placements[j + 1]);
        }
        lemma_placement_scan(rest, item, i - 1);
        if i < placements.len() {
            assert(rest[i - 1] == placements[i]);
        }
    }
}

/// Whether two locations are the same place.
pub fn same_location(a: &ItemLocation, b: &ItemLocation) -> (same: bool)
    ensures
        same == (a@ == b@),
{
    match (a, b) {
        (ItemLocation::Nowhere, ItemLocation::Nowhere) => true,
        (ItemLocation::Room(x), ItemLocation::Room(y)) => x.0 == y.0,
        (ItemLocation::CarriedBy(x), ItemLocation::CarriedBy(y)) => x.0 == y.0,
        (ItemLocation::OnFeature(x), ItemLocation::OnFeature(y)) => x.0 == y.0,
        _ => false,
    }
}

impl World {
    /// The room with identifier `id`.
    pub fn room(&self, id: &RoomId) -> (room: Option<&Room>)
        ensures
            opt_ref_view(room) == lookup(self@.rooms, id@),
    {
        self.rooms.get(id)
    }

    /// The room with identifier `id`, to be changed in place; what it is changed to becomes
    /// the world's room under `id`, and nothing else of the world changes.
    pub fn room_mut(&mut self, id: &RoomId) -> (room: Option<&mut Room>)
        ensures
            match room {
                Some(r) => lookup(old(self)@.rooms, id@) == Some((*r)@) && final(self)@ == (
                WorldView { rooms: table_insert(old(self)@.rooms, id@, (*final(r))@), ..old(self)@ }),
                None => lookup(old(self)@.rooms, id@) is None && final(self)@ == old(self)@,
            },
    {
        self.rooms.get_mut(id)
    }

    /// The item with identifier `id`.
    pub fn item(&self, id: &ItemId) -> (item: Option<&Item>)
        ensures
            opt_ref_view(item) == lookup(self@.items, id@),
    {
        self.items.get(id)
    }

    /// The position of the first placement of the item.
    fn placement_index(&self, id: &ItemId) -> (position: Option<usize>)
        ensures
            match position {
                Some(p) => placement_position(self@.item_placements, id@) == p as int,
                None => placement_position(self@.item_placements, id@) == -1,
            },
    {
        let n = self.item_placements.len();
        let mut i: usize = 0;
        while i < n
            invariant
                0 <= i <= n,
                n == self@.item_placements.len(),
                forall|j: int| 0 <= j < i ==> self@.item_placements[j].item_id != id@,
            decreases n - i,
        {
            assert(self@.item_placements[i as int] == self.item_placements[i as int]@);
            if self.item_placements[i].item_id.0 == id.0 {
                proof {
                    lemma_placement_scan(self@.item_placements, id@, i as int);
                }
                return Some(i);
            }
            i = i + 1;
        }
        proof {
            lemma_placement_scan(self@.item_placements, id@, i as int);
        }
        None
    }

    /// Where the item with identifier `id` is.
    pub fn item_location(&self, id: &ItemId) -> (location: Option<&ItemLocation>)
        ensures
            opt_ref_view(location) == location_of(self@.item_placements, id@),
    {
        proof {
            lemma_placement_position(self@.item_placements, id@);
        }
        match self.placement_index(id) {
            Some(p) => {
                assert(self@.item_placements[p as int] == self.item_placements[p as int]@);
                Some(&self.item_placements[p].location)
            },
            None => None,
        }
    }

    /// The items placed at `location`, in placement order.
    pub fn item_ids_at(&self, location: &ItemLocation) -> (ids: Vec<ItemId>)
        ensures
            views(ids@) == items_at(self@.item_placements, location@),
    {
        let mut ids: Vec<ItemId> = Vec::new();
        let n = self.item_placements.len();
        for i in 0..n
            invariant
                n == self@.item_placements.len(),
                views(ids@) == items_at(self@.item_placements.take(i as int), location@),
        {
            let ghost prefix = self@.item_placements.take(i as int);
            let ghost next = self@.item_placements.take(i + 1);
            assert(next.drop_last() =~= prefix);
            assert(next.last() == self.item_placements[i as int]@);
            if same_location(&self.item_placements[i].location, location) {
                ids.push(self.item_placements[i].item_id.clone());
                assert(views(ids@) =~= items_at(prefix, location@).push(next.last().item_id));
            }
        }
        assert(self@.item_placements.take(n as int) =~= self@.item_placements);
        ids
    }

    /// The items lying in the room `room_id`, in placement order.
    pub fn item_ids_in_room(&self, room_id: &RoomId) -> (ids: Vec<ItemId>)
        ensures
            views(ids@) == items_at(self@.item_placements, ItemLocationView::Room(room_id@)),
    {
        self.item_ids_at(&ItemLocation::Room(room_id.clone()))
    }

    /// The items carried by the character `character_id`, in placement order.
    pub fn item_ids_carried_by(&self, character_id: &CharacterId) -> (ids: Vec<ItemId>)
        ensures
            views(ids@) == items_at(
                self@.item_placements,
                ItemLocationView::CarriedBy(character_id@),
            ),
    {
        self.item_ids_at(&ItemLocation::CarriedBy(character_id.clone()))
    }

    /// The items on the feature `feature_id`, in placement order.
    pub fn item_ids_on_feature(&self, feature_id: &FeatureId) -> (ids: Vec<ItemId>)
        ensures
            views(ids@) == items_at(self@.item_placements, ItemLocationView::OnFeature(feature_id@)),
    {
        self.item_ids_at(&ItemLocation::OnFeature(feature_id.clone()))
    }

    /// The items that lie in `room` or on one of its features, in placement order.
    pub fn item_ids_accessible_in_room(&self, room: &Room) -> (ids: Vec<ItemId>)
        ensures
            views(ids@) == items_accessible(self@.item_placements, room@),
    {
        let mut ids: Vec<ItemId> = Vec::new();
        let n = self.item_placements.len();
        for i in 0..n
            invariant
                n == self@.item_placements.len(),
                views(ids@) == items_accessible(self@.item_placements.take(i as int), room@),
        {
            let ghost prefix = self@.item_placements.take(i as int);
            let ghost next = self@.item_placements.take(i + 1);
            assert(next.drop_last() =~= prefix);
            assert(next.last() == self.item_placements[i as int]@);
            let accessible = match &self.item_placements[i].location {
                ItemLocation::Room(room_id) => room_id.0 == room.id.0,
                ItemLocation::OnFeature(feature_id) => contains_feature(&room.features, feature_id),
                ItemLocation::Nowhere | ItemLocation::CarriedBy(_) => false,
            };
            if accessible {
                ids.push(self.item_placements[i].item_id.clone());
                assert(views(ids@) =~= items_accessible(prefix, room@).push(next.last().item_id));
            }
        }
        assert(self@.item_placements.take(n as int) =~= self@.item_placements);
        ids
    }

    /// Moves the item `item_id` to `location`: its placement is taken out and appended with
    /// the new location. Returns false, changing nothing, when the item has no placement.
    pub fn move_item(&mut self, item_id: &ItemId, location: ItemLocation) -> (moved: bool)
        ensures
            moved == (placement_position(old(self)@.item_placements, item_id@) >= 0),
            final(self)@ == (WorldView {
                item_placements: placements_after_move(
                    old(self)@.item_placements,
                    item_id@,
                    location@,
                ),
                ..old(self)@
            }),
    {
        proof {
            lemma_placement_position(self@.item_placements, item_id@);
        }
        let position = match self.placement_index(item_id) {
            Some(p) => p,
            None => {
                return false;
            },
        };
        let ghost before = self@.item_placements;
        let mut placement = self.item_placements.remove(position);
        assert(placement@ == before[position as int]);
        placement.location = location;
        self.item_placements.push(placement);
        assert(self@.item_placements =~= placements_after_move(before, item_id@, location@));
        true
    }

    /// The feature with identifier `id`.
    pub fn feature(&self, id: &FeatureId) -> (feature: Option<&RoomFeature>)
        ensures
            opt_ref_view(feature) == lookup(self@.features, id@),
    {
        self.features.get(id)
    }

    /// The non-player character with identifier `id`.
    pub fn npc(&self, id: &NpcId) -> (npc: Option<&Npc>)
        ensures
            opt_ref_view(npc) == lookup(self@.npcs, id@),
    {
        self.npcs.get(id)
    }

    /// Whether the world declares the fact `id`.
    pub fn declares_fact(&self, id: &FactId) -> (declared: bool)
        ensures
            declared == self@.facts.contains(id@),
    {
        self.facts.contains(id)
    }

    /// The quest with identifier `id`.
    pub fn quest(&self, id: &QuestId) -> (quest: Option<&Quest>)
        ensures
            opt_ref_view(quest) == lookup(self@.quests, id@),
    {
        self.quests.get(id)
    }
}

/// The view of an optional reference.
pub open spec fn opt_ref_view<T: View>(o: Option<&T>) -> Option<T::V> {
    match o {
        Some(x) => Some(x@),
        None => None,
    }
}

/// Whether `ids` holds `id`.
pub fn contains_feature(ids: &Vec<FeatureId>, id: &FeatureId) -> (found: bool)
    ensures
        found == views(ids@).contains(id@),
{
    let n = ids.len();
    for i in 0..n
        invariant
            n == ids@.len(),
            forall|j: int| 0 <= j < i ==> ids@[j]@ != id@,
    {
        if ids[i].0 == id.0 {
            assert(views(ids@)[i as int] == id@);
            return true;
        }
    }
    assert forall|j: int| 0 <= j < views(ids@).len() implies views(ids@)[j] != id@ by {
        assert(views(ids@)[j] == ids@[j]@);
    }
    false
}

} // verus!
