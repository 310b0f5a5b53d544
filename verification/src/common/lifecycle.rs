//! Layout elements: their identifiers and data, the entries a layout is
//! saved as, and the registry that finds an element's entity by its
//! identifier.
use vstd::prelude::*;
use crate::common::block::{Block, BlockData};
use crate::common::connection::{Connection, ConnectionData};
use crate::common::layout_primitives::{BlockID, TrackConnectionID, TrackID, TrainID};
use crate::common::marker::{Marker, MarkerData};
use crate::keyed::{Key, KeyedMap};

verus! {

/// A kind of layout element: what identifies one, and what data it carries.
pub trait LayoutElement {
    type ID: Key;
    type Data;
}

/// Marker type for the track element kind.
#[derive(Clone, Copy, Debug)]
pub struct Track;

/// Layout data of a track; the identifier holds everything.
#[derive(Clone, Copy, Debug, PartialEq, Eq, Structural)]
pub struct TrackData;

impl Default for TrackData {
    fn default() -> (r: Self)
        ensures
            r == TrackData,
    {
        TrackData
    }
}

/// Marker type for the train element kind.
#[derive(Clone, Copy, Debug)]
pub struct Train;

/// Layout data of a train.
#[derive(Clone, Debug)]
pub struct TrainData {
    pub name: String,
}

impl Default for TrainData {
    fn default() -> (r: Self)
        ensures
            r.name@ == Seq::<char>::empty(),
    {
        TrainData { name: String::new() }
    }
}

impl LayoutElement for Track {
    type ID = TrackID;
    type Data = TrackData;
}

impl LayoutElement for Connection {
    type ID = TrackConnectionID;
    type Data = ConnectionData;
}

impl LayoutElement for Marker {
    type ID = TrackID;
    type Data = MarkerData;
}

impl LayoutElement for Block {
    type ID = BlockID;
    type Data = BlockData;
}

impl LayoutElement for Train {
    type ID = TrainID;
    type Data = TrainData;
}

/// The identifier an element's entity carries.
pub struct ElementId<T: LayoutElement>(pub T::ID);

/// The data an element's entity carries.
pub struct ElementData<T: LayoutElement>(pub T::Data);

/// An element as a layout stores it: its identifier and its data.
pub struct ElementEntry<T: LayoutElement> {
    pub id: T::ID,
    pub data: T::Data,
}

impl<T: LayoutElement> ElementEntry<T> {
    pub fn new(id: T::ID, data: T::Data) -> (r: Self)
        ensures
            r.id == id,
            r.data == data,
    {
        ElementEntry { id, data }
    }
}

/// A request to spawn an element.
pub struct SpawnElement<T: LayoutElement> {
    pub id: T::ID,
    pub data: T::Data,
}

impl<T: LayoutElement> SpawnElement<T> {
    pub fn new(id: T::ID, data: T::Data) -> (r: Self)
        ensures
            r.id == id,
            r.data == data,
    {
        SpawnElement { id, data }
    }

    /// The spawn request of a saved entry: its identifier and a clone of its data.
    pub fn from_entry(entry: &ElementEntry<T>) -> (r: Self)
        where T::Data: Clone,
        ensures
            r.id == entry.id,
            cloned::<T::Data>(entry.data, r.data),
    {
        SpawnElement::new(entry.id, entry.data.clone())
    }
}

/// Per-kind registry from element identifiers to their entities.
pub struct Registry<T: LayoutElement, E> {
    map: KeyedMap<T::ID, E>,
}

impl<T: LayoutElement, E: Copy> Registry<T, E> {
    pub closed spec fn view(&self) -> Map<T::ID, E> {
        self.map@
    }

    pub fn new() -> (r: Self)
        ensures
            r@ == Map::<T::ID, E>::empty(),
    {
        Registry { map: KeyedMap::new() }
    }

    pub fn insert(&mut self, id: T::ID, entity: E)
        ensures
            final(self)@ == old(self)@.insert(id, entity),
    {
        self.map.insert(id, entity);
    }

    pub fn remove(&mut self, id: &T::ID) -> (r: Option<E>)
        ensures
            final(self)@ == old(self)@.remove(*id),
            r == (if old(self)@.contains_key(*id) { Some(old(self)@[*id]) } else { None }),
    {
        self.map.remove(id)
    }

    pub fn get(&self, id: &T::ID) -> (r: Option<E>)
        ensures
            r == (if self@.contains_key(*id) { Some(self@[*id]) } else { None }),
    {
        match self.map.get(id) {
            Some(e) => Some(*e),
            None => None,
        }
    }

    pub fn contains(&self, id: &T::ID) -> (r: bool)
        ensures
            r == self@.contains_key(*id),
    {
        self.map.contains_key(id)
    }

    pub fn len(&self) -> (r: usize)
        ensures
            self@.dom().finite(),
            r == self@.dom().len(),
    {
        self.map.len()
    }

    pub fn is_empty(&self) -> (r: bool)
        ensures
            r == (self@.dom().len() == 0),
    {
        self.map.is_empty()
    }

    /// The registered identifiers with their entities, each once.
    pub fn iter(&self) -> (r: Vec<(T::ID, E)>)
        ensures
            r@.len() == self@.dom().len(),
            forall|i: int| 0 <= i < r@.len() ==> self@.contains_key(#[trigger] r@[i].0) && self@[r@[i].0] == r@[i].1,
            forall|i: int, j: int| 0 <= i < j < r@.len() ==> r@[i].0 != r@[j].0,
            forall|id: T::ID| self@.contains_key(id) ==> exists|i: int| 0 <= i < r@.len() && #[trigger] r@[i].0 == id,
    {
        self.map.entries()
    }
}

/// Spawns the element a request asks for on the entity the world handed out:
/// the entity is registered under the request's identifier, and the
/// identifier and a clone of the data are what the entity carries.
pub fn spawn_element<T: LayoutElement, E: Copy>(
    registry: &mut Registry<T, E>,
    msg: &SpawnElement<T>,
    entity: E,
) -> (r: (ElementId<T>, ElementData<T>))
    where T::Data: Clone,
    ensures
        final(registry)@ == old(registry)@.insert(msg.id, entity),
        r.0.0 == msg.id,
        cloned::<T::Data>(msg.data, r.1.0),
{
    registry.insert(msg.id, entity);
    (ElementId(msg.id), ElementData(msg.data.clone()))
}

/// Handles a despawn request on an entity: where the entity carries an
/// identifier of this kind, it leaves the registry and the result says that
/// the entity is to be despawned; an entity of another kind is left alone.
pub fn on_despawn_element<T: LayoutElement, E: Copy>(
    registry: &mut Registry<T, E>,
    element_id: Option<&ElementId<T>>,
) -> (r: bool)
    ensures
        r == element_id.is_some(),
        match element_id {
            Some(id) => final(registry)@ == old(registry)@.remove(id.0),
            None => final(registry)@ == old(registry)@,
        },
{
    match element_id {
        Some(id) => {
            registry.remove(&id.0);
            true
        },
        None => false,
    }
}

/// Flattens the entity lists of a layout's registries, in order.
pub open spec fn flatten_entities<E>(lists: Seq<Seq<E>>) -> Seq<E>
    decreases lists.len(),
{
    if lists.len() == 0 {
        Seq::empty()
    } else {
        flatten_entities(lists.drop_last()) + lists.last()
    }
}

/// The entities that a despawn request goes to when a whole layout goes:
/// every entity registered in each of its registries, registry by registry.
pub fn despawn_all_in_layout<E: Copy>(registries: &Vec<Vec<E>>) -> (r: Vec<E>)
    ensures
        r@ == flatten_entities(registries@.map_values(|l: Vec<E>| l@)),
{
    let mut out: Vec<E> = Vec::new();
    let ghost lists = registries@.map_values(|l: Vec<E>| l@);
    for i in 0..registries.len()
        invariant
            lists == registries@.map_values(|l: Vec<E>| l@),
            out@ == flatten_entities(lists.take(i as int)),
    {
        let list = &registries[i];
        let ghost before = out@;
        for j in 0..list.len()
            invariant
                out@ == before + list@.take(j as int),
        {
            out.push(list[j]);
            proof {
                assert(list@.take(j as int + 1) == list@.take(j as int).push(list@[j as int]));
            }
        }
        proof {
            assert(list@.take(list@.len() as int) == list@);
            assert(lists.take(i as int + 1).drop_last() == lists.take(i as int));
        }
    }
    proof {
        assert(lists.take(registries@.len() as int) == lists);
    }
    out
}

} // verus!
