//! Blocks: stretches of track a train can stop in, with the markers that
//! tell a train it has arrived.
use vstd::prelude::*;
use crate::connections::Connections;
use crate::layout::{EntityMap, MarkerMap};
use crate::layout_primitives::{
    block_new, default_in_marker_track, dirtrack_opposite, logical_reversed, BlockDirection, BlockID,
    DirectedTrackID, Facing, LogicalBlockID, LogicalTrackID,
};
use crate::marker::{Marker, MarkerColor, MarkerKey, MarkerSpeed};
use crate::section::{DirectedSection, LogicalSection};

verus! {

#[derive(Debug, Clone, Copy, PartialEq, Eq, Structural)]
pub struct BlockSettings {}

/// A block: its id and the tracks it spans, from its first track on.
#[derive(Debug)]
pub struct Block {
    pub id: BlockID,
    pub section: DirectedSection,
    pub settings: BlockSettings,
}

/// The section travelled the other way: reversed, every track turned round.
pub open spec fn opposite_tracks(s: Seq<DirectedTrackID>) -> Seq<DirectedTrackID> {
    Seq::new(s.len(), |i: int| dirtrack_opposite(s[s.len() - 1 - i]))
}

pub open spec fn section_block_id(s: Seq<DirectedTrackID>) -> BlockID {
    block_new(s[0], dirtrack_opposite(s.last()))
}

/// The tracks of a new block: the section as given when it starts at the
/// block's first track, else the section the other way.
pub open spec fn block_tracks(s: Seq<DirectedTrackID>) -> Seq<DirectedTrackID> {
    if section_block_id(s).track1 == s[0] {
        s
    } else {
        opposite_tracks(s)
    }
}

/// The logical tracks a train travels in a logical block.
pub open spec fn logical_block_tracks(s: Seq<DirectedTrackID>, b: LogicalBlockID) -> Seq<LogicalTrackID> {
    let tracks = if b.direction == BlockDirection::Aligned { s } else { opposite_tracks(s) };
    Seq::new(tracks.len(), |i: int| LogicalTrackID { dirtrack: tracks[i], facing: b.facing })
}

/// Each of the first `n` in-marker tracks of a block paired with the same
/// track the other way.
pub open spec fn in_track_pairs(b: BlockID, n: int) -> Set<(LogicalTrackID, LogicalTrackID)> {
    Set::new(|e: (LogicalTrackID, LogicalTrackID)| exists|k: int| 0 <= k < n
        && e == (default_in_marker_track(#[trigger] logical_ids(b)[k]), logical_reversed(default_in_marker_track(logical_ids(b)[k]))))
}

/// The logical blocks of a block, in the order blocks list them.
pub open spec fn logical_ids(b: BlockID) -> Seq<LogicalBlockID> {
    seq![
        LogicalBlockID { block: b, direction: BlockDirection::Aligned, facing: Facing::Forward },
        LogicalBlockID { block: b, direction: BlockDirection::Aligned, facing: Facing::Backward },
        LogicalBlockID { block: b, direction: BlockDirection::Opposite, facing: Facing::Forward },
        LogicalBlockID { block: b, direction: BlockDirection::Opposite, facing: Facing::Backward },
    ]
}

impl Block {
    /// The block spanning the section, laid out from the block's first track.
    pub fn new(section: DirectedSection) -> (r: Self)
        requires
            section.tracks@.len() > 0,
        ensures
            r.section.tracks@ == block_tracks(section.tracks@),
            r.id == section_block_id(block_tracks(section.tracks@)),
    {
        let id = section.to_block_id();
        let section = if id.track1 == section.tracks[0] {
            section
        } else {
            let opposite = section.get_opposite();
            assert(opposite.tracks@ =~= opposite_tracks(section.tracks@));
            opposite
        };
        let id = section.to_block_id();
        Block { id, section, settings: BlockSettings {} }
    }

    /// The logical tracks of the block in one direction and facing.
    pub fn get_logical_section(&self, block_id: LogicalBlockID) -> (r: LogicalSection)
        ensures
            r.tracks@ == logical_block_tracks(self.section.tracks@, block_id),
    {
        match block_id.direction {
            BlockDirection::Aligned => {
                let r = self.section.get_logical(block_id.facing);
                assert(r.tracks@ =~= logical_block_tracks(self.section.tracks@, block_id));
                r
            },
            BlockDirection::Opposite => {
                let opposite = self.section.get_opposite();
                assert(opposite.tracks@ =~= opposite_tracks(self.section.tracks@));
                let r = opposite.get_logical(block_id.facing);
                assert(r.tracks@ =~= logical_block_tracks(self.section.tracks@, block_id));
                r
            },
        }
    }
}

/// Creating a block records, for each of its logical blocks, the in-marker
/// track; it returns the markers to put down, one on each of the two tracks
/// where a train facing forward stops.
pub fn create_block(block: &Block, marker_map: &mut MarkerMap) -> (r: Vec<Marker>)
    ensures
        final(marker_map).in_markers@ == old(marker_map).in_markers@
            .insert(default_in_marker_track(logical_ids(block.id)[0]), logical_ids(block.id)[0])
            .insert(default_in_marker_track(logical_ids(block.id)[1]), logical_ids(block.id)[1])
            .insert(default_in_marker_track(logical_ids(block.id)[2]), logical_ids(block.id)[2])
            .insert(default_in_marker_track(logical_ids(block.id)[3]), logical_ids(block.id)[3]),
        final(marker_map).enter_markers@ == old(marker_map).enter_markers@,
        r@.len() == 2,
        r@[0].track == default_in_marker_track(logical_ids(block.id)[0]).dirtrack.track,
        r@[1].track == default_in_marker_track(logical_ids(block.id)[2]).dirtrack.track,
        r@[0].color == MarkerColor::Any && r@[1].color == MarkerColor::Any,
        forall|k: int, l: LogicalTrackID| 0 <= k < 2 ==> (#[trigger] r@[k].logical_data@.contains_key(l) <==> l.dirtrack.track == r@[k].track),
        forall|k: int, l: LogicalTrackID| 0 <= k < 2 && #[trigger] r@[k].logical_data@.contains_key(l) ==> r@[k].logical_data@[l].speed == MarkerSpeed::Cruise,
{
    let ids = block.id.logical_block_ids();
    let mut markers: Vec<Marker> = Vec::new();
    let mut i: usize = 0;
    while i < 4
        invariant
            0 <= i <= 4,
            ids@ == logical_ids(block.id),
            marker_map.enter_markers@ == old(marker_map).enter_markers@,
            marker_map.in_markers@ == if i == 0 {
                old(marker_map).in_markers@
            } else if i == 1 {
                old(marker_map).in_markers@.insert(default_in_marker_track(ids@[0]), ids@[0])
            } else if i == 2 {
                old(marker_map).in_markers@.insert(default_in_marker_track(ids@[0]), ids@[0]).insert(default_in_marker_track(ids@[1]), ids@[1])
            } else if i == 3 {
                old(marker_map).in_markers@.insert(default_in_marker_track(ids@[0]), ids@[0]).insert(default_in_marker_track(ids@[1]), ids@[1])
                    .insert(default_in_marker_track(ids@[2]), ids@[2])
            } else {
                old(marker_map).in_markers@.insert(default_in_marker_track(ids@[0]), ids@[0]).insert(default_in_marker_track(ids@[1]), ids@[1])
                    .insert(default_in_marker_track(ids@[2]), ids@[2]).insert(default_in_marker_track(ids@[3]), ids@[3])
            },
            markers@.len() == (i + 1) / 2,
            markers@.len() > 0 ==> markers@[0].track == default_in_marker_track(ids@[0]).dirtrack.track,
            markers@.len() > 1 ==> markers@[1].track == default_in_marker_track(ids@[2]).dirtrack.track,
            forall|k: int| 0 <= k < markers@.len() ==> (#[trigger] markers@[k]).color == MarkerColor::Any,
            forall|k: int, l: LogicalTrackID| 0 <= k < markers@.len() ==> (#[trigger] markers@[k].logical_data@.contains_key(l) <==> l.dirtrack.track == markers@[k].track),
            forall|k: int, l: LogicalTrackID| 0 <= k < markers@.len() && #[trigger] markers@[k].logical_data@.contains_key(l) ==> markers@[k].logical_data@[l].speed == MarkerSpeed::Cruise,
        decreases 4 - i,
    {
        let logical_id = ids[i];
        let in_track = logical_id.default_in_marker_track();
        if logical_id.facing == Facing::Forward {
            markers.push(Marker::new(in_track.track(), MarkerColor::Any));
        }
        marker_map.register_marker(in_track, MarkerKey::In, logical_id);
        i = i + 1;
    }
    markers
}

/// Registers a new block's entity and links each of its in-marker tracks
/// to the same track the other way, so a train can turn there.
pub fn spawn_block<E: Copy>(block: &Block, entity: E, entity_map: &mut EntityMap<E>, connections: &mut Connections)
    requires
        !old(entity_map).blocks@.contains_key(block.id),
        forall|k: int| 0 <= k < 4 ==> old(connections).nodes().contains(default_in_marker_track(#[trigger] logical_ids(block.id)[k]))
            && old(connections).nodes().contains(logical_reversed(default_in_marker_track(logical_ids(block.id)[k]))),
    ensures
        final(entity_map).blocks@ == old(entity_map).blocks@.insert(block.id, entity),
        EntityMap::unchanged_except(&*old(entity_map), &*final(entity_map), crate::layout::EntityTable::Blocks),
        final(connections).edges() == old(connections).edges().union(in_track_pairs(block.id, 4)),
        final(connections).nodes() == old(connections).nodes(),
        final(connections).tracks() == old(connections).tracks(),
        final(connections).links() == old(connections).links(),
{
    entity_map.add_block(block.id, entity);
    let ids = block.id.logical_block_ids();
    let mut i: usize = 0;
    while i < 4
        invariant
            0 <= i <= 4,
            ids@ == logical_ids(block.id),
            forall|k: int| 0 <= k < 4 ==> old(connections).nodes().contains(default_in_marker_track(#[trigger] logical_ids(block.id)[k]))
                && old(connections).nodes().contains(logical_reversed(default_in_marker_track(logical_ids(block.id)[k]))),
            connections.edges() == old(connections).edges().union(in_track_pairs(block.id, i as int)),
            connections.nodes() == old(connections).nodes(),
            connections.tracks() == old(connections).tracks(),
            connections.links() == old(connections).links(),
        decreases 4 - i,
    {
        let in_track = ids[i].default_in_marker_track();
        assert(old(connections).nodes().contains(default_in_marker_track(logical_ids(block.id)[i as int])));
        connections.connect_tracks(&in_track, &in_track.reversed());
        assert(in_track_pairs(block.id, i + 1) =~= in_track_pairs(block.id, i as int).insert((in_track, logical_reversed(in_track)))) by {
            assert forall|e: (LogicalTrackID, LogicalTrackID)| #[trigger] in_track_pairs(block.id, i + 1).contains(e) implies in_track_pairs(block.id, i as int).insert((in_track, logical_reversed(in_track))).contains(e) by {
                let k = choose|k: int| 0 <= k < i + 1 && e == (default_in_marker_track(#[trigger] logical_ids(block.id)[k]), logical_reversed(default_in_marker_track(logical_ids(block.id)[k])));
                if k < i {
                    assert(in_track_pairs(block.id, i as int).contains(e));
                }
            }
            assert forall|e: (LogicalTrackID, LogicalTrackID)| #[trigger] in_track_pairs(block.id, i as int).insert((in_track, logical_reversed(in_track))).contains(e) implies in_track_pairs(block.id, i + 1).contains(e) by {
                if e != (in_track, logical_reversed(in_track)) {
                    let k = choose|k: int| 0 <= k < i && e == (default_in_marker_track(#[trigger] logical_ids(block.id)[k]), logical_reversed(default_in_marker_track(logical_ids(block.id)[k])));
                    assert(0 <= k < i + 1);
                } else {
                    assert(e == (default_in_marker_track(logical_ids(block.id)[i as int]), logical_reversed(default_in_marker_track(logical_ids(block.id)[i as int]))));
                }
            }
        }
        i = i + 1;
    }
}

/// Removing a block unlinks its in-marker tracks again and forgets its
/// entity and the markers that lead into it; returns the entity to remove.
pub fn despawn_block<E: Copy>(block: &Block, entity_map: &mut EntityMap<E>, marker_map: &mut MarkerMap, connections: &mut Connections) -> (r: E)
    requires
        old(entity_map).blocks@.contains_key(block.id),
    ensures
        r == old(entity_map).blocks@[block.id],
        final(entity_map).blocks@ == old(entity_map).blocks@.remove(block.id),
        EntityMap::unchanged_except(&*old(entity_map), &*final(entity_map), crate::layout::EntityTable::Blocks),
        final(connections).edges() == old(connections).edges().difference(in_track_pairs(block.id, 4)),
        final(connections).nodes() == old(connections).nodes(),
        final(connections).tracks() == old(connections).tracks(),
        final(connections).links() == old(connections).links(),
        final(marker_map).in_markers@ == old(marker_map).in_markers@.restrict(
            old(marker_map).in_markers@.dom().filter(|l: LogicalTrackID| old(marker_map).in_markers@[l].block != block.id),
        ),
        final(marker_map).enter_markers@ == old(marker_map).enter_markers@.restrict(
            old(marker_map).enter_markers@.dom().filter(|l: LogicalTrackID| old(marker_map).enter_markers@[l].block != block.id),
        ),
{
    let entity = *entity_map.blocks.get(&block.id).unwrap();
    let ids = block.id.logical_block_ids();
    let mut i: usize = 0;
    while i < 4
        invariant
            0 <= i <= 4,
            ids@ == logical_ids(block.id),
            connections.edges() == old(connections).edges().difference(in_track_pairs(block.id, i as int)),
            connections.nodes() == old(connections).nodes(),
            connections.tracks() == old(connections).tracks(),
            connections.links() == old(connections).links(),
        decreases 4 - i,
    {
        let in_track = ids[i].default_in_marker_track();
        connections.disconnect_tracks(&in_track, &in_track.reversed());
        assert(in_track_pairs(block.id, i + 1) =~= in_track_pairs(block.id, i as int).insert((in_track, logical_reversed(in_track)))) by {
            assert forall|e: (LogicalTrackID, LogicalTrackID)| #[trigger] in_track_pairs(block.id, i + 1).contains(e) implies in_track_pairs(block.id, i as int).insert((in_track, logical_reversed(in_track))).contains(e) by {
                let k = choose|k: int| 0 <= k < i + 1 && e == (default_in_marker_track(#[trigger] logical_ids(block.id)[k]), logical_reversed(default_in_marker_track(logical_ids(block.id)[k])));
                if k < i {
                    assert(in_track_pairs(block.id, i as int).contains(e));
                }
            }
            assert forall|e: (LogicalTrackID, LogicalTrackID)| #[trigger] in_track_pairs(block.id, i as int).insert((in_track, logical_reversed(in_track))).contains(e) implies in_track_pairs(block.id, i + 1).contains(e) by {
                if e != (in_track, logical_reversed(in_track)) {
                    let k = choose|k: int| 0 <= k < i && e == (default_in_marker_track(#[trigger] logical_ids(block.id)[k]), logical_reversed(default_in_marker_track(logical_ids(block.id)[k])));
                    assert(0 <= k < i + 1);
                } else {
                    assert(e == (default_in_marker_track(logical_ids(block.id)[i as int]), logical_reversed(default_in_marker_track(logical_ids(block.id)[i as int]))));
                }
            }
        }
        assert(connections.edges() =~= old(connections).edges().difference(in_track_pairs(block.id, i + 1)));
        i = i + 1;
    }
    entity_map.remove_block(block.id);
    marker_map.remove_block(block.id);
    entity
}

impl Block {
    /// The train the block panel's "Add train" places in the block: the
    /// smallest train number not in use, standing in the block aligned with
    /// it and facing forward.
    pub fn new_train<E: Copy>(&self, entity_map: &EntityMap<E>) -> (r: crate::train::Train)
        ensures
            !entity_map.trains@.contains_key(r.id),
            forall|k: usize| k < r.id.id ==> entity_map.trains@.contains_key(crate::layout_primitives::TrainID { id: k }),
            r.position matches crate::train::Position::Block(b) && b == (LogicalBlockID {
                block: self.id,
                direction: BlockDirection::Aligned,
                facing: Facing::Forward,
            }),
            r.state == crate::route::TrainState::Stop,
            r.settings == (crate::train::TrainSettings { num_wagons: 3, home: None, prefer_facing: None }),
            r.wagons@.len() == 0,
    {
        let train_id = entity_map.new_train_id();
        let logical = self.id.to_logical(BlockDirection::Aligned, Facing::Forward);
        crate::train::Train::at_block_id(train_id, logical)
    }

    /// The destination the block panel's "Add to new Destination" creates:
    /// the smallest destination number not in use, holding this block in
    /// any direction.
    pub fn new_destination<E: Copy>(&self, entity_map: &EntityMap<E>) -> (r: crate::destination::Destination)
        ensures
            r.id is Specific,
            !entity_map.destinations@.contains_key(r.id),
            forall|k: usize| k < r.id->Specific_0 ==> entity_map.destinations@.contains_key(crate::layout_primitives::DestinationID::Specific(k)),
            r.blocks@ == seq![(self.id, crate::destination::BlockDirectionFilter::Any, None::<Facing>)],
    {
        let mut dest = crate::destination::Destination::new(entity_map.new_destination_id());
        dest.add_block(self.id, crate::destination::BlockDirectionFilter::Any, None);
        dest
    }
}

} // verus!
