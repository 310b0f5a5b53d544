//! Layout data of blocks: the section of directed tracks a block spans and
//! the per-direction settings.
use vstd::prelude::*;
use crate::common::layout_primitives::{
    dirtrack_opposite, BlockID, DirectedTrackID, Facing, LogicalTrackID, TrainSpeed,
    BlockDirection,
};

verus! {

/// Marker type for the block element kind.
#[derive(Clone, Copy, Debug)]
pub struct Block;

/// Per-travel-direction configuration for a block.
#[derive(Clone, Copy, Debug, PartialEq, Eq, Structural)]
pub struct DirectedBlockConfig {
    pub passthrough_speed: Option<TrainSpeed>,
}

impl Default for DirectedBlockConfig {
    fn default() -> (r: Self)
        ensures
            r.passthrough_speed is None,
    {
        DirectedBlockConfig { passthrough_speed: None }
    }
}

/// Layout data for a block.
#[derive(Clone, Debug)]
pub struct BlockData {
    pub name: Option<String>,
    pub section: Vec<DirectedTrackID>,
    /// Config for travel aligned with the section direction.
    pub aligned: DirectedBlockConfig,
    /// Config for travel against the section direction.
    pub against: DirectedBlockConfig,
}

/// The section in travel order: as stored when aligned, reversed and turned
/// around when travelling against it.
pub open spec fn oriented_section(section: Seq<DirectedTrackID>, direction: BlockDirection) -> Seq<DirectedTrackID> {
    match direction {
        BlockDirection::Aligned => section,
        BlockDirection::Against => Seq::new(
            section.len(),
            |i: int| dirtrack_opposite(section[section.len() - 1 - i]),
        ),
    }
}

/// The logical track where a train's sensor crosses into the block when it
/// enters in `direction` facing `facing`: the far end of the section in
/// travel order, seen as the train's head sees it.
pub open spec fn enter_track(section: Seq<DirectedTrackID>, direction: BlockDirection, facing: Facing) -> LogicalTrackID {
    match (direction, facing) {
        (BlockDirection::Aligned, Facing::Forward) => LogicalTrackID { directed: section.last(), facing: Facing::Forward },
        (BlockDirection::Aligned, Facing::Backward) => LogicalTrackID { directed: section[0], facing: Facing::Backward },
        (BlockDirection::Against, Facing::Forward) => LogicalTrackID {
            directed: dirtrack_opposite(section[0]),
            facing: Facing::Forward,
        },
        (BlockDirection::Against, Facing::Backward) => LogicalTrackID {
            directed: dirtrack_opposite(section.last()),
            facing: Facing::Backward,
        },
    }
}

pub fn copy_tracks(v: &Vec<DirectedTrackID>) -> (r: Vec<DirectedTrackID>)
    ensures
        r@ == v@,
{
    let mut r: Vec<DirectedTrackID> = Vec::new();
    let mut i: usize = 0;
    while i < v.len()
        invariant
            0 <= i <= v@.len(),
            r@ == v@.subrange(0, i as int),
        decreases v@.len() - i,
    {
        r.push(v[i]);
        assert(v@.subrange(0, i + 1) =~= v@.subrange(0, i as int).push(v@[i as int]));
        i = i + 1;
    }
    assert(v@.subrange(0, v@.len() as int) =~= v@);
    r
}

impl Default for BlockData {
    fn default() -> (r: Self)
        ensures
            r.name is None,
            r.section@ == Seq::<DirectedTrackID>::empty(),
            r.aligned.passthrough_speed is None,
            r.against.passthrough_speed is None,
    {
        BlockData {
            name: None,
            section: Vec::new(),
            aligned: DirectedBlockConfig::default(),
            against: DirectedBlockConfig::default(),
        }
    }
}

impl BlockData {
    /// Section in travel order for a given direction.
    pub fn directed_section(&self, direction: BlockDirection) -> (r: Vec<DirectedTrackID>)
        ensures
            r@ == oriented_section(self.section@, direction),
    {
        match direction {
            BlockDirection::Aligned => copy_tracks(&self.section),
            BlockDirection::Against => {
                let n = self.section.len();
                let mut r: Vec<DirectedTrackID> = Vec::new();
                let mut i: usize = 0;
                while i < n
                    invariant
                        n == self.section@.len(),
                        0 <= i <= n,
                        r@ == oriented_section(self.section@, direction).subrange(0, i as int),
                        direction == BlockDirection::Against,
                    decreases n - i,
                {
                    r.push(self.section[n - 1 - i].opposite());
                    assert(oriented_section(self.section@, direction).subrange(0, i + 1)
                        =~= oriented_section(self.section@, direction).subrange(0, i as int).push(
                        dirtrack_opposite(self.section@[n - 1 - i])));
                    i = i + 1;
                }
                assert(oriented_section(self.section@, direction).subrange(0, n as int)
                    =~= oriented_section(self.section@, direction));
                r
            },
        }
    }

    /// The canonical enter marker track for a given direction and facing.
    pub fn enter_logical_track(&self, direction: BlockDirection, facing: Facing) -> (r: LogicalTrackID)
        requires
            self.section@.len() > 0,
        ensures
            r == enter_track(self.section@, direction, facing),
    {
        let n = self.section.len();
        match (direction, facing) {
            (BlockDirection::Aligned, Facing::Forward) => LogicalTrackID::new(self.section[n - 1], Facing::Forward),
            (BlockDirection::Aligned, Facing::Backward) => LogicalTrackID::new(self.section[0], Facing::Backward),
            (BlockDirection::Against, Facing::Forward) => LogicalTrackID::new(self.section[0].opposite(), Facing::Forward),
            (BlockDirection::Against, Facing::Backward) => LogicalTrackID::new(self.section[n - 1].opposite(), Facing::Backward),
        }
    }
}

/// Travelling a block against its direction visits the reversed section with
/// every track turned around; doing so twice gives the section back.
pub proof fn lemma_oriented_section_involutive(section: Seq<DirectedTrackID>)
    ensures
        oriented_section(oriented_section(section, BlockDirection::Against), BlockDirection::Against) == section,
        oriented_section(section, BlockDirection::Against).len() == section.len(),
{
    assert(oriented_section(oriented_section(section, BlockDirection::Against), BlockDirection::Against) =~= section);
}

/// The enter track of the opposite travel direction with the opposite facing
/// is the same place seen the other way round (a train reversing at a block
/// end passes between these two).
pub proof fn lemma_enter_tracks_pair(section: Seq<DirectedTrackID>)
    requires
        section.len() > 0,
    ensures
        enter_track(section, BlockDirection::Aligned, Facing::Forward)
            == crate::common::layout_primitives::logical_reversed(enter_track(section, BlockDirection::Against, Facing::Backward)),
        enter_track(section, BlockDirection::Against, Facing::Forward)
            == crate::common::layout_primitives::logical_reversed(enter_track(section, BlockDirection::Aligned, Facing::Backward)),
{
}

} // verus!
