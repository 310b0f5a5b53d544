//! Destinations: named sets of blocks a train may be sent to, each with
//! the directions it may enter them in.
use vstd::prelude::*;
use crate::layout::EntityMap;
use crate::layout_primitives::{BlockDirection, BlockID, DestinationID, Facing, LogicalBlockID};

verus! {

/// The directions a train may stop in a block of a destination.
#[derive(Clone, Copy, Debug, PartialEq, Eq, Hash, Structural)]
pub enum BlockDirectionFilter {
    Any,
    Aligned,
    Opposite,
}

pub open spec fn filter_directions(f: BlockDirectionFilter) -> Seq<BlockDirection> {
    match f {
        BlockDirectionFilter::Any => seq![BlockDirection::Aligned, BlockDirection::Opposite],
        BlockDirectionFilter::Aligned => seq![BlockDirection::Aligned],
        BlockDirectionFilter::Opposite => seq![BlockDirection::Opposite],
    }
}

impl BlockDirectionFilter {
    pub fn iter_directions(&self) -> (r: Vec<BlockDirection>)
        ensures
            r@ == filter_directions(*self),
    {
        let r = match self {
            BlockDirectionFilter::Any => vec![BlockDirection::Aligned, BlockDirection::Opposite],
            BlockDirectionFilter::Aligned => vec![BlockDirection::Aligned],
            BlockDirectionFilter::Opposite => vec![BlockDirection::Opposite],
        };
        assert(r@ =~= filter_directions(*self));
        r
    }
}

/// A destination: its blocks, each with a direction filter and maybe a
/// facing.
#[derive(Debug)]
pub struct Destination {
    pub id: DestinationID,
    pub blocks: Vec<(BlockID, BlockDirectionFilter, Option<Facing>)>,
}

/// The first entry for the block, if there is one.
pub open spec fn first_entry(blocks: Seq<(BlockID, BlockDirectionFilter, Option<Facing>)>, block_id: BlockID) -> Option<int> {
    if exists|i: int| 0 <= i < blocks.len() && blocks[i].0 == block_id {
        Some(choose|i: int| 0 <= i < blocks.len() && blocks[i].0 == block_id && forall|j: int| 0 <= j < i ==> blocks[j].0 != block_id)
    } else {
        None
    }
}

proof fn lemma_first_entry(blocks: Seq<(BlockID, BlockDirectionFilter, Option<Facing>)>, block_id: BlockID, i: int)
    requires
        0 <= i < blocks.len(),
        blocks[i].0 == block_id,
        forall|j: int| 0 <= j < i ==> blocks[j].0 != block_id,
    ensures
        first_entry(blocks, block_id) == Some(i),
{
    let c = choose|c: int| 0 <= c < blocks.len() && blocks[c].0 == block_id && forall|j: int| 0 <= j < c ==> blocks[j].0 != block_id;
    if c < i {
        assert(blocks[c].0 == block_id);
    }
    if c > i {
        assert(blocks[i].0 == block_id);
    }
}

/// The entries that are not for the block, in order.
pub open spec fn without_block(
    blocks: Seq<(BlockID, BlockDirectionFilter, Option<Facing>)>,
    block_id: BlockID,
) -> Seq<(BlockID, BlockDirectionFilter, Option<Facing>)>
    decreases blocks.len(),
{
    if blocks.len() == 0 {
        Seq::empty()
    } else if blocks.last().0 != block_id {
        without_block(blocks.drop_last(), block_id).push(blocks.last())
    } else {
        without_block(blocks.drop_last(), block_id)
    }
}

impl Destination {
    pub fn new(id: DestinationID) -> (r: Self)
        ensures
            r.id == id,
            r.blocks@.len() == 0,
    {
        Destination { id, blocks: Vec::new() }
    }

    fn find(&self, block_id: BlockID) -> (r: Option<usize>)
        ensures
            match r {
                Some(i) => i < self.blocks@.len() && first_entry(self.blocks@, block_id) == Some(i as int),
                None => first_entry(self.blocks@, block_id) is None,
            },
    {
        let mut i: usize = 0;
        while i < self.blocks.len()
            invariant
                0 <= i <= self.blocks@.len(),
                forall|j: int| 0 <= j < i ==> self.blocks@[j].0 != block_id,
            decreases self.blocks@.len() - i,
        {
            if self.blocks[i].0 == block_id {
                proof {
                    lemma_first_entry(self.blocks@, block_id, i as int);
                }
                return Some(i);
            }
            i = i + 1;
        }
        None
    }

    pub fn contains_block(&self, block_id: BlockID) -> (r: bool)
        ensures
            r == exists|i: int| 0 <= i < self.blocks@.len() && self.blocks@[i].0 == block_id,
    {
        self.find(block_id).is_some()
    }

    /// The direction filter of the block's first entry.
    pub fn get_block_filter(&self, block_id: BlockID) -> (r: Option<BlockDirectionFilter>)
        ensures
            match first_entry(self.blocks@, block_id) {
                Some(i) => r == Some(self.blocks@[i].1),
                None => r is None,
            },
    {
        match self.find(block_id) {
            Some(i) => Some(self.blocks[i].1),
            None => None,
        }
    }

    /// Drops every entry for the block.
    pub fn remove_block(&mut self, block_id: BlockID)
        ensures
            final(self).id == old(self).id,
            final(self).blocks@ == without_block(old(self).blocks@, block_id),
    {
        let mut kept: Vec<(BlockID, BlockDirectionFilter, Option<Facing>)> = Vec::new();
        let mut i: usize = 0;
        while i < self.blocks.len()
            invariant
                0 <= i <= self.blocks@.len(),
                self.blocks@ == old(self).blocks@,
                self.id == old(self).id,
                kept@ == without_block(self.blocks@.subrange(0, i as int), block_id),
            decreases self.blocks@.len() - i,
        {
            proof {
                assert(self.blocks@.subrange(0, i + 1).drop_last() =~= self.blocks@.subrange(0, i as int));
            }
            let e = self.blocks[i];
            if e.0 != block_id {
                kept.push(e);
            }
            i = i + 1;
        }
        assert(self.blocks@.subrange(0, self.blocks@.len() as int) =~= self.blocks@);
        self.blocks = kept;
    }

    pub fn add_block(&mut self, block_id: BlockID, direction: BlockDirectionFilter, facing: Option<Facing>)
        ensures
            final(self).id == old(self).id,
            final(self).blocks@ == old(self).blocks@.push((block_id, direction, facing)),
    {
        self.blocks.push((block_id, direction, facing));
    }

    /// Sets the direction filter of the block's first entry, if it has one.
    pub fn change_filter(&mut self, block_id: BlockID, direction: BlockDirectionFilter)
        ensures
            final(self).id == old(self).id,
            final(self).blocks@ == match first_entry(old(self).blocks@, block_id) {
                Some(i) => old(self).blocks@.update(i, (old(self).blocks@[i].0, direction, old(self).blocks@[i].2)),
                None => old(self).blocks@,
            },
    {
        match self.find(block_id) {
            Some(i) => {
                let e = self.blocks[i];
                self.blocks.set(i, (e.0, direction, e.2));
            },
            None => {},
        }
    }

    /// A new destination with the smallest number not in use.
    pub fn default_spawn_event<E: Copy>(entity_map: &EntityMap<E>) -> (r: Destination)
        ensures
            r.id is Specific,
            !entity_map.destinations@.contains_key(r.id),
            forall|k: usize| k < r.id->Specific_0 ==> entity_map.destinations@.contains_key(DestinationID::Specific(k)),
            r.blocks@.len() == 0,
    {
        Destination::new(entity_map.new_destination_id())
    }
}

/// Registers a new destination's entity.
pub fn spawn_destination<E: Copy>(dest: &Destination, entity: E, entity_map: &mut EntityMap<E>)
    requires
        !old(entity_map).destinations@.contains_key(dest.id),
    ensures
        final(entity_map).destinations@ == old(entity_map).destinations@.insert(dest.id, entity),
        EntityMap::unchanged_except(&*old(entity_map), &*final(entity_map), crate::layout::EntityTable::Destinations),
{
    entity_map.add_destination(dest.id, entity);
}

/// The targets in the blocks of a destination, block by block: each block
/// in each direction its filter allows, facing forward, passing over the
/// block the train stands in.
pub open spec fn destination_targets_spec(
    blocks: Seq<(BlockID, BlockDirectionFilter, Option<Facing>)>,
    start: LogicalBlockID,
) -> Seq<LogicalBlockID>
    decreases blocks.len(),
{
    if blocks.len() == 0 {
        Seq::empty()
    } else {
        let e = blocks.last();
        destination_targets_spec(blocks.drop_last(), start) + filter_directions(e.1).map_values(target_in(e.0)).filter(
            not_start(start),
        )
    }
}

/// The block in a direction, facing forward.
pub open spec fn target_in(block: BlockID) -> spec_fn(BlockDirection) -> LogicalBlockID {
    |d: BlockDirection| LogicalBlockID { block, direction: d, facing: Facing::Forward }
}

/// Any block but the one the train stands in.
pub open spec fn not_start(start: LogicalBlockID) -> spec_fn(LogicalBlockID) -> bool {
    |l: LogicalBlockID| l != start
}

/// The blocks a train may be sent to for a destination.
pub fn destination_targets(dest: &Destination, start: LogicalBlockID) -> (r: Vec<LogicalBlockID>)
    ensures
        r@ == destination_targets_spec(dest.blocks@, start),
{
    let mut r: Vec<LogicalBlockID> = Vec::new();
    let mut i: usize = 0;
    while i < dest.blocks.len()
        invariant
            0 <= i <= dest.blocks@.len(),
            r@ == destination_targets_spec(dest.blocks@.take(i as int), start),
        decreases dest.blocks@.len() - i,
    {
        let (block, filter, _) = dest.blocks[i];
        let directions = filter.iter_directions();
        let ghost before = r@;
        let ghost mapped = filter_directions(filter).map_values(target_in(block));
        let mut j: usize = 0;
        while j < directions.len()
            invariant
                0 <= j <= directions@.len(),
                directions@ == filter_directions(filter),
                mapped == filter_directions(filter).map_values(target_in(block)),
                r@ == before + mapped.take(j as int).filter(not_start(start)),
            decreases directions@.len() - j,
        {
            let target = LogicalBlockID { block, direction: directions[j], facing: Facing::Forward };
            proof {
                assert(mapped.take(j + 1) == mapped.take(j as int).push(target));
                mapped.take(j as int).lemma_filter_push(target, not_start(start));
            }
            if target != start {
                r.push(target);
            }
            j = j + 1;
        }
        proof {
            assert(mapped.take(mapped.len() as int) == mapped);
            assert(dest.blocks@.take(i + 1).drop_last() == dest.blocks@.take(i as int));
            assert(dest.blocks@.take(i + 1).last() == dest.blocks@[i as int]);
            assert(r@ == destination_targets_spec(dest.blocks@.take(i as int), start) + mapped.filter(not_start(start)));
        }
        i = i + 1;
    }
    proof {
        assert(dest.blocks@.take(dest.blocks@.len() as int) == dest.blocks@);
    }
    r
}

/// The destination of a train sent anywhere: every block, in any direction.
pub fn random_destination(blocks: &Vec<BlockID>) -> (r: Destination)
    ensures
        r.id == DestinationID::Random,
        r.blocks@ == blocks@.map_values(|b: BlockID| (b, BlockDirectionFilter::Any, None::<Facing>)),
{
    let mut dest = Destination { id: DestinationID::Random, blocks: Vec::new() };
    let mut i: usize = 0;
    while i < blocks.len()
        invariant
            0 <= i <= blocks@.len(),
            dest.id == DestinationID::Random,
            dest.blocks@ == blocks@.take(i as int).map_values(|b: BlockID| (b, BlockDirectionFilter::Any, None::<Facing>)),
        decreases blocks@.len() - i,
    {
        dest.blocks.push((blocks[i], BlockDirectionFilter::Any, None));
        proof {
            assert(blocks@.take(i + 1) == blocks@.take(i as int).push(blocks@[i as int]));
        }
        i = i + 1;
    }
    proof {
        assert(blocks@.take(blocks@.len() as int) == blocks@);
    }
    dest
}

} // verus!
