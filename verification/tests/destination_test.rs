use brickrail::destination::{destination_targets, random_destination, spawn_destination, BlockDirectionFilter, Destination};
use brickrail::layout::EntityMap;
use brickrail::layout_primitives::{
    BlockDirection, BlockID, CellID, DestinationID, LogicalBlockID, DirectedTrackID, Facing, HubID, HubType,
    Orientation, TrackDirection, TrackID, TrainID,
};

fn block(x: i32) -> BlockID {
    let a = DirectedTrackID::new(TrackID::new(CellID::new(x, 0, 0), Orientation::EW), TrackDirection::First);
    let b = DirectedTrackID::new(TrackID::new(CellID::new(x + 1, 0, 0), Orientation::EW), TrackDirection::First);
    BlockID::new(a, b)
}

#[test]
fn filters_list_their_directions() {
    assert_eq!(
        BlockDirectionFilter::Any.iter_directions(),
        vec![BlockDirection::Aligned, BlockDirection::Opposite]
    );
    assert_eq!(BlockDirectionFilter::Aligned.iter_directions(), vec![BlockDirection::Aligned]);
    assert_eq!(BlockDirectionFilter::Opposite.iter_directions(), vec![BlockDirection::Opposite]);
}

#[test]
fn destination_blocks_add_change_remove() {
    let mut dest = Destination::new(DestinationID::Specific(0));
    dest.add_block(block(0), BlockDirectionFilter::Any, None);
    dest.add_block(block(5), BlockDirectionFilter::Aligned, Some(Facing::Forward));
    assert!(dest.contains_block(block(0)));
    assert!(!dest.contains_block(block(9)));
    assert_eq!(dest.get_block_filter(block(5)), Some(BlockDirectionFilter::Aligned));
    assert_eq!(dest.get_block_filter(block(9)), None);

    dest.change_filter(block(5), BlockDirectionFilter::Opposite);
    assert_eq!(dest.get_block_filter(block(5)), Some(BlockDirectionFilter::Opposite));
    assert_eq!(dest.blocks[1].2, Some(Facing::Forward));
    dest.change_filter(block(9), BlockDirectionFilter::Opposite);
    assert_eq!(dest.blocks.len(), 2);

    dest.add_block(block(0), BlockDirectionFilter::Opposite, None);
    dest.remove_block(block(0));
    assert_eq!(dest.blocks.len(), 1);
    assert_eq!(dest.blocks[0].0, block(5));
}

#[test]
fn new_destinations_take_the_smallest_free_number() {
    let mut map: EntityMap<u64> = EntityMap::new();
    let first = Destination::default_spawn_event(&map);
    assert_eq!(first.id, DestinationID::Specific(0));
    spawn_destination(&first, 10, &mut map);
    map.add_destination(DestinationID::Specific(2), 12);
    let second = Destination::default_spawn_event(&map);
    assert_eq!(second.id, DestinationID::Specific(1));
}

#[test]
fn new_ids_fill_gaps() {
    let mut map: EntityMap<u64> = EntityMap::new();
    assert_eq!(map.new_train_id(), TrainID::new(0));
    map.add_train(TrainID::new(0), 1);
    map.add_train(TrainID::new(1), 2);
    map.add_train(TrainID::new(3), 3);
    assert_eq!(map.new_train_id(), TrainID::new(2));
    map.add_hub(HubID::new(0, HubType::Layout), 4);
    assert_eq!(map.new_hub_id(HubType::Layout), HubID::new(1, HubType::Layout));
    assert_eq!(map.new_hub_id(HubType::Train), HubID::new(0, HubType::Train));
}

#[test]
fn destination_targets_skip_the_start() {
    let mut dest = Destination::new(DestinationID::Specific(0));
    dest.add_block(block(0), BlockDirectionFilter::Any, None);
    dest.add_block(block(5), BlockDirectionFilter::Opposite, None);
    let start = LogicalBlockID { block: block(0), direction: BlockDirection::Aligned, facing: Facing::Forward };
    let targets = destination_targets(&dest, start);
    assert_eq!(
        targets,
        vec![
            LogicalBlockID { block: block(0), direction: BlockDirection::Opposite, facing: Facing::Forward },
            LogicalBlockID { block: block(5), direction: BlockDirection::Opposite, facing: Facing::Forward },
        ]
    );
    let anywhere = random_destination(&vec![block(0), block(5)]);
    assert_eq!(anywhere.id, DestinationID::Random);
    assert_eq!(anywhere.blocks, vec![(block(0), BlockDirectionFilter::Any, None), (block(5), BlockDirectionFilter::Any, None)]);
}

#[test]
fn random_route_pick_is_one_of_the_candidates() {
    assert_eq!(brickrail::train::pick_random_route(0), None);
    assert_eq!(brickrail::train::pick_random_route(1), Some(0));
    let mut seen = [false; 4];
    for _ in 0..200 {
        let i = brickrail::train::pick_random_route(4).unwrap();
        assert!(i < 4);
        seen[i] = true;
    }
    assert!(seen.iter().filter(|s| **s).count() > 1);
}
