use brickrail::layout_primitives::{HubID, HubType};
use brickrail::layout_primitives::{
    BlockDirection, BlockID, Cardinal, CellID, CellInterface, DirectedTrackID, Facing, LogicalBlockID,
    LogicalTrackID, Orientation, Slot, TrackConnectionID, TrackDirection, TrackID,
};

#[test]
fn test_slot_connectivity() {
    let slot1 = Slot { cell: CellID { x: 0, y: 0, l: 0 }, interface: CellInterface::N };

    for cardinal in Cardinal::iter() {
        let slot2 = slot1.cell.get_slot(cardinal);
        if cardinal == Cardinal::N {
            assert!(!slot1.can_connect_to(&slot2));
            assert!(!slot2.can_connect_to(&slot1));
        } else {
            assert!(slot1.can_connect_to(&slot2));
            assert!(slot2.can_connect_to(&slot1));
        }
    }

    let slot1 = Slot { cell: CellID { x: 0, y: 0, l: 0 }, interface: CellInterface::N };

    let cell2 = CellID { x: 0, y: 2, l: 0 };

    for cardinal in Cardinal::iter() {
        let slot2 = cell2.get_slot(cardinal);
        if cardinal == Cardinal::S {
            assert!(slot1.can_connect_to(&slot2));
            assert!(slot2.can_connect_to(&slot1));
        } else {
            assert!(!slot1.can_connect_to(&slot2));
            assert!(!slot2.can_connect_to(&slot1));
        }
    }
}

#[test]
fn test_shared_slot() {
    let cell1 = CellID::new(0, 0, 0);

    for cardinal in Cardinal::iter() {
        let cell2 = cell1.get_neighbor(cardinal);
        assert_eq!(cell1.get_shared_slot(&cell2), Some(cell1.get_slot(cardinal)));

        let cell3 = cell2.get_neighbor(cardinal);
        assert_eq!(cell1.get_shared_slot(&cell3), None,);
    }
}

#[test]
fn test_get_track() {
    let cell1 = CellID::new(0, 0, 0);
    let cell2 = CellID::new(1, 0, 0);
    let cell3 = CellID::new(2, 0, 0);

    let slot1 = cell1.get_slot(Cardinal::E);
    let slot2 = cell2.get_slot(Cardinal::E);

    assert_eq!(slot1.get_shared_cell(&slot2), Some(cell2));

    assert_eq!(cell1.cardinal_to(&cell2), Some(Cardinal::E));
    assert_eq!(cell2.cardinal_to(&cell1), Some(Cardinal::W));

    assert_eq!(cell2.cardinal_to(&cell3), Some(Cardinal::E));
    assert_eq!(cell3.cardinal_to(&cell2), Some(Cardinal::W));

    let track = TrackID::from_slots(slot1, slot2);
    assert_eq!(track, Some(TrackID::new(cell2, Orientation::EW)));

    let track = TrackID::from_cells(cell1, cell2, cell3);
    assert_eq!(track, Some(TrackID::new(cell2, Orientation::EW)));

    let track = TrackID::from_cells(cell1, cell2, cell1);
    assert_eq!(track, None);
}

#[test]
fn test_get_diagonal_track() {
    let cell1 = CellID::new(0, 0, 0);
    let cell2 = CellID::new(1, 0, 0);
    let cell3 = CellID::new(1, -1, 0);

    let slot1 = cell1.get_slot(cell1.cardinal_to(&cell2).unwrap());
    let slot2 = cell2.get_slot(cell2.cardinal_to(&cell3).unwrap());

    assert_eq!(slot1.get_shared_cell(&slot2), Some(cell2));

    let track = TrackID::from_cells(cell1, cell2, cell3);
    assert_eq!(track, Some(TrackID::new(cell2, Orientation::SW)));
}

#[test]
fn test_infinity() {
    assert!(f32::INFINITY > 1000.0);
    assert!(f32::INFINITY + 1000.0 == f32::INFINITY);
    assert!(f32::INFINITY.is_infinite());
}

#[test]
fn test_to_and_from_name() {
    let track = TrackID::new(CellID::new(33, 30, -53), Orientation::NE);
    assert_eq!(track, TrackID::from_name(&track.get_name()).unwrap());

    let dirtrack = DirectedTrackID { track, direction: TrackDirection::Last };
    assert_eq!(dirtrack, DirectedTrackID::from_name(&dirtrack.get_name()).unwrap());

    let logical_track = LogicalTrackID { dirtrack, facing: Facing::Backward };
    assert_eq!(logical_track, LogicalTrackID::from_name(&logical_track.get_name()).unwrap());

    let dirtrack2 = DirectedTrackID {
        track: TrackID::new(CellID::new(0, 0, 0), Orientation::EW),
        direction: TrackDirection::First,
    };

    let block = BlockID::new(dirtrack, dirtrack2);
    assert_eq!(block, BlockID::from_name(&block.get_name()).unwrap());

    let logical_block = block.to_logical(BlockDirection::Opposite, Facing::Backward);
    let block2 = LogicalBlockID::from_name(&logical_block.get_name()).unwrap();
    println!("{:?} {:?}", logical_block.block, block2.block);
    assert_eq!(logical_block, LogicalBlockID::from_name(&logical_block.get_name()).unwrap());

    let connection = TrackConnectionID::new(
        DirectedTrackID {
            track: TrackID::new(CellID::new(0, 0, 0), Orientation::EW),
            direction: TrackDirection::First,
        },
        DirectedTrackID {
            track: TrackID::new(CellID::new(0, 0, 0), Orientation::EW),
            direction: TrackDirection::Last,
        },
    );
    assert_eq!(connection, TrackConnectionID::from_name(&connection.get_name()).unwrap());
}

#[test]
fn parse_primitives() {
    let track1 = LogicalTrackID::from_str("L(-2,2,0|WE>)").unwrap();
    assert_eq!(track1.cell().x, -2);
    assert_eq!(track1.cell().y, 2);
    assert_eq!(track1.cell().l, 0);
    assert_eq!(track1.facing, Facing::Forward);

    let track2 = LogicalTrackID::from_str("L(-2,2,0|WE<)").unwrap();
    assert_eq!(track2.facing, Facing::Backward);
    assert_ne!(track1.facing, track2.facing);

    let dirtrack = DirectedTrackID::from_str("D(-2,2,0|NS)").unwrap();
    let dirtrack2 = DirectedTrackID::from_str("D(-2,2,0|SN)").unwrap();
    assert_eq!(dirtrack, dirtrack2.opposite());

    let block = LogicalBlockID::from_str("LB[(-1,0,0|SN)>(-1,3,0|SN)]").unwrap();
    assert_eq!(block.default_in_marker_track(), LogicalTrackID::from_str("L(-1,3,0|SN>)").unwrap(),);
    assert_eq!(block, LogicalBlockID::from_str(&block.to_string()).unwrap());

    let block = LogicalBlockID::from_str("LB[(-1,3,0|SN)>(-1,0,0|SN)]").unwrap();
    println!("{:?}", block);
    println!("block {:?}, direction {:?}, facing {:?}", block.block, block.direction, block.facing);
    assert_eq!(block, LogicalBlockID::from_str(&block.to_string()).unwrap());
}

#[test]
fn connections_are_stored_sorted() {
    let a = DirectedTrackID { track: TrackID::new(CellID::new(1, 0, 0), Orientation::EW), direction: TrackDirection::First };
    let b = DirectedTrackID { track: TrackID::new(CellID::new(0, 0, 0), Orientation::EW), direction: TrackDirection::First };
    let c = TrackConnectionID::new(a, b);
    assert_eq!(c.track_a, b);
    assert_eq!(c.track_b, a);
    assert_eq!(TrackConnectionID::new(b, a), c);
}

#[test]
fn connection_found_from_either_side_is_the_same() {
    let t0 = TrackID::new(CellID::new(0, 0, 0), Orientation::EW);
    let t1 = TrackID::new(CellID::new(1, 0, 0), Orientation::EW);
    let c = t1.get_connection_to(t0).unwrap();
    assert_eq!(t0.get_connection_to(t1), Some(c));
    assert_eq!(c.track_a.track, t0);
    assert_eq!(c.track_b.track, t1);
    assert!(c.track_a < c.track_b);
}

#[test]
fn hub_ids_read_back_from_their_names() {
    let train = HubID::new(3, HubType::Train);
    let layout = HubID::new(0, HubType::Layout);
    assert_eq!(train.to_string(), "Train3");
    assert_eq!(layout.to_string(), "Layout0");
    assert_eq!(HubID::from_str("Train3"), Ok(train));
    assert_eq!(HubID::from_str("Layout0"), Ok(layout));
    assert_eq!(HubID::from_str(&HubID::new(17, HubType::Layout).to_string()), Ok(HubID::new(17, HubType::Layout)));
    assert!(HubID::from_str("Hub1").is_err());
}
