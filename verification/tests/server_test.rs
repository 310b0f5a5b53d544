use brickrail::common::lifecycle::{ElementEntry, TrainData};
use brickrail::common::block::Block;
use brickrail::common::connection::Connection;
use brickrail::common::lifecycle::{spawn_element, Registry, SpawnElement, Track, Train};
use brickrail::common::marker::Marker;
use brickrail::common::block::BlockData;
use brickrail::common::connection::ConnectionGraph;
use brickrail::common::layout_primitives::{
    BlockDirection, BlockID, Cardinal, CellID, Facing, LogicalBlockID, Orientation, TrackID, TrainID,
};
use brickrail::common::logical_graph::{build_logical_graph, LogicalGraph};
use brickrail::common::marker::MarkerData;
use brickrail::common::route::{AppendLegs, BlockDataMap, MarkerDataMap, MarkerRole, RouteLeg, TrainLegs};
use brickrail::common::train_position::{
    handle_advance_leg, handle_append_legs, handle_train_marker_hit, TrainLegState, TrainPosition,
};
use brickrail::keyed::KeyedMap;

fn tracks() -> [TrackID; 5] {
    [
        TrackID::new(CellID::new(0, 0, 0), Orientation::EW),
        TrackID::new(CellID::new(1, 0, 0), Orientation::EW),
        TrackID::new(CellID::new(2, 0, 0), Orientation::EW),
        TrackID::new(CellID::new(3, 0, 0), Orientation::EW),
        TrackID::new(CellID::new(4, 0, 0), Orientation::EW),
    ]
}

/// Two blocks with a travel section between them:
/// t0 -- t1 -- t2 -- t3 -- t4
/// [block A]  travel  [block B]
fn two_block_layout() -> (LogicalGraph, BlockDataMap, MarkerDataMap) {
    let [t0, t1, t2, t3, t4] = tracks();
    let mut connections = ConnectionGraph::new();
    connections.add_connection(t0.get_connection_to(t1).unwrap());
    connections.add_connection(t1.get_connection_to(t2).unwrap());
    connections.add_connection(t2.get_connection_to(t3).unwrap());
    connections.add_connection(t3.get_connection_to(t4).unwrap());

    let mut markers: MarkerDataMap = KeyedMap::new();
    markers.insert(t0, MarkerData::default());
    markers.insert(t1, MarkerData::default());
    markers.insert(t3, MarkerData::default());
    markers.insert(t4, MarkerData::default());

    let mut blocks: BlockDataMap = KeyedMap::new();
    blocks.insert(
        BlockID::new(t0, t1),
        BlockData {
            name: Some("A".to_string()),
            section: vec![t0.get_directed_to(Cardinal::E).unwrap(), t1.get_directed_to(Cardinal::E).unwrap()],
            ..Default::default()
        },
    );
    blocks.insert(
        BlockID::new(t3, t4),
        BlockData {
            name: Some("B".to_string()),
            section: vec![t3.get_directed_to(Cardinal::E).unwrap(), t4.get_directed_to(Cardinal::E).unwrap()],
            ..Default::default()
        },
    );
    let graph = build_logical_graph(&connections, &blocks);
    (graph, blocks, markers)
}

/// Shortest path between the two blocks' enter tracks, cut into legs.
fn build_route(
    start: LogicalBlockID,
    target: LogicalBlockID,
    logical_graph: &LogicalGraph,
    block_data_map: &BlockDataMap,
    marker_data_map: &MarkerDataMap,
) -> Option<Vec<RouteLeg>> {
    let start_data = block_data_map.get(&start.block)?;
    let target_data = block_data_map.get(&target.block)?;
    let start_track = start_data.enter_logical_track(start.direction, start.facing);
    let target_track = target_data.enter_logical_track(target.direction, target.facing);
    let path = logical_graph.shortest_path(start_track, target_track)?;
    RouteLeg::build_from_path(&path, block_data_map, marker_data_map)
}

fn aligned(block: BlockID) -> LogicalBlockID {
    LogicalBlockID { block, direction: BlockDirection::Aligned, facing: Facing::Forward }
}

#[test]
fn build_route_between_two_blocks() {
    let (logical_graph, block_data_map, marker_data_map) = two_block_layout();
    let [t0, t1, t2, t3, t4] = tracks();

    let block_a = BlockID::new(t0, t1);
    let block_b = BlockID::new(t3, t4);

    let legs = build_route(aligned(block_a), aligned(block_b), &logical_graph, &block_data_map, &marker_data_map)
        .expect("should find a route");

    assert_eq!(legs.len(), 1);

    let leg = &legs[0];
    assert_eq!(leg.facing, Facing::Forward);
    assert_eq!(leg.start_block.block_id, block_a);
    assert_eq!(leg.target_block.block_id, block_b);

    assert_eq!(leg.start_block.section.len(), 2);
    assert_eq!(leg.start_block.section[0].track, t0);
    assert_eq!(leg.start_block.section[1].track, t1);

    assert_eq!(leg.travel.len(), 1);
    assert_eq!(leg.travel[0].track, t2);

    assert_eq!(leg.target_block.section.len(), 2);
    assert_eq!(leg.target_block.section[0].track, t3);
    assert_eq!(leg.target_block.section[1].track, t4);

    assert_eq!(leg.markers.len(), 3);
    assert_eq!(leg.markers[0].track, t1);
    assert_eq!(leg.markers[0].role, Some(MarkerRole::Exiting));
    assert_eq!(leg.markers[1].track, t3);
    assert_eq!(leg.markers[1].role, Some(MarkerRole::Entering));
    assert_eq!(leg.markers[2].track, t4);
    assert_eq!(leg.markers[2].role, Some(MarkerRole::Entered));

    let position = |i: usize| leg.markers[i].path_index as f32 / leg.markers[i].path_span as f32;
    assert_eq!(position(0), 0.0);
    assert_eq!(position(2), 1.0);
}

#[test]
fn append_legs_spawns_leg_entities() {
    let (logical_graph, block_data_map, marker_data_map) = two_block_layout();
    let [t0, t1, _t2, t3, t4] = tracks();
    let block_a = BlockID::new(t0, t1);
    let block_b = BlockID::new(t3, t4);

    let legs = build_route(aligned(block_a), aligned(block_b), &logical_graph, &block_data_map, &marker_data_map)
        .expect("should find a route");

    let append = AppendLegs::new(TrainID(0), legs);
    let mut train_legs = TrainLegs::new();
    let mut position: Option<TrainPosition> = None;
    assert_eq!(append.train, TrainID(0));
    handle_append_legs(&mut train_legs, &mut position, append.legs);

    assert_eq!(train_legs.legs.len(), 1);
    let leg = &train_legs.legs[0];
    assert_eq!(leg.start_block.block_id, block_a);
    assert_eq!(leg.target_block.block_id, block_b);
    assert_eq!(leg.facing, Facing::Forward);
    assert_eq!(leg.markers.len(), 3);
}

#[test]
fn append_idle_creates_position() {
    let (_logical_graph, block_data_map, marker_data_map) = two_block_layout();
    let [t0, t1, _t2, _t3, _t4] = tracks();
    let block_a = BlockID::new(t0, t1);

    let idle_leg = RouteLeg::idle(aligned(block_a), &block_data_map, &marker_data_map).expect("should build idle leg");

    assert_eq!(idle_leg.start_block.block_id, block_a);
    assert_eq!(idle_leg.target_block.block_id, block_a);
    assert!(idle_leg.travel.is_empty());
    assert_eq!(idle_leg.markers.len(), 1);
    assert_eq!(idle_leg.markers[0].role, Some(MarkerRole::Entered));

    let mut train_legs = TrainLegs::new();
    let mut position: Option<TrainPosition> = None;
    handle_append_legs(&mut train_legs, &mut position, vec![idle_leg]);

    let position = position.expect("TrainPosition should exist after first AppendLegs");
    assert_eq!(position.leg_state, TrainLegState::EnteredTarget);
    assert_eq!(position.marker_index, 0);
}

/// Idle at A, then the route A -> B with a trailing idle at B.
fn placed_with_route() -> (TrainLegs, TrainPosition, BlockID, BlockID) {
    let (logical_graph, block_data_map, marker_data_map) = two_block_layout();
    let [t0, t1, _t2, t3, t4] = tracks();
    let block_a = BlockID::new(t0, t1);
    let block_b = BlockID::new(t3, t4);

    let idle = RouteLeg::idle(aligned(block_a), &block_data_map, &marker_data_map).expect("should build idle leg");
    let mut legs = build_route(aligned(block_a), aligned(block_b), &logical_graph, &block_data_map, &marker_data_map)
        .expect("should find route");
    legs.push(RouteLeg::idle(aligned(block_b), &block_data_map, &marker_data_map).expect("should build trailing idle"));

    let mut train_legs = TrainLegs::new();
    let mut position: Option<TrainPosition> = None;
    handle_append_legs(&mut train_legs, &mut position, vec![idle]);
    handle_append_legs(&mut train_legs, &mut position, legs);
    (train_legs, position.unwrap(), block_a, block_b)
}

#[test]
fn advance_off_idle_to_route() {
    let (mut train_legs, mut position, block_a, block_b) = placed_with_route();

    handle_advance_leg(&mut train_legs, &mut position);

    assert_eq!(position.leg_state, TrainLegState::ExitingStart);
    assert_eq!(position.marker_index, 0);

    let current_leg = &train_legs.legs[0];
    assert_eq!(current_leg.start_block.block_id, block_a);
    assert_eq!(current_leg.target_block.block_id, block_b);

    assert_eq!(train_legs.legs.len(), 2);
}

#[test]
fn marker_hit_increments_and_updates_state() {
    let (mut train_legs, mut position, _block_a, _block_b) = placed_with_route();
    handle_advance_leg(&mut train_legs, &mut position);

    handle_train_marker_hit(&train_legs, &mut position);
    assert_eq!(position.marker_index, 1);
    assert_eq!(position.leg_state, TrainLegState::EnteringTarget);

    handle_train_marker_hit(&train_legs, &mut position);
    assert_eq!(position.marker_index, 2);
    assert_eq!(position.leg_state, TrainLegState::EnteredTarget);
}

#[test]
fn advance_leg_moves_to_next() {
    let (mut train_legs, mut position, _block_a, block_b) = placed_with_route();

    handle_advance_leg(&mut train_legs, &mut position);
    handle_advance_leg(&mut train_legs, &mut position);

    assert_eq!(position.leg_state, TrainLegState::EnteredTarget);
    assert_eq!(position.marker_index, 0);

    let current_leg = &train_legs.legs[0];
    assert_eq!(current_leg.start_block.block_id, block_b);
    assert_eq!(current_leg.target_block.block_id, block_b);
    assert!(current_leg.travel.is_empty());

    assert_eq!(train_legs.legs.len(), 1);
}

/// Three tracks in a row, two markers at the ends, one block over all of them.
fn test_layout() -> brickrail::common::layout::Layout {
    let t0 = TrackID::new(CellID::new(0, 0, 0), Orientation::EW);
    let t1 = TrackID::new(CellID::new(1, 0, 0), Orientation::EW);
    let t2 = TrackID::new(CellID::new(2, 0, 0), Orientation::EW);
    brickrail::common::layout::Layout {
        tracks: vec![
            ElementEntry::new(t0, Default::default()),
            ElementEntry::new(t1, Default::default()),
            ElementEntry::new(t2, Default::default()),
        ],
        connections: vec![
            ElementEntry::new(t0.get_connection_to(t1).unwrap(), Default::default()),
            ElementEntry::new(t1.get_connection_to(t2).unwrap(), Default::default()),
        ],
        markers: vec![ElementEntry::new(t0, Default::default()), ElementEntry::new(t2, Default::default())],
        blocks: vec![ElementEntry::new(
            BlockID::new(t0, t2),
            BlockData {
                name: Some("Main".to_string()),
                section: vec![
                    t0.get_directed_to(Cardinal::E).unwrap(),
                    t1.get_directed_to(Cardinal::E).unwrap(),
                    t2.get_directed_to(Cardinal::W).unwrap(),
                ],
                ..Default::default()
            },
        )],
        trains: vec![ElementEntry::new(TrainID(0), TrainData::default())],
    }
}

#[test]
fn enter_control_mode_spawns_layout() {

    let layout = test_layout();
    let mut next: u64 = 0;
    let mut tracks: Registry<Track, u64> = Registry::new();
    let mut connections: Registry<Connection, u64> = Registry::new();
    let mut markers: Registry<Marker, u64> = Registry::new();
    let mut blocks: Registry<Block, u64> = Registry::new();
    let mut trains: Registry<Train, u64> = Registry::new();
    let mut graph = ConnectionGraph::new();
    let mut block_data: BlockDataMap = KeyedMap::new();
    for entry in &layout.tracks {
        spawn_element(&mut tracks, &SpawnElement::from_entry(entry), next);
        next += 1;
    }
    for entry in &layout.connections {
        spawn_element(&mut connections, &SpawnElement::from_entry(entry), next);
        graph.add_connection(entry.id);
        next += 1;
    }
    for entry in &layout.markers {
        spawn_element(&mut markers, &SpawnElement::from_entry(entry), next);
        next += 1;
    }
    for entry in &layout.blocks {
        let (_, data) = spawn_element(&mut blocks, &SpawnElement::from_entry(entry), next);
        block_data.insert(entry.id, data.0);
        next += 1;
    }
    for entry in &layout.trains {
        spawn_element(&mut trains, &SpawnElement::from_entry(entry), next);
        next += 1;
    }

    assert_eq!(tracks.len(), 3);
    assert_eq!(connections.len(), 2);
    assert_eq!(graph.node_count(), 3);
    assert_eq!(graph.connections().len(), 2);
    let t1 = TrackID::new(CellID::new(1, 0, 0), Orientation::EW);
    assert_eq!(graph.connections_from(t1).len(), 2);
    assert_eq!(markers.len(), 2);
    assert_eq!(blocks.len(), 1);
    let t0 = TrackID::new(CellID::new(0, 0, 0), Orientation::EW);
    let t2 = TrackID::new(CellID::new(2, 0, 0), Orientation::EW);
    assert!(blocks.get(&BlockID::new(t0, t2)).is_some());
    let main = block_data.get(&BlockID::new(t0, t2)).unwrap();
    assert_eq!(main.section.len(), 3);
    assert_eq!(main.name, Some("Main".to_string()));
    assert_eq!(trains.len(), 1);

    // 2 connections x 4 directed edges, and 2 flip edges at each block end.
    let logical_graph = build_logical_graph(&graph, &block_data);
    assert_eq!(logical_graph.edge_count(), 12);
}
