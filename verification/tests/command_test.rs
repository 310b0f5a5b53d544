use brickrail::common::command::EnterControlModeRequest;
use brickrail::common::layout::Layout;
use brickrail::common::simulation::{ handle_enter_control_mode, handle_place_train_at_block, place_trains_on_entering, EnteringStep, PendingEnterData, SimulationState, };
use brickrail::common::app_command::exit_position;
use brickrail::common::simulation::handle_exit_control_mode;
use brickrail::common::train_position::{handle_advance_leg, handle_train_marker_hit, TrainLegState};
use brickrail::common::block::BlockData;
use brickrail::common::command::{CommandEnvelope, CommandId, SendTrainToBlockRequest};
use brickrail::common::connection::ConnectionGraph;
use brickrail::common::layout_primitives::{
    BlockDirection, BlockID, Cardinal, CellID, Facing, LogicalBlockID, Orientation, TrackID, TrainID,
};
use brickrail::common::logical_graph::{build_logical_graph, LogicalGraph};
use brickrail::common::marker::MarkerData;
use brickrail::common::route::{BlockDataMap, MarkerDataMap, RouteLeg, TrainLegs};
use brickrail::common::simulation::{handle_send_train_to_block, SendTrainError};
use brickrail::common::simulation_event::SimulationEvent;
use brickrail::common::train_position::{handle_append_legs, TrainPosition};
use brickrail::keyed::KeyedMap;

fn tracks() -> [TrackID; 5] {
    [
        TrackID::new(CellID::new(0, 0, 0), Orientation::EW),
        TrackID::new(CellID::new(1, 0, 0), Orientation::EW),
        TrackID::new(CellID::new(2, 0, 0), Orientation::EW),
        TrackID::new(CellID::new(3, 0, 0), Orientation::EW),
        TrackID::new(CellID::new(4, 0, 0), Orientation::EW),
    ]
}

/// Two-block layout: [A: t0-t1] -- t2 -- [B: t3-t4]
fn two_block_layout() -> (LogicalGraph, BlockDataMap, MarkerDataMap) {
    let [t0, t1, t2, t3, t4] = tracks();
    let mut connections = ConnectionGraph::new();
    connections.add_connection(t0.get_connection_to(t1).unwrap());
    connections.add_connection(t1.get_connection_to(t2).unwrap());
    connections.add_connection(t2.get_connection_to(t3).unwrap());
    connections.add_connection(t3.get_connection_to(t4).unwrap());

    let mut markers: MarkerDataMap = KeyedMap::new();
    for t in [t0, t1, t3, t4] {
        markers.insert(t, MarkerData::default());
    }
    let mut blocks: BlockDataMap = KeyedMap::new();
    blocks.insert(
        BlockID::new(t0, t1),
        BlockData {
            name: Some("A".to_string()),
            section: vec![t0.get_directed_to(Cardinal::E).unwrap(), t1.get_directed_to(Cardinal::E).unwrap()],
            ..Default::default()
        },
    );
    blocks.insert(
        BlockID::new(t3, t4),
        BlockData {
            name: Some("B".to_string()),
            section: vec![t3.get_directed_to(Cardinal::E).unwrap(), t4.get_directed_to(Cardinal::E).unwrap()],
            ..Default::default()
        },
    );
    (build_logical_graph(&connections, &blocks), blocks, markers)
}

fn block_a() -> LogicalBlockID {
    let [t0, t1, _, _, _] = tracks();
    LogicalBlockID { block: BlockID::new(t0, t1), direction: BlockDirection::Aligned, facing: Facing::Forward }
}

fn block_b() -> LogicalBlockID {
    let [_, _, _, t3, t4] = tracks();
    LogicalBlockID { block: BlockID::new(t3, t4), direction: BlockDirection::Aligned, facing: Facing::Forward }
}

fn request(train: u32, target: LogicalBlockID) -> CommandEnvelope<SendTrainToBlockRequest> {
    CommandEnvelope { command_id: CommandId(10), request: SendTrainToBlockRequest { train: TrainID(train), target_block: target } }
}

/// A train standing idle in block A.
fn placed_at_a(blocks: &BlockDataMap, markers: &MarkerDataMap) -> (TrainLegs, Option<TrainPosition>) {
    let idle = RouteLeg::idle(block_a(), blocks, markers).unwrap();
    let mut legs = TrainLegs::new();
    let mut position = None;
    handle_append_legs(&mut legs, &mut position, vec![idle]);
    (legs, position)
}

#[test]
fn send_train_to_block() {
    let (graph, blocks, markers) = two_block_layout();
    let (mut legs, mut position) = placed_at_a(&blocks, &markers);

    let (event, response) = handle_send_train_to_block(&request(0, block_b()), Some(Some(&legs)), &graph, &blocks, &markers);
    assert_eq!(response.command_id, CommandId(10));
    assert!(response.result.is_ok(), "expected Completed, got {:?}", response.result);
    let append = match event {
        Some(SimulationEvent::AppendLegs(a)) => a,
        other => panic!("expected appended legs, got {:?}", other),
    };
    assert_eq!(append.train, TrainID(0));
    handle_append_legs(&mut legs, &mut position, append.legs);
    // idle (current) + route + trailing idle
    assert!(legs.legs.len() >= 2, "expected at least 2 legs, got {}", legs.legs.len());
    let last = &legs.legs[legs.legs.len() - 1];
    assert_eq!(last.start_block.block_id, block_b().block);
    assert!(last.travel.is_empty());
}

#[test]
fn send_unknown_train_fails() {
    let (graph, blocks, markers) = two_block_layout();
    let (event, response) = handle_send_train_to_block(&request(7, block_b()), None, &graph, &blocks, &markers);
    assert!(event.is_none());
    assert_eq!(response.result, Err("train TrainID(7) not found".to_string()));
}

#[test]
fn send_to_unknown_block_fails() {
    let (graph, blocks, markers) = two_block_layout();
    let (legs, _) = placed_at_a(&blocks, &markers);
    let t9 = TrackID::new(CellID::new(9, 0, 0), Orientation::EW);
    let t10 = TrackID::new(CellID::new(10, 0, 0), Orientation::EW);
    let nowhere = LogicalBlockID { block: BlockID::new(t9, t10), direction: BlockDirection::Aligned, facing: Facing::Forward };
    let (event, response) = handle_send_train_to_block(&request(0, nowhere), Some(Some(&legs)), &graph, &blocks, &markers);
    assert!(event.is_none());
    let expected = format!(
        "target block BlockID {{ track_a: {}, track_b: {} }} not found",
        nowhere.block.track_a.to_string(),
        nowhere.block.track_b.to_string()
    );
    assert_eq!(response.result, Err(expected));
    assert_eq!(
        SendTrainError::NoPath.message(TrainID(0)),
        "no path found"
    );
}

#[test]
fn connection_graph_keeps_one_connection_per_track_pair() {
    let [t0, t1, t2, _, _] = tracks();
    let mut graph = ConnectionGraph::new();
    let c01 = t0.get_connection_to(t1).unwrap();
    let c12 = t1.get_connection_to(t2).unwrap();
    graph.add_connection(c01);
    graph.add_connection(c12);
    graph.add_connection(c01);
    assert_eq!(graph.connections().len(), 2);
    let mut from_t1 = graph.connections_from(t1);
    from_t1.sort_by_key(|c| c.track_b.track.cell.x);
    assert_eq!(from_t1, vec![c01, c12]);
    assert_eq!(graph.connections_from(t0), vec![c01]);
    graph.remove_connection(c01);
    assert_eq!(graph.connections(), vec![c12]);
    assert!(graph.connections_from(t0).is_empty());
}

#[test]
fn send_train_without_legs_fails() {
    let (graph, blocks, markers) = two_block_layout();
    let (event, response) = handle_send_train_to_block(&request(0, block_b()), Some(None), &graph, &blocks, &markers);
    assert!(event.is_none());
    assert_eq!(response.result, Err("train has no position/legs".to_string()));
    let empty = TrainLegs::new();
    let (_, response) = handle_send_train_to_block(&request(0, block_b()), Some(Some(&empty)), &graph, &blocks, &markers);
    assert_eq!(response.result, Err("train has no current leg".to_string()));
}

#[test]
fn connection_graph_counts_its_tracks() {
    let [t0, t1, t2, _, _] = tracks();
    let mut graph = ConnectionGraph::new();
    assert_eq!(graph.node_count(), 0);
    graph.add_connection(t0.get_connection_to(t1).unwrap());
    graph.add_connection(t1.get_connection_to(t2).unwrap());
    assert_eq!(graph.node_count(), 3);
    graph.remove_connection(t0.get_connection_to(t1).unwrap());
    assert_eq!(graph.node_count(), 3);
}

#[test]
fn first_legs_place_the_train() {
    let (_, blocks, markers) = two_block_layout();
    let stale = TrainPosition { leg_state: brickrail::common::train_position::TrainLegState::ExitingStart, marker_index: 5 };
    let mut legs = TrainLegs::new();
    let mut position = Some(stale);
    handle_append_legs(&mut legs, &mut position, vec![RouteLeg::idle(block_a(), &blocks, &markers).unwrap()]);
    let placed = position.unwrap();
    assert_eq!(placed.marker_index, 0);
    assert_eq!(placed.leg_state, brickrail::common::train_position::TrainLegState::EnteredTarget);
}

/// Enters control mode with the given cached positions and places the
/// trains: the legs and position the one train ends up with.
fn enter_and_place(
    command_id: u64,
    train_positions: Vec<(TrainID, LogicalBlockID)>,
    blocks: &BlockDataMap,
    markers: &MarkerDataMap,
) -> (TrainLegs, Option<TrainPosition>) {
    let mut pending = PendingEnterData::default();
    let (state, response) = handle_enter_control_mode(
        &mut pending,
        CommandId(command_id),
        EnterControlModeRequest { layout: Layout::default(), train_positions },
    );
    assert_eq!(state, SimulationState::Entering);
    assert!(response.result.is_ok(), "expected Completed, got {:?}", response.result);
    let placements = match place_trains_on_entering(&mut pending, false, &vec![]) {
        EnteringStep::Place(p) => p,
        _ => panic!("expected placements"),
    };
    assert_eq!(placements.len(), 1);
    let append = handle_place_train_at_block(&placements[0], blocks, markers).unwrap();
    let mut legs = TrainLegs::new();
    let mut position = None;
    handle_append_legs(&mut legs, &mut position, append.legs);
    assert!(matches!(place_trains_on_entering(&mut pending, false, &vec![append.train]), EnteringStep::Finish));
    (legs, position)
}

#[test]
fn enter_control_mode_with_train_placement() {
    let (_, blocks, markers) = two_block_layout();
    let (_legs, position) = enter_and_place(1, vec![(TrainID(0), block_a())], &blocks, &markers);
    assert_eq!(position.unwrap().leg_state, brickrail::common::train_position::TrainLegState::EnteredTarget);
}

#[test]
fn exit_and_reenter_preserves_position() {

    let (graph, blocks, markers) = two_block_layout();
    let (mut legs, position) = enter_and_place(1, vec![(TrainID(0), block_a())], &blocks, &markers);
    let mut position = position.unwrap();

    // Send the train to block B.
    let (event, response) = handle_send_train_to_block(&request(0, block_b()), Some(Some(&legs)), &graph, &blocks, &markers);
    assert!(response.result.is_ok());
    let append = match event {
        Some(SimulationEvent::AppendLegs(a)) => a,
        other => panic!("expected appended legs, got {:?}", other),
    };
    let mut maybe_position = Some(position);
    handle_append_legs(&mut legs, &mut maybe_position, append.legs);
    position = maybe_position.unwrap();

    // The train runs: off the idle leg, past every marker, onto the idle leg at B.
    handle_advance_leg(&mut legs, &mut position);
    while position.marker_index + 1 < legs.legs[0].markers.len() {
        handle_train_marker_hit(&legs, &mut position);
    }
    while legs.legs.len() >= 2 {
        handle_advance_leg(&mut legs, &mut position);
    }
    assert_eq!(position.leg_state, TrainLegState::EnteredTarget);

    // Leaving control mode caches the train's block.
    let (state, response) = handle_exit_control_mode(CommandId(2));
    assert_eq!(state, SimulationState::Idle);
    assert!(response.result.is_ok(), "exit expected Completed, got {:?}", response.result);
    let cached = exit_position(&position, &legs).unwrap();
    assert_eq!(cached.0.block, block_b().block, "cached position should be block B");

    // Entering again places the train where it was cached.
    let (legs, position) = enter_and_place(3, vec![(TrainID(0), cached.0)], &blocks, &markers);
    assert_eq!(position.unwrap().leg_state, TrainLegState::EnteredTarget);
    assert_eq!(legs.legs[0].target_block.block_id, block_b().block, "train should be at block B after round-trip");
}
