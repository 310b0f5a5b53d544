//! The simulation's decisions: planning the legs that take a train to a
//! block, placing trains, and the phases of entering control mode.
use vstd::prelude::*;
use crate::common::block::enter_track;
use crate::common::layout_primitives::{BlockID, LogicalBlockID, LogicalTrackID, TrainID};
use crate::common::logical_graph::{is_shortest_walk, reachable, LogicalGraph};
use crate::common::route::{
    idle_leg_of, lemma_build_from_path_result, legs_view, path_legs, sections_nonempty, AppendLegs,
    BlockDataMap, LegSpec, MarkerDataMap, RouteLeg, TrainLegs,
};
use crate::common::block::BlockData;
use crate::common::marker::MarkerData;
use crate::common::layout_primitives::TrackID;
use crate::keyed::entries_map;
use crate::common::command::{CommandId, CommandResponse, EnterControlModeRequest};
use crate::common::layout::Layout;

verus! {

/// The phases of the simulation: idle, setting up a layout, running it.
#[derive(Clone, Copy, Debug, PartialEq, Eq, Structural)]
pub enum SimulationState {
    Idle,
    /// The layout is spawned; trains are being placed.
    Entering,
    Running,
}

impl Default for SimulationState {
    fn default() -> (r: Self)
        ensures
            r == SimulationState::Idle,
    {
        SimulationState::Idle
    }
}

/// Why a train could not be sent to a block.
#[derive(Clone, Copy, Debug, PartialEq, Eq, Structural)]
pub enum SendTrainError {
    /// The train is unknown.
    TrainNotFound,
    /// The train is known but has no position or legs yet.
    NoPositionOrLegs,
    /// The train's leg queue is empty.
    NoCurrentLeg,
    /// The block the train stands in is not in the layout.
    StartBlockNotFound(BlockID),
    /// The requested block is not in the layout.
    TargetBlockNotFound(BlockID),
    /// No path leads from the train's block to the requested one.
    NoPath,
    /// The path found does not cut into route legs.
    RouteLegsFailed,
    /// The idle leg at the target could not be built.
    TrailingIdleFailed,
}

/// The legs a path plans: its route legs and a trailing idle leg in the
/// target block.
pub open spec fn route_plan(
    path: Seq<LogicalTrackID>,
    target: LogicalBlockID,
    blocks: Seq<(BlockID, BlockData)>,
    markers: Map<TrackID, MarkerData>,
) -> Result<Seq<LegSpec>, SendTrainError> {
    match path_legs(path, blocks, markers) {
        None => Err(SendTrainError::RouteLegsFailed),
        Some(legs) => if entries_map(blocks).contains_key(target.block) {
            Ok(legs.push(idle_leg_of(target, entries_map(blocks)[target.block], markers)))
        } else {
            Err(SendTrainError::TrailingIdleFailed)
        },
    }
}

pub open spec fn plan_view(r: Result<Vec<RouteLeg>, SendTrainError>) -> Result<Seq<LegSpec>, SendTrainError> {
    match r {
        Ok(v) => Ok(legs_view(v@)),
        Err(e) => Err(e),
    }
}

/// The logical block where a queue of legs ends up: the target of its
/// current leg.
pub open spec fn current_block(legs: Seq<LegSpec>) -> LogicalBlockID {
    LogicalBlockID {
        block: legs[0].target_block.block_id,
        direction: legs[0].target_block.direction,
        facing: legs[0].target_block.facing,
    }
}

/// The enter track of a logical block of the layout.
pub open spec fn block_enter_track(b: LogicalBlockID, blocks: Map<BlockID, BlockData>) -> LogicalTrackID {
    enter_track(blocks[b.block].section@, b.direction, b.facing)
}

/// Cuts a path into route legs and appends the idle leg at the target.
pub fn legs_for_path(
    path: &Vec<LogicalTrackID>,
    target: LogicalBlockID,
    block_data_map: &BlockDataMap,
    marker_data_map: &MarkerDataMap,
) -> (r: Result<Vec<RouteLeg>, SendTrainError>)
    requires
        sections_nonempty(block_data_map.entries_view()),
    ensures
        plan_view(r) == route_plan(path@, target, block_data_map.entries_view(), marker_data_map@),
{
    let built = RouteLeg::build_from_path(path, block_data_map, marker_data_map);
    proof {
        let rv = if built is Some {
            Some(legs_view(built->0@))
        } else {
            None
        };
        lemma_build_from_path_result(path@, block_data_map.entries_view(), marker_data_map@, rv);
    }
    let mut legs = match built {
        Some(v) => v,
        None => return Err(SendTrainError::RouteLegsFailed),
    };
    let idle = match RouteLeg::idle(target, block_data_map, marker_data_map) {
        Some(leg) => leg,
        None => return Err(SendTrainError::TrailingIdleFailed),
    };
    let ghost before = legs@;
    legs.push(idle);
    proof {
        assert(legs_view(legs@) =~= legs_view(before).push(idle@));
    }
    Ok(legs)
}

/// What planning to send a train to `target` gives: an error when the
/// train, its current leg, the start or target block, or a path is
/// missing; otherwise the route along some shortest path between the two
/// blocks' enter tracks.
pub open spec fn send_plan(
    train_legs: Option<Option<&TrainLegs>>,
    target: LogicalBlockID,
    graph: &LogicalGraph,
    block_data_map: &BlockDataMap,
    marker_data_map: &MarkerDataMap,
    p: Result<Seq<LegSpec>, SendTrainError>,
) -> bool {
    match train_legs {
        None => p == Err::<Seq<LegSpec>, SendTrainError>(SendTrainError::TrainNotFound),
        Some(None) => p == Err::<Seq<LegSpec>, SendTrainError>(SendTrainError::NoPositionOrLegs),
        Some(Some(l)) => if l@.len() == 0 {
            p == Err::<Seq<LegSpec>, SendTrainError>(SendTrainError::NoCurrentLeg)
        } else {
            let start = current_block(l@);
            let m = block_data_map@;
            if !m.contains_key(start.block) {
                p == Err::<Seq<LegSpec>, SendTrainError>(SendTrainError::StartBlockNotFound(start.block))
            } else if !m.contains_key(target.block) {
                p == Err::<Seq<LegSpec>, SendTrainError>(SendTrainError::TargetBlockNotFound(target.block))
            } else {
                let from = block_enter_track(start, m);
                let to = block_enter_track(target, m);
                if !reachable(graph@, from, to) {
                    p == Err::<Seq<LegSpec>, SendTrainError>(SendTrainError::NoPath)
                } else {
                    exists|w: Seq<LogicalTrackID>| #[trigger] is_shortest_walk(graph@, w, from, to) && p
                        == route_plan(w, target, block_data_map.entries_view(), marker_data_map@)
                }
            }
        },
    }
}

/// Plans the legs that take a train from the block its current leg ends in
/// to `target`: a shortest path between the two blocks' enter tracks, cut
/// into route legs, followed by an idle leg at the target.
pub fn plan_send_train(
    train_legs: Option<Option<&TrainLegs>>,
    target: LogicalBlockID,
    graph: &LogicalGraph,
    block_data_map: &BlockDataMap,
    marker_data_map: &MarkerDataMap,
) -> (r: Result<Vec<RouteLeg>, SendTrainError>)
    requires
        sections_nonempty(block_data_map.entries_view()),
    ensures
        send_plan(train_legs, target, graph, block_data_map, marker_data_map, plan_view(r)),
{
    let legs = match train_legs {
        Some(Some(l)) => l,
        Some(None) => return Err(SendTrainError::NoPositionOrLegs),
        None => return Err(SendTrainError::TrainNotFound),
    };
    if legs.legs.len() == 0 {
        return Err(SendTrainError::NoCurrentLeg);
    }
    let start = legs.legs[0].target_logical_block_id();
    assert(legs.legs@[0]@ == legs@[0]);
    let start_data = match block_data_map.get(&start.block) {
        Some(d) => d,
        None => return Err(SendTrainError::StartBlockNotFound(start.block)),
    };
    let target_data = match block_data_map.get(&target.block) {
        Some(d) => d,
        None => return Err(SendTrainError::TargetBlockNotFound(target.block)),
    };
    proof {
        let es = block_data_map.entries_view();
        let i = choose|j: int| 0 <= j < es.len() && es[j].0 == start.block && es[j].1 == *start_data;
        let k = choose|j: int| 0 <= j < es.len() && es[j].0 == target.block && es[j].1 == *target_data;
        assert(es[i].1.section@.len() > 0);
        assert(es[k].1.section@.len() > 0);
    }
    let start_track = start_data.enter_logical_track(start.direction, start.facing);
    let target_track = target_data.enter_logical_track(target.direction, target.facing);
    let path = match graph.shortest_path(start_track, target_track) {
        Some(p) => p,
        None => return Err(SendTrainError::NoPath),
    };
    let r = legs_for_path(&path, target, block_data_map, marker_data_map);
    proof {
        assert(is_shortest_walk(graph@, path@, start_track, target_track));
    }
    r
}

/// A request to place a train in a block by giving it an idle leg there.
#[derive(Clone, Copy, Debug, PartialEq, Eq, Structural)]
pub struct PlaceTrainAtBlock {
    pub train: TrainID,
    pub block: LogicalBlockID,
}

/// The legs that place a train: the idle leg in the block, when the block
/// is in the layout.
pub fn handle_place_train_at_block(
    msg: &PlaceTrainAtBlock,
    block_data_map: &BlockDataMap,
    marker_data_map: &MarkerDataMap,
) -> (r: Option<AppendLegs>)
    requires
        sections_nonempty(block_data_map.entries_view()),
    ensures
        match r {
            Some(a) => block_data_map@.contains_key(msg.block.block) && a.train == msg.train && legs_view(a.legs@)
                == seq![idle_leg_of(msg.block, block_data_map@[msg.block.block], marker_data_map@)],
            None => !block_data_map@.contains_key(msg.block.block),
        },
{
    match RouteLeg::idle(msg.block, block_data_map, marker_data_map) {
        Some(leg) => {
            let ghost l = leg@;
            let legs = vec![leg];
            assert(legs_view(legs@) =~= seq![l]);
            Some(AppendLegs::new(msg.train, legs))
        },
        None => None,
    }
}

/// What entering control mode still has to do: the layout to spawn, the
/// trains to place, and the trains placed but not yet positioned.
pub struct PendingEnterData {
    pub layout: Option<Layout>,
    pub train_positions: Vec<(TrainID, LogicalBlockID)>,
    pub awaiting_placement: Vec<TrainID>,
}

impl Default for PendingEnterData {
    fn default() -> (r: Self)
        ensures
            r.layout is None,
            r.train_positions@.len() == 0,
            r.awaiting_placement@.len() == 0,
    {
        PendingEnterData { layout: None, train_positions: Vec::new(), awaiting_placement: Vec::new() }
    }
}

/// What a step of entering control mode decides.
pub enum EnteringStep {
    /// Nothing to do yet.
    Wait,
    /// Place these trains.
    Place(Vec<PlaceTrainAtBlock>),
    /// Every placed train has its position: the simulation runs.
    Finish,
}

pub open spec fn placements(p: Seq<(TrainID, LogicalBlockID)>) -> Seq<PlaceTrainAtBlock> {
    p.map_values(|x: (TrainID, LogicalBlockID)| PlaceTrainAtBlock { train: x.0, block: x.1 })
}

pub open spec fn trains_of(p: Seq<(TrainID, LogicalBlockID)>) -> Seq<TrainID> {
    p.map_values(|x: (TrainID, LogicalBlockID)| x.0)
}

/// A step while entering control mode. Once the train registry has
/// entries, the cached positions are handed out as placements (and the
/// trains wait for their positions); once every waiting train has a
/// position, the layout is dropped and the simulation runs.
pub fn place_trains_on_entering(pending: &mut PendingEnterData, registry_empty: bool, positioned: &Vec<TrainID>) -> (r: EnteringStep)
    ensures
        registry_empty ==> r is Wait && *final(pending) == *old(pending),
        !registry_empty && old(pending).train_positions@.len() > 0 ==> {
            &&& r matches EnteringStep::Place(ps) && ps@ == placements(old(pending).train_positions@)
            &&& final(pending).train_positions@.len() == 0
            &&& final(pending).awaiting_placement@ == old(pending).awaiting_placement@ + trains_of(old(pending).train_positions@)
            &&& final(pending).layout == old(pending).layout
        },
        !registry_empty && old(pending).train_positions@.len() == 0 ==> if (forall|i: int| 0 <= i < old(pending).awaiting_placement@.len()
            ==> positioned@.contains(#[trigger] old(pending).awaiting_placement@[i])) {
            &&& r is Finish
            &&& final(pending).layout is None
            &&& final(pending).awaiting_placement@.len() == 0
            &&& final(pending).train_positions@.len() == 0
        } else {
            r is Wait && *final(pending) == *old(pending)
        },
{
    if registry_empty {
        return EnteringStep::Wait;
    }
    if pending.train_positions.len() > 0 {
        let mut positions = Vec::new();
        std::mem::swap(&mut positions, &mut pending.train_positions);
        let mut placed: Vec<PlaceTrainAtBlock> = Vec::new();
        let mut i: usize = 0;
        while i < positions.len()
            invariant
                0 <= i <= positions@.len(),
                positions@ == old(pending).train_positions@,
                pending.train_positions@.len() == 0,
                pending.layout == old(pending).layout,
                placed@ == placements(positions@.subrange(0, i as int)),
                pending.awaiting_placement@ == old(pending).awaiting_placement@ + trains_of(positions@.subrange(0, i as int)),
            decreases positions@.len() - i,
        {
            let (train, block) = positions[i];
            pending.awaiting_placement.push(train);
            placed.push(PlaceTrainAtBlock { train, block });
            proof {
                let pre = positions@.subrange(0, i as int);
                assert(positions@.subrange(0, i + 1) =~= pre.push(positions@[i as int]));
                assert(placements(pre.push(positions@[i as int])) =~= placements(pre).push(PlaceTrainAtBlock { train, block }));
                assert(trains_of(pre.push(positions@[i as int])) =~= trains_of(pre).push(train));
            }
            i = i + 1;
        }
        proof {
            assert(positions@.subrange(0, positions@.len() as int) =~= positions@);
        }
        return EnteringStep::Place(placed);
    }
    let mut j: usize = 0;
    while j < pending.awaiting_placement.len()
        invariant
            0 <= j <= pending.awaiting_placement@.len(),
            *pending == *old(pending),
            !registry_empty,
            old(pending).train_positions@.len() == 0,
            forall|k: int| 0 <= k < j ==> positioned@.contains(#[trigger] pending.awaiting_placement@[k]),
        decreases pending.awaiting_placement@.len() - j,
    {
        if !contains_train(positioned, pending.awaiting_placement[j]) {
            assert(!positioned@.contains(old(pending).awaiting_placement@[j as int]));
            return EnteringStep::Wait;
        }
        j = j + 1;
    }
    pending.layout = None;
    pending.awaiting_placement = Vec::new();
    EnteringStep::Finish
}

fn contains_train(v: &Vec<TrainID>, t: TrainID) -> (r: bool)
    ensures
        r == v@.contains(t),
{
    let mut i: usize = 0;
    while i < v.len()
        invariant
            0 <= i <= v@.len(),
            forall|k: int| 0 <= k < i ==> v@[k] != t,
        decreases v@.len() - i,
    {
        if v[i].0 == t.0 {
            assert(v@[i as int] == t);
            return true;
        }
        i = i + 1;
    }
    false
}

/// Entering control mode: the request's layout and cached train positions
/// are kept for the entering phase, which starts now; the command is done.
pub fn handle_enter_control_mode(
    pending: &mut PendingEnterData,
    command_id: CommandId,
    request: EnterControlModeRequest,
) -> (r: (SimulationState, CommandResponse))
    ensures
        r.0 == SimulationState::Entering,
        r.1.command_id == command_id,
        r.1.result is Ok,
        final(pending).layout == Some(request.layout),
        final(pending).train_positions@ == request.train_positions@,
        final(pending).awaiting_placement@ == old(pending).awaiting_placement@,
{
    let EnterControlModeRequest { layout, train_positions } = request;
    pending.layout = Some(layout);
    pending.train_positions = train_positions;
    (SimulationState::Entering, CommandResponse { command_id, result: Ok(()) })
}

/// Leaving control mode: the simulation goes idle; the command is done.
pub fn handle_exit_control_mode(command_id: CommandId) -> (r: (SimulationState, CommandResponse))
    ensures
        r.0 == SimulationState::Idle,
        r.1.command_id == command_id,
        r.1.result is Ok,
{
    (SimulationState::Idle, CommandResponse { command_id, result: Ok(()) })
}

/// The debug form of a block: `BlockID { track_a: .., track_b: .. }`.
pub open spec fn block_debug(b: BlockID) -> Seq<char> {
    "BlockID { track_a: "@ + crate::common::layout_primitives::track_display(b.track_a) + ", track_b: "@
        + crate::common::layout_primitives::track_display(b.track_b) + " }"@
}

/// What a failed request to send a train is answered.
pub open spec fn send_error_message(e: SendTrainError, train: TrainID) -> Seq<char> {
    match e {
        SendTrainError::TrainNotFound => "train TrainID("@ + crate::text::nat_digits(train.0 as nat) + ") not found"@,
        SendTrainError::NoPositionOrLegs => "train has no position/legs"@,
        SendTrainError::NoCurrentLeg => "train has no current leg"@,
        SendTrainError::StartBlockNotFound(b) => "start block "@ + block_debug(b) + " not found"@,
        SendTrainError::TargetBlockNotFound(b) => "target block "@ + block_debug(b) + " not found"@,
        SendTrainError::NoPath => "no path found"@,
        SendTrainError::RouteLegsFailed => "failed to build route legs"@,
        SendTrainError::TrailingIdleFailed => "failed to build trailing idle"@,
    }
}

fn push_block_debug(out: &mut Vec<char>, b: BlockID)
    ensures
        final(out)@ == old(out)@ + block_debug(b),
{
    crate::text::push_str(out, "BlockID { track_a: ");
    let a = b.track_a.to_string();
    crate::text::push_str(out, a.as_str());
    crate::text::push_str(out, ", track_b: ");
    let t = b.track_b.to_string();
    crate::text::push_str(out, t.as_str());
    crate::text::push_str(out, " }");
    assert(final(out)@ =~= old(out)@ + block_debug(b));
}

impl SendTrainError {
    /// The message a failed request is answered with.
    pub fn message(&self, train: TrainID) -> (r: String)
        ensures
            r@ == send_error_message(*self, train),
    {
        let mut v: Vec<char> = Vec::new();
        match self {
            SendTrainError::TrainNotFound => {
                crate::text::push_str(&mut v, "train TrainID(");
                crate::text::push_usize(&mut v, train.0 as usize);
                crate::text::push_str(&mut v, ") not found");
            },
            SendTrainError::NoPositionOrLegs => crate::text::push_str(&mut v, "train has no position/legs"),
            SendTrainError::NoCurrentLeg => crate::text::push_str(&mut v, "train has no current leg"),
            SendTrainError::StartBlockNotFound(b) => {
                crate::text::push_str(&mut v, "start block ");
                push_block_debug(&mut v, *b);
                crate::text::push_str(&mut v, " not found");
            },
            SendTrainError::TargetBlockNotFound(b) => {
                crate::text::push_str(&mut v, "target block ");
                push_block_debug(&mut v, *b);
                crate::text::push_str(&mut v, " not found");
            },
            SendTrainError::NoPath => crate::text::push_str(&mut v, "no path found"),
            SendTrainError::RouteLegsFailed => crate::text::push_str(&mut v, "failed to build route legs"),
            SendTrainError::TrailingIdleFailed => crate::text::push_str(&mut v, "failed to build trailing idle"),
        }
        let r = crate::text::chars_to_string(&v);
        assert(r@ =~= send_error_message(*self, train));
        r
    }
}

/// A request to send a train to a block, given the train's legs (none when
/// the train is unknown, `Some(None)` when it has no position or legs yet):
/// the planned legs are appended to
/// the train's queue (as an event) and the request is answered; a failed
/// plan is answered with why it failed.
pub fn handle_send_train_to_block(
    envelope: &crate::common::command::CommandEnvelope<crate::common::command::SendTrainToBlockRequest>,
    train_legs: Option<Option<&TrainLegs>>,
    graph: &LogicalGraph,
    block_data_map: &BlockDataMap,
    marker_data_map: &MarkerDataMap,
) -> (r: (Option<crate::common::simulation_event::SimulationEvent>, CommandResponse))
    requires
        sections_nonempty(block_data_map.entries_view()),
    ensures
        r.1.command_id == envelope.command_id,
        exists|p: Result<Seq<LegSpec>, SendTrainError>| #[trigger] send_plan(
            train_legs,
            envelope.request.target_block,
            graph,
            block_data_map,
            marker_data_map,
            p,
        ) && match p {
            Ok(legs) => r.1.result is Ok && (r.0 matches Some(crate::common::simulation_event::SimulationEvent::AppendLegs(a))
                && a.train == envelope.request.train && legs_view(a.legs@) == legs),
            Err(e) => r.0 is None && (r.1.result matches Err(m) && m@ == send_error_message(e, envelope.request.train)),
        },
{
    let result = plan_send_train(train_legs, envelope.request.target_block, graph, block_data_map, marker_data_map);
    assert(send_plan(train_legs, envelope.request.target_block, graph, block_data_map, marker_data_map, plan_view(result)));
    match result {
        Ok(legs) => (
            Some(crate::common::simulation_event::SimulationEvent::AppendLegs(AppendLegs::new(envelope.request.train, legs))),
            CommandResponse { command_id: envelope.command_id, result: Ok(()) },
        ),
        Err(e) => (None, CommandResponse { command_id: envelope.command_id, result: Err(e.message(envelope.request.train)) }),
    }
}

} // verus!
