//! The client's command queue: commands for the client itself and commands
//! forwarded to the simulation, run one at a time.
use vstd::prelude::*;
use std::collections::VecDeque;
use crate::common::command::{
    CommandEnvelope, CommandId, CommandRegistry, CommandResponse, EnterControlModeRequest, ExitControlModeRequest,
    SimulationCommand,
};
use crate::keyed::{Key, KeyedMap};
use crate::common::layout::Layout;
use crate::common::layout_primitives::{LogicalBlockID, TrainID};
use crate::common::route::TrainLegs;
use crate::common::train_position::{TrainLegState, TrainPosition};

verus! {

/// What the client is asked to do.
pub enum AppCommand {
    /// Spawn the layout's elements in the client's own world.
    SpawnLayout(Layout),
    /// Cache a train's block, so that entering control mode places it there.
    SetTrainPosition(TrainID, LogicalBlockID),
    /// Enter control mode, placing the trains at their cached blocks.
    EnterControlMode(Layout),
    /// Leave control mode, caching where the trains stand.
    ExitControlMode,
    /// Forward a command to the simulation.
    Simulation(SimulationCommand),
}

/// A train's cached block, kept while not in control mode.
#[derive(Clone, Copy, Debug, PartialEq, Eq, Structural)]
pub struct TrainBlockPosition(pub LogicalBlockID);

/// Spawn a layout in the client's world.
pub struct SpawnLayoutRequest {
    pub layout: Layout,
}

/// Where a command goes when it is dispatched.
pub enum AppDispatch {
    /// Handled by the client: spawn the layout.
    SpawnLayout(CommandEnvelope<SpawnLayoutRequest>),
    /// Handled by the client at once: cache the train's block.
    SetTrainPosition(CommandId, TrainID, LogicalBlockID),
    /// Handed to the simulation.
    Forward(CommandEnvelope<SimulationCommand>),
}

/// Routes a command: client commands stay, the others become simulation
/// requests; entering control mode carries the cached train positions.
pub fn route_app_command(id: CommandId, command: AppCommand, cached: Vec<(TrainID, LogicalBlockID)>) -> (r: AppDispatch)
    ensures
        match command {
            AppCommand::SpawnLayout(layout) => r matches AppDispatch::SpawnLayout(env) && env.command_id == id
                && env.request.layout == layout,
            AppCommand::SetTrainPosition(train, block) => r == AppDispatch::SetTrainPosition(id, train, block),
            AppCommand::EnterControlMode(layout) => r matches AppDispatch::Forward(env) && env.command_id == id
                && (env.request matches SimulationCommand::EnterControlMode(req) && req.layout == layout
                && req.train_positions@ == cached@),
            AppCommand::ExitControlMode => r matches AppDispatch::Forward(env) && env.command_id == id
                && env.request is ExitControlMode,
            AppCommand::Simulation(cmd) => r matches AppDispatch::Forward(env) && env.command_id == id
                && env.request == cmd,
        },
{
    match command {
        AppCommand::SpawnLayout(layout) => AppDispatch::SpawnLayout(
            CommandEnvelope { command_id: id, request: SpawnLayoutRequest { layout } },
        ),
        AppCommand::SetTrainPosition(train, block) => AppDispatch::SetTrainPosition(id, train, block),
        AppCommand::EnterControlMode(layout) => AppDispatch::Forward(
            CommandEnvelope {
                command_id: id,
                request: SimulationCommand::EnterControlMode(EnterControlModeRequest { layout, train_positions: cached }),
            },
        ),
        AppCommand::ExitControlMode => AppDispatch::Forward(
            CommandEnvelope { command_id: id, request: SimulationCommand::ExitControlMode(ExitControlModeRequest) },
        ),
        AppCommand::Simulation(cmd) => AppDispatch::Forward(CommandEnvelope { command_id: id, request: cmd }),
    }
}

/// The block a train is cached at when control mode ends: the target of its
/// current leg, once it has fully entered it.
pub fn exit_position(position: &TrainPosition, legs: &TrainLegs) -> (r: Option<TrainBlockPosition>)
    ensures
        match r {
            Some(p) => position.leg_state == TrainLegState::EnteredTarget && legs@.len() > 0 && p.0 == (LogicalBlockID {
                block: legs@[0].target_block.block_id,
                direction: legs@[0].target_block.direction,
                facing: legs@[0].target_block.facing,
            }),
            None => position.leg_state != TrainLegState::EnteredTarget || legs@.len() == 0,
        },
{
    if position.leg_state == TrainLegState::EnteredTarget && legs.legs.len() > 0 {
        assert(legs.legs@[0]@ == legs@[0]);
        Some(TrainBlockPosition(legs.legs[0].target_logical_block_id()))
    } else {
        None
    }
}

/// What became of the command in flight.
#[derive(Clone, Copy, Debug, PartialEq, Eq, Structural)]
pub enum InFlightStatus {
    /// Still waiting for its response.
    Pending,
    /// Completed or failed.
    Finished,
    /// Its entity is gone.
    Missing,
}

/// Sequential queue of command entities: each waits for the one before to
/// finish.
pub struct AppCommandQueue<E> {
    queue: VecDeque<E>,
    in_flight: Option<E>,
}

impl<E: Copy> AppCommandQueue<E> {
    /// The waiting command entities, oldest first.
    pub closed spec fn waiting(&self) -> Seq<E> {
        self.queue@
    }

    pub closed spec fn in_flight(&self) -> Option<E> {
        self.in_flight
    }

    pub fn new() -> (r: Self)
        ensures
            r.waiting().len() == 0,
            r.in_flight() is None,
    {
        AppCommandQueue { queue: VecDeque::new(), in_flight: None }
    }

    /// Queues the entity of a new command, registered under `id`.
    pub fn push(&mut self, registry: &mut CommandRegistry<E>, id: CommandId, entity: E)
        ensures
            final(self).waiting() == old(self).waiting().push(entity),
            final(self).in_flight() == old(self).in_flight(),
            final(registry)@ == old(registry)@.insert(id, entity),
            final(registry).counter() == old(registry).counter(),
    {
        registry.insert(id, entity);
        self.queue.push_back(entity);
    }

    /// The command to dispatch next: none while the one in flight is
    /// pending; otherwise the in-flight slot is cleared and the oldest
    /// waiting command leaves the queue.
    pub fn next_command(&mut self, status: InFlightStatus) -> (r: Option<E>)
        ensures
            old(self).in_flight() is Some && status == InFlightStatus::Pending ==> {
                &&& r is None
                &&& final(self).waiting() == old(self).waiting()
                &&& final(self).in_flight() == old(self).in_flight()
            },
            !(old(self).in_flight() is Some && status == InFlightStatus::Pending) ==> {
                &&& final(self).in_flight() is None
                &&& old(self).waiting().len() == 0 ==> r is None && final(self).waiting() == old(self).waiting()
                &&& old(self).waiting().len() > 0 ==> r == Some(old(self).waiting()[0]) && final(self).waiting()
                    == old(self).waiting().drop_first()
            },
    {
        if self.in_flight.is_some() {
            match status {
                InFlightStatus::Pending => return None,
                _ => {
                    self.in_flight = None;
                },
            }
        }
        self.queue.pop_front()
    }

    /// Marks a dispatched command as in flight.
    pub fn set_in_flight(&mut self, entity: E)
        ensures
            final(self).in_flight() == Some(entity),
            final(self).waiting() == old(self).waiting(),
    {
        self.in_flight = Some(entity);
    }
}

/// One round of the client's dispatcher: the queue gives the next command
/// (none while the one in flight is pending); a command whose entity is
/// gone is dropped; otherwise the command is taken from `commands`, routed
/// (entering control mode with the cached train positions), and put in
/// flight. Caching a train's block is answered at once with success.
pub fn dispatch_app_commands<E: Key>(
    queue: &mut AppCommandQueue<E>,
    status: InFlightStatus,
    commands: &mut KeyedMap<E, (CommandId, AppCommand)>,
    cached: Vec<(TrainID, LogicalBlockID)>,
) -> (r: Option<(AppDispatch, Option<CommandResponse>)>)
    ensures
        old(queue).in_flight() is Some && status == InFlightStatus::Pending ==> {
            &&& r is None
            &&& final(queue).waiting() == old(queue).waiting()
            &&& final(queue).in_flight() == old(queue).in_flight()
            &&& final(commands)@ == old(commands)@
        },
        !(old(queue).in_flight() is Some && status == InFlightStatus::Pending) ==> {
            &&& old(queue).waiting().len() == 0 ==> r is None && final(queue).waiting() == old(queue).waiting()
                && final(queue).in_flight() is None && final(commands)@ == old(commands)@
            &&& old(queue).waiting().len() > 0 ==> {
                let e = old(queue).waiting()[0];
                &&& final(queue).waiting() == old(queue).waiting().drop_first()
                &&& final(commands)@ == old(commands)@.remove(e)
                &&& !old(commands)@.contains_key(e) ==> r is None && final(queue).in_flight() is None
                &&& old(commands)@.contains_key(e) ==> {
                    let (id, command) = old(commands)@[e];
                    &&& final(queue).in_flight() == Some(e)
                    &&& r matches Some((d, response)) && dispatched(id, command, cached@, d) && answered_at_once(
                        id,
                        command,
                        response,
                    )
                }
            }
        },
{
    let entity = match queue.next_command(status) {
        Some(e) => e,
        None => return None,
    };
    let (id, command) = match commands.remove(&entity) {
        Some(entry) => entry,
        None => return None,
    };
    let answer_now = match &command {
        AppCommand::SetTrainPosition(_, _) => true,
        _ => false,
    };
    let dispatch = route_app_command(id, command, cached);
    queue.set_in_flight(entity);
    let response = if answer_now {
        Some(CommandResponse { command_id: id, result: Ok(()) })
    } else {
        None
    };
    Some((dispatch, response))
}

/// The answer a command gets at once: success for caching a train's
/// block, none for the others.
pub open spec fn answered_at_once(id: CommandId, command: AppCommand, response: Option<CommandResponse>) -> bool {
    if command is SetTrainPosition {
        response matches Some(resp) && resp.command_id == id && resp.result is Ok
    } else {
        response is None
    }
}

/// What `route_app_command` makes of a command.
pub open spec fn dispatched(id: CommandId, command: AppCommand, cached: Seq<(TrainID, LogicalBlockID)>, r: AppDispatch) -> bool {
    match command {
        AppCommand::SpawnLayout(layout) => r matches AppDispatch::SpawnLayout(env) && env.command_id == id
            && env.request.layout == layout,
        AppCommand::SetTrainPosition(train, block) => r == AppDispatch::SetTrainPosition(id, train, block),
        AppCommand::EnterControlMode(layout) => r matches AppDispatch::Forward(env) && env.command_id == id
            && (env.request matches SimulationCommand::EnterControlMode(req) && req.layout == layout
            && req.train_positions@ == cached),
        AppCommand::ExitControlMode => r matches AppDispatch::Forward(env) && env.command_id == id
            && env.request is ExitControlMode,
        AppCommand::Simulation(cmd) => r matches AppDispatch::Forward(env) && env.command_id == id
            && env.request == cmd,
    }
}

} // verus!
