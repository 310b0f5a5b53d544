//! Commands from the client to the simulation: identifiers, responses, the
//! registry that matches responses to commands, and the queue that runs
//! simulation commands one at a time.
use vstd::prelude::*;
use std::collections::VecDeque;
use crate::common::layout::Layout;
use crate::common::layout_primitives::{LogicalBlockID, TrainID};
use crate::common::simulation::SimulationState;
use crate::keyed::{Key, KeyedMap};

verus! {

/// Identifier that matches a request with its response.
#[derive(Clone, Copy, Debug, PartialEq, Eq, Hash, Structural)]
pub struct CommandId(pub u64);

impl Key for CommandId {
    fn same(&self, other: &Self) -> (r: bool) {
        self.0 == other.0
    }
}

/// Where a command stands.
#[derive(Clone, Debug)]
pub enum CommandState {
    Pending,
    Completed,
    Failed(String),
}

/// Marks a command whose request has been handed to the simulation.
#[derive(Clone, Copy, Debug)]
pub struct Dispatched;

/// The simulation's answer to a command.
#[derive(Debug)]
pub struct CommandResponse {
    pub command_id: CommandId,
    pub result: Result<(), String>,
}

/// A request together with the identifier of its command.
#[derive(Debug)]
pub struct CommandEnvelope<T> {
    pub command_id: CommandId,
    pub request: T,
}

/// The state a command reaches with a response: completed on success,
/// failed with the reason otherwise.
pub fn command_state_for(result: &Result<(), String>) -> (r: CommandState)
    ensures
        match result {
            Ok(()) => r is Completed,
            Err(reason) => r matches CommandState::Failed(s) && s@ == reason@,
        },
{
    match result {
        Ok(()) => CommandState::Completed,
        Err(reason) => CommandState::Failed(reason.clone()),
    }
}

/// Registry from command identifiers to the entities that track them, and
/// the counter that hands out fresh identifiers.
pub struct CommandRegistry<E> {
    map: KeyedMap<CommandId, E>,
    next_id: u64,
}

impl<E: Copy> CommandRegistry<E> {
    pub closed spec fn view(&self) -> Map<CommandId, E> {
        self.map@
    }

    /// The identifier the registry hands out next.
    pub closed spec fn counter(&self) -> u64 {
        self.next_id
    }

    pub fn new() -> (r: Self)
        ensures
            r@ == Map::<CommandId, E>::empty(),
            r.counter() == 0,
    {
        CommandRegistry { map: KeyedMap::new(), next_id: 0 }
    }

    /// Hands out a fresh identifier.
    pub fn next_id(&mut self) -> (r: CommandId)
        requires
            old(self).counter() < u64::MAX,
        ensures
            r == CommandId(old(self).counter()),
            final(self).counter() == old(self).counter() + 1,
            final(self)@ == old(self)@,
    {
        let id = CommandId(self.next_id);
        self.next_id = self.next_id + 1;
        id
    }

    pub fn insert(&mut self, id: CommandId, entity: E)
        ensures
            final(self)@ == old(self)@.insert(id, entity),
            final(self).counter() == old(self).counter(),
    {
        self.map.insert(id, entity);
    }

    pub fn get(&self, id: &CommandId) -> (r: Option<E>)
        ensures
            r == (if self@.contains_key(*id) { Some(self@[*id]) } else { None }),
    {
        match self.map.get(id) {
            Some(e) => Some(*e),
            None => None,
        }
    }

    pub fn remove(&mut self, id: &CommandId) -> (r: Option<E>)
        ensures
            final(self)@ == old(self)@.remove(*id),
            final(self).counter() == old(self).counter(),
            r == (if old(self)@.contains_key(*id) { Some(old(self)@[*id]) } else { None }),
    {
        self.map.remove(id)
    }

    /// Registers the entity of a new command under a fresh identifier.
    pub fn issue(&mut self, entity: E) -> (r: CommandId)
        requires
            old(self).counter() < u64::MAX,
        ensures
            r == CommandId(old(self).counter()),
            final(self).counter() == old(self).counter() + 1,
            final(self)@ == old(self)@.insert(r, entity),
    {
        let id = self.next_id();
        self.insert(id, entity);
        id
    }
}

/// Identifiers handed out one after another differ: the counter only grows.
pub proof fn lemma_issued_ids_differ(first: CommandId, second: CommandId, c0: u64, c1: u64)
    requires
        first == CommandId(c0),
        second == CommandId(c1),
        c0 < c1,
    ensures
        first != second,
{
}

/// What the simulation is asked to do.
pub enum SimulationCommand {
    EnterControlMode(EnterControlModeRequest),
    SendTrainToBlock(SendTrainToBlockRequest),
    ExitControlMode(ExitControlModeRequest),
}

/// Enter control mode with a layout and the trains' cached blocks.
pub struct EnterControlModeRequest {
    pub layout: Layout,
    pub train_positions: Vec<(TrainID, LogicalBlockID)>,
}

/// Send a train to a block.
#[derive(Clone, Copy, Debug, PartialEq, Eq, Structural)]
pub struct SendTrainToBlockRequest {
    pub train: TrainID,
    pub target_block: LogicalBlockID,
}

/// Leave control mode.
#[derive(Clone, Copy, Debug, PartialEq, Eq, Structural)]
pub struct ExitControlModeRequest;

pub open spec fn envelope_ids(q: Seq<CommandEnvelope<SimulationCommand>>) -> Seq<CommandId> {
    q.map_values(|e: CommandEnvelope<SimulationCommand>| e.command_id)
}

/// Whether the simulation takes on commands in a state (not while entering).
pub open spec fn dispatches_in(state: SimulationState) -> bool {
    state == SimulationState::Idle || state == SimulationState::Running
}

/// Whether one of the responses answers command `id`.
fn answers(responses: &Vec<CommandResponse>, id: CommandId) -> (r: bool)
    ensures
        r == exists|i: int| 0 <= i < responses@.len() && (#[trigger] responses@[i]).command_id == id,
{
    let mut i: usize = 0;
    while i < responses.len()
        invariant
            0 <= i <= responses@.len(),
            forall|j: int| 0 <= j < i ==> (#[trigger] responses@[j]).command_id != id,
        decreases responses@.len() - i,
    {
        if responses[i].command_id.0 == id.0 {
            return true;
        }
        i = i + 1;
    }
    false
}

/// Sequential command queue: commands run one at a time, each waiting for
/// the response to the one before.
pub struct SimulationCommandQueue {
    queue: VecDeque<CommandEnvelope<SimulationCommand>>,
    in_flight: Option<CommandId>,
}

impl SimulationCommandQueue {
    /// The waiting commands, oldest first.
    pub closed spec fn waiting(&self) -> Seq<CommandEnvelope<SimulationCommand>> {
        self.queue@
    }

    /// The command being handled, if any.
    pub closed spec fn in_flight(&self) -> Option<CommandId> {
        self.in_flight
    }

    pub fn new() -> (r: Self)
        ensures
            r.waiting().len() == 0,
            r.in_flight() is None,
    {
        SimulationCommandQueue { queue: VecDeque::new(), in_flight: None }
    }

    /// Takes in a command at the back of the queue.
    pub fn intake(&mut self, envelope: CommandEnvelope<SimulationCommand>)
        ensures
            final(self).waiting() == old(self).waiting().push(envelope),
            final(self).in_flight() == old(self).in_flight(),
    {
        self.queue.push_back(envelope);
    }

    /// Clears the command in flight when one of the responses answers it.
    pub fn clear_completed(&mut self, responses: &Vec<CommandResponse>)
        ensures
            final(self).waiting() == old(self).waiting(),
            final(self).in_flight() == (match old(self).in_flight() {
                Some(id) => if exists|i: int| 0 <= i < responses@.len() && (#[trigger] responses@[i]).command_id == id {
                    None
                } else {
                    Some(id)
                },
                None => None,
            }),
    {
        if let Some(id) = self.in_flight {
            if answers(responses, id) {
                self.in_flight = None;
            }
        }
    }

    /// Starts the next command: in a state that takes commands, with none in
    /// flight, the oldest waiting command leaves the queue and is in flight.
    pub fn dispatch(&mut self, state: SimulationState) -> (r: Option<CommandEnvelope<SimulationCommand>>)
        ensures
            (!dispatches_in(state) || old(self).in_flight() is Some || old(self).waiting().len() == 0) ==> {
                &&& r is None
                &&& final(self).waiting() == old(self).waiting()
                &&& final(self).in_flight() == old(self).in_flight()
            },
            (dispatches_in(state) && old(self).in_flight() is None && old(self).waiting().len() > 0) ==> {
                &&& r == Some(old(self).waiting()[0])
                &&& final(self).waiting() == old(self).waiting().drop_first()
                &&& final(self).in_flight() == Some(old(self).waiting()[0].command_id)
            },
    {
        let takes = match state {
            SimulationState::Idle => true,
            SimulationState::Running => true,
            SimulationState::Entering => false,
        };
        if !takes || self.in_flight.is_some() {
            return None;
        }
        match self.queue.pop_front() {
            Some(envelope) => {
                self.in_flight = Some(envelope.command_id);
                Some(envelope)
            },
            None => None,
        }
    }
}

} // verus!
