//! The events that change the simulation's state, as one type.
use vstd::prelude::*;
use crate::common::route::AppendLegs;
use crate::common::simulation::PlaceTrainAtBlock;
use crate::common::train_position::{AdvanceLeg, TrainMarkerHit};

verus! {

/// A change of the simulation's state.
#[derive(Debug)]
pub enum SimulationEvent {
    AppendLegs(AppendLegs),
    TrainMarkerHit(TrainMarkerHit),
    AdvanceLeg(AdvanceLeg),
    PlaceTrainAtBlock(PlaceTrainAtBlock),
}

/// Events collected for the client, in the order they were produced.
#[derive(Debug)]
pub struct SimulationEventQueue(pub Vec<SimulationEvent>);

impl SimulationEventQueue {
    pub fn new() -> (r: Self)
        ensures
            r.0@.len() == 0,
    {
        SimulationEventQueue(Vec::new())
    }

    pub fn push(&mut self, event: SimulationEvent)
        ensures
            final(self).0@ == old(self).0@.push(event),
    {
        self.0.push(event);
    }
}

} // verus!
