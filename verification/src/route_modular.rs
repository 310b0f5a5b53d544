//! Routes kept as separate legs, each with its markers, and the decisions a
//! train makes on them: when it has entered or completed a leg, when it
//! moves on to the next, and what it is told to do.
use vstd::prelude::*;
use crate::layout_primitives::{Facing, LogicalTrackID};
use crate::marker::MarkerSpeed;
use crate::route::RouteMarkerData;
use crate::section::LogicalSection;

verus! {

/// The speed a train runs at.
#[derive(Clone, Copy, Debug, PartialEq, Eq, Hash, Structural)]
pub enum TrainSpeed {
    Slow,
    Cruise,
    Fast,
}

impl Default for TrainSpeed {
    fn default() -> (r: Self)
        ensures
            r == TrainSpeed::Cruise,
    {
        TrainSpeed::Cruise
    }
}

pub open spec fn train_speed_code(s: TrainSpeed) -> u8 {
    match s {
        TrainSpeed::Slow => 2,
        TrainSpeed::Cruise => 3,
        TrainSpeed::Fast => 1,
    }
}

impl TrainSpeed {
    /// The speed as a train hub reads it.
    pub fn as_train_u8(&self) -> (r: u8)
        ensures
            r == train_speed_code(*self),
    {
        match self {
            TrainSpeed::Slow => 2,
            TrainSpeed::Cruise => 3,
            TrainSpeed::Fast => 1,
        }
    }
}

/// The train speed a marker asks for.
pub open spec fn marker_train_speed(s: MarkerSpeed) -> TrainSpeed {
    match s {
        MarkerSpeed::Slow => TrainSpeed::Slow,
        MarkerSpeed::Cruise => TrainSpeed::Cruise,
        MarkerSpeed::Fast => TrainSpeed::Fast,
    }
}

fn train_speed_of(s: MarkerSpeed) -> (r: TrainSpeed)
    ensures
        r == marker_train_speed(s),
{
    match s {
        MarkerSpeed::Slow => TrainSpeed::Slow,
        MarkerSpeed::Cruise => TrainSpeed::Cruise,
        MarkerSpeed::Fast => TrainSpeed::Fast,
    }
}

/// What a train is told to do.
#[derive(Clone, Copy, Debug, PartialEq, Eq, Structural)]
pub enum TrainState {
    Stop,
    Run { facing: Facing, speed: TrainSpeed },
}

impl Default for TrainState {
    fn default() -> (r: Self)
        ensures
            r == TrainState::Stop,
    {
        TrainState::Stop
    }
}

/// The markers along one leg.
#[derive(Debug)]
pub struct RouteLegMarkers {
    pub markers: Vec<RouteMarkerData>,
}

/// `a - b`, or zero below zero.
pub open spec fn saturating_sub(a: int, b: int) -> int {
    if a >= b {
        a - b
    } else {
        0
    }
}

impl RouteLegMarkers {
    /// The speed the marker asks for.
    pub fn get_speed(&self, index: usize) -> (r: TrainSpeed)
        requires
            index < self.markers@.len(),
        ensures
            r == marker_train_speed(self.markers@[index as int].speed),
    {
        train_speed_of(self.markers[index].speed)
    }

    /// Past the marker before the last: the train is in the target block.
    pub fn has_entered(&self, index: usize) -> (r: bool)
        ensures
            r == (index >= saturating_sub(self.markers@.len() as int, 2)),
    {
        index >= self.markers.len().saturating_sub(2)
    }

    /// Past the first marker: the train has left its start block.
    pub fn has_exited(&self, index: usize) -> (r: bool)
        ensures
            r == (index >= 1),
    {
        index >= 1
    }

    /// At the last marker.
    pub fn has_completed(&self, index: usize) -> (r: bool)
        ensures
            r == (index >= saturating_sub(self.markers@.len() as int, 1)),
    {
        index >= self.markers.len().saturating_sub(1)
    }
}

/// Where a train is on its route: the leg, the last marker passed on it,
/// and how many legs are free.
#[derive(Debug, Clone, Copy, PartialEq, Eq, Structural)]
pub struct RouteState {
    pub current_leg_index: usize,
    pub prev_marker_index: usize,
    pub legs_free: usize,
}

impl RouteState {
    /// Whether a leg follows the current one.
    pub fn can_pass(&self, num_legs: usize) -> (r: bool)
        requires
            num_legs >= 1,
        ensures
            r == (self.current_leg_index < num_legs - 1),
    {
        self.current_leg_index < num_legs - 1
    }
}

/// A leg: the path from one block's in-marker to the next.
#[derive(Debug)]
pub struct ModularRouteLeg {
    pub section: LogicalSection,
}

pub open spec fn is_turn(tracks: Seq<LogicalTrackID>) -> bool {
    tracks[0].facing != tracks.last().facing
}

impl ModularRouteLeg {
    /// Whether the train reverses on the leg: it ends facing otherwise than
    /// it starts.
    pub fn is_turn(&self) -> (r: bool)
        requires
            self.section.tracks@.len() > 0,
        ensures
            r == is_turn(self.section.tracks@),
    {
        let n = self.section.tracks.len();
        self.section.tracks[0].facing != self.section.tracks[n - 1].facing
    }
}

/// The state a train is told on its current leg: stop once it has
/// completed a leg with no leg after it; otherwise run facing as the leg
/// ends, slowly once it has entered a block it stops at or turns after,
/// else at the speed of the last marker passed.
pub open spec fn modular_train_state(
    markers: Seq<RouteMarkerData>,
    prev: int,
    will_stop: bool,
    will_turn: bool,
    facing: Facing,
) -> TrainState {
    if prev >= saturating_sub(markers.len() as int, 1) && will_stop {
        TrainState::Stop
    } else {
        TrainState::Run {
            facing,
            speed: if (will_turn || will_stop) && prev >= saturating_sub(markers.len() as int, 2) {
                TrainSpeed::Slow
            } else {
                marker_train_speed(markers[prev].speed)
            },
        }
    }
}

/// What the train on a leg is told, given the legs of its route.
pub fn update_train_state(
    current_leg: &ModularRouteLeg,
    leg_markers: &RouteLegMarkers,
    route_state: &RouteState,
    num_legs: usize,
    next_leg: Option<&ModularRouteLeg>,
) -> (r: TrainState)
    requires
        num_legs >= 1,
        current_leg.section.tracks@.len() > 0,
        route_state.prev_marker_index < leg_markers.markers@.len(),
        next_leg matches Some(l) ==> l.section.tracks@.len() > 0,
    ensures
        r == modular_train_state(
            leg_markers.markers@,
            route_state.prev_marker_index as int,
            !(route_state.current_leg_index < num_legs - 1),
            next_leg matches Some(l) && is_turn(l.section.tracks@),
            current_leg.section.tracks@.last().facing,
        ),
{
    let will_stop = !route_state.can_pass(num_legs);
    if leg_markers.has_completed(route_state.prev_marker_index) && will_stop {
        return TrainState::Stop;
    }
    let will_turn = match next_leg {
        Some(l) => l.is_turn(),
        None => false,
    };
    let mut speed = leg_markers.get_speed(route_state.prev_marker_index);
    if (will_turn || will_stop) && leg_markers.has_entered(route_state.prev_marker_index) {
        speed = TrainSpeed::Slow;
    }
    let n = current_leg.section.tracks.len();
    let facing = current_leg.section.tracks[n - 1].facing;
    TrainState::Run { speed, facing }
}

/// Moves the train on to the next leg once it has completed the current
/// one and a leg follows; returns whether it did.
pub fn advance_route_leg(leg_markers: &RouteLegMarkers, route_state: &mut RouteState, num_legs: usize) -> (r: bool)
    requires
        num_legs >= 1,
    ensures
        r == (old(route_state).prev_marker_index >= saturating_sub(leg_markers.markers@.len() as int, 1)
            && old(route_state).current_leg_index < num_legs - 1),
        r ==> *final(route_state) == (RouteState {
            current_leg_index: (old(route_state).current_leg_index + 1) as usize,
            prev_marker_index: 0,
            legs_free: old(route_state).legs_free,
        }),
        !r ==> *final(route_state) == *old(route_state),
{
    if leg_markers.has_completed(route_state.prev_marker_index) && route_state.can_pass(num_legs) {
        route_state.current_leg_index = route_state.current_leg_index + 1;
        route_state.prev_marker_index = 0;
        true
    } else {
        false
    }
}

/// Moves the train past the next marker of its leg once it has reached it
/// (`reached`: its position is at or beyond the marker's); returns the
/// index of the marker passed. A completed leg has no next marker.
pub fn advance_marker_index(leg_markers: &RouteLegMarkers, route_state: &mut RouteState, reached: bool) -> (r: Option<usize>)
    ensures
        old(route_state).prev_marker_index >= saturating_sub(leg_markers.markers@.len() as int, 1) || !reached ==> r is None
            && *final(route_state) == *old(route_state),
        old(route_state).prev_marker_index < saturating_sub(leg_markers.markers@.len() as int, 1) && reached ==> r == Some(
            (old(route_state).prev_marker_index + 1) as usize,
        ) && *final(route_state) == (RouteState { prev_marker_index: (old(route_state).prev_marker_index + 1) as usize, ..*old(route_state) }),
{
    if leg_markers.has_completed(route_state.prev_marker_index) {
        return None;
    }
    let n = leg_markers.markers.len();
    assert(route_state.prev_marker_index + 1 < n);
    let next_index = route_state.prev_marker_index + 1;
    if reached {
        route_state.prev_marker_index = next_index;
        Some(next_index)
    } else {
        None
    }
}

} // verus!
