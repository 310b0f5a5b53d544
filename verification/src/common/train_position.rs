//! Where a train is within its queue of legs, and the state changes that a
//! marker hit, a leg advance and an append of new legs make to it.
use vstd::prelude::*;
use crate::common::layout_primitives::TrainID;
use crate::common::route::{legs_view, LegSpec, MarkerRole, RouteLeg, TrainLegs};

verus! {

/// The train's state within its current leg.
#[derive(Clone, Copy, Debug, PartialEq, Eq, Structural)]
pub enum TrainLegState {
    /// Fully entered the target block (or standing idle in a block).
    EnteredTarget,
    /// Exiting the start block.
    ExitingStart,
    /// Between the blocks.
    Outside,
    /// Entering the target block.
    EnteringTarget,
}

/// The leg state of a train standing at a marker with the given role.
pub open spec fn leg_state_of(role: Option<MarkerRole>) -> TrainLegState {
    match role {
        Some(MarkerRole::Exiting) => TrainLegState::ExitingStart,
        Some(MarkerRole::Entering) => TrainLegState::EnteringTarget,
        Some(MarkerRole::Entered) => TrainLegState::EnteredTarget,
        None => TrainLegState::Outside,
    }
}

impl TrainLegState {
    /// The leg state when the train is at a marker with the given role.
    pub fn from_marker_role(role: Option<MarkerRole>) -> (r: Self)
        ensures
            r == leg_state_of(role),
    {
        match role {
            Some(MarkerRole::Exiting) => TrainLegState::ExitingStart,
            Some(MarkerRole::Entering) => TrainLegState::EnteringTarget,
            Some(MarkerRole::Entered) => TrainLegState::EnteredTarget,
            None => TrainLegState::Outside,
        }
    }
}

/// Where the train is within its current leg (the first of its queue).
#[derive(Clone, Copy, Debug, PartialEq, Eq, Structural)]
pub struct TrainPosition {
    pub leg_state: TrainLegState,
    /// Index of the last marker the train passed within the current leg;
    /// 0 is the marker it started at.
    pub marker_index: usize,
}

/// A train hit a marker.
#[derive(Clone, Copy, Debug, PartialEq, Eq, Structural)]
pub struct TrainMarkerHit {
    pub train: TrainID,
}

impl TrainMarkerHit {
    pub fn new(train: TrainID) -> (r: Self)
        ensures
            r.train == train,
    {
        TrainMarkerHit { train }
    }
}

/// Move a train on to the next leg of its queue.
#[derive(Clone, Copy, Debug, PartialEq, Eq, Structural)]
pub struct AdvanceLeg {
    pub train: TrainID,
}

impl AdvanceLeg {
    pub fn new(train: TrainID) -> (r: Self)
        ensures
            r.train == train,
    {
        AdvanceLeg { train }
    }
}

/// The role of the `i`-th marker of a leg; none past its end.
pub open spec fn marker_role_at(leg: LegSpec, i: int) -> Option<MarkerRole> {
    if 0 <= i < leg.markers.len() {
        leg.markers[i].role
    } else {
        None
    }
}

/// The position of a train that has just started a leg.
pub open spec fn start_position(leg: LegSpec) -> TrainPosition {
    TrainPosition { leg_state: leg_state_of(marker_role_at(leg, 0)), marker_index: 0 }
}

/// The train has a current leg, and its state is the one of the last marker
/// it passed there.
pub open spec fn position_consistent(legs: Seq<LegSpec>, p: TrainPosition) -> bool {
    legs.len() > 0 && p.leg_state == leg_state_of(marker_role_at(legs[0], p.marker_index as int))
}

fn first_marker_role(leg: &RouteLeg) -> (r: Option<MarkerRole>)
    ensures
        r == marker_role_at(leg@, 0),
{
    if leg.markers.len() > 0 {
        leg.markers[0].role
    } else {
        None
    }
}

/// Appends legs to a train's queue. A train that receives its first legs
/// is placed at the start of the first of them; otherwise its position
/// stays.
pub fn handle_append_legs(legs: &mut TrainLegs, position: &mut Option<TrainPosition>, new_legs: Vec<RouteLeg>)
    requires
        old(legs)@.len() > 0 && new_legs@.len() > 0 ==> old(legs)@.last().target_block.block_id
            == new_legs@[0]@.start_block.block_id,
    ensures
        final(legs)@ == old(legs)@ + legs_view(new_legs@),
        old(legs)@.len() == 0 && new_legs@.len() > 0 ==> *final(position) == Some(start_position(final(legs)@[0])),
        !(old(legs)@.len() == 0 && new_legs@.len() > 0) ==> *final(position) == *old(position),
{
    let mut new_legs = new_legs;
    let ghost added = legs_view(new_legs@);
    let first_legs = legs.legs.len() == 0 && new_legs.len() > 0;
    legs.legs.append(&mut new_legs);
    proof {
        assert(legs_view(legs.legs@) =~= legs_view(old(legs).legs@) + added);
    }
    if first_legs {
        let role = first_marker_role(&legs.legs[0]);
        *position = Some(TrainPosition { leg_state: TrainLegState::from_marker_role(role), marker_index: 0 });
    }
}

/// A marker hit: the train passes the next marker of its current leg and
/// takes on that marker's state.
pub fn handle_train_marker_hit(legs: &TrainLegs, position: &mut TrainPosition)
    requires
        legs@.len() > 0,
        old(position).marker_index + 1 < legs@[0].markers.len(),
    ensures
        final(position).marker_index == old(position).marker_index + 1,
        final(position).leg_state == leg_state_of(legs@[0].markers[final(position).marker_index as int].role),
        position_consistent(legs@, *final(position)),
{
    let leg = &legs.legs[0];
    assert(leg@ == legs@[0]);
    let count = leg.markers.len();
    let index = position.marker_index + 1;
    position.marker_index = index;
    position.leg_state = TrainLegState::from_marker_role(leg.markers[index].role);
}

/// Leg advance: the current leg is dropped and the train starts the next one.
pub fn handle_advance_leg(legs: &mut TrainLegs, position: &mut TrainPosition)
    requires
        old(legs)@.len() >= 2,
        old(legs)@[1].markers.len() > 0,
    ensures
        final(legs)@ == old(legs)@.drop_first(),
        *final(position) == start_position(final(legs)@[0]),
        position_consistent(final(legs)@, *final(position)),
{
    let role = legs.legs[1].markers[0].role;
    assert(legs.legs@[1]@ == old(legs)@[1]);
    let _current = legs.legs.remove(0);
    proof {
        assert(legs_view(legs.legs@) =~= legs_view(old(legs).legs@).drop_first());
    }
    position.leg_state = TrainLegState::from_marker_role(role);
    position.marker_index = 0;
}

/// Whether a train should move on: it has fully entered its target block and
/// another leg is queued.
pub fn advance_leg_logic(position: &TrainPosition, legs: &TrainLegs) -> (r: bool)
    ensures
        r == (position.leg_state == TrainLegState::EnteredTarget && legs@.len() > 1),
{
    position.leg_state == TrainLegState::EnteredTarget && legs.legs.len() > 1
}

/// Every change of a train's leg queue keeps its position consistent with
/// the queue: appending legs, passing a marker and advancing to the next leg.
pub proof fn lemma_append_keeps_position_consistent(old_legs: Seq<LegSpec>, added: Seq<LegSpec>, p: TrainPosition)
    requires
        position_consistent(old_legs, p),
    ensures
        position_consistent(old_legs + added, p),
{
    assert((old_legs + added)[0] == old_legs[0]);
}

/// A train that starts a leg is consistently placed in it.
pub proof fn lemma_start_position_consistent(legs: Seq<LegSpec>)
    requires
        legs.len() > 0,
    ensures
        position_consistent(legs, start_position(legs[0])),
{
}

} // verus!
