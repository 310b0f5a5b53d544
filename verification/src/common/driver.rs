//! What a train driver gets of a route leg: the facing and the markers, with
//! their colours, roles and places along the leg.
use vstd::prelude::*;
use crate::common::layout_primitives::{Facing, MarkerColor, TrainID};
use crate::common::route::{MarkerRole, RouteLeg, RouteLegMarker};
use crate::common::train_position::TrainMarkerHit;

verus! {

/// A marker as the driver sees it. Its place along the leg is
/// `path_index / path_span`.
#[derive(Clone, Copy, Debug, PartialEq, Eq, Structural)]
pub struct DriverMarker {
    pub color: MarkerColor,
    pub role: Option<MarkerRole>,
    pub path_index: usize,
    pub path_span: usize,
}

/// A leg as the driver sees it.
#[derive(Debug)]
pub struct DriverLeg {
    pub facing: Facing,
    pub markers: Vec<DriverMarker>,
}

pub open spec fn driver_marker_of(m: RouteLegMarker) -> DriverMarker {
    DriverMarker { color: m.color, role: m.role, path_index: m.path_index, path_span: m.path_span }
}

impl DriverMarker {
    pub fn from_route_marker(m: &RouteLegMarker) -> (r: Self)
        ensures
            r == driver_marker_of(*m),
    {
        DriverMarker { color: m.color, role: m.role, path_index: m.path_index, path_span: m.path_span }
    }
}

impl DriverLeg {
    /// The driver's view of a route leg: its facing and its markers in order.
    pub fn from_route_leg(leg: &RouteLeg) -> (r: Self)
        ensures
            r.facing == leg.facing,
            r.markers@ == leg.markers@.map_values(|m: RouteLegMarker| driver_marker_of(m)),
    {
        let mut markers: Vec<DriverMarker> = Vec::new();
        let mut i: usize = 0;
        while i < leg.markers.len()
            invariant
                0 <= i <= leg.markers@.len(),
                markers@ == leg.markers@.subrange(0, i as int).map_values(|m: RouteLegMarker| driver_marker_of(m)),
            decreases leg.markers@.len() - i,
        {
            markers.push(DriverMarker::from_route_marker(&leg.markers[i]));
            proof {
                assert(leg.markers@.subrange(0, i + 1).map_values(|m: RouteLegMarker| driver_marker_of(m)) =~= leg.markers@.subrange(
                    0,
                    i as int,
                ).map_values(|m: RouteLegMarker| driver_marker_of(m)).push(driver_marker_of(leg.markers@[i as int])));
            }
            i = i + 1;
        }
        proof {
            assert(leg.markers@.subrange(0, leg.markers@.len() as int) =~= leg.markers@);
        }
        DriverLeg { facing: leg.facing, markers }
    }
}

/// Queue a driver leg on the driver of a train.
#[derive(Debug)]
pub struct QueueDriverLeg {
    pub train: TrainID,
    pub leg: DriverLeg,
}

impl QueueDriverLeg {
    pub fn new(train: TrainID, leg: DriverLeg) -> (r: Self)
        ensures
            r.train == train,
            r.leg == leg,
    {
        QueueDriverLeg { train, leg }
    }
}

/// A driver reports that its train crossed a marker.
#[derive(Clone, Copy, Debug, PartialEq, Eq, Structural)]
pub struct DriverMarkerHit {
    pub train: TrainID,
}

impl DriverMarkerHit {
    pub fn new(train: TrainID) -> (r: Self)
        ensures
            r.train == train,
    {
        DriverMarkerHit { train }
    }

    /// The simulation's marker hit for this report: same train.
    pub fn to_train_marker_hit(&self) -> (r: TrainMarkerHit)
        ensures
            r.train == self.train,
    {
        TrainMarkerHit::new(self.train)
    }
}

/// The driver request for a leg that has been locked for a train.
pub fn dispatch_locked_leg(train: TrainID, leg: &RouteLeg) -> (r: QueueDriverLeg)
    ensures
        r.train == train,
        r.leg.facing == leg.facing,
        r.leg.markers@ == leg.markers@.map_values(|m: RouteLegMarker| driver_marker_of(m)),
{
    QueueDriverLeg::new(train, DriverLeg::from_route_leg(leg))
}

} // verus!
