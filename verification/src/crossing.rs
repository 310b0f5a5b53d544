//! Level crossings: a track whose barrier motors open and close as trains
//! pass.
use vstd::prelude::*;
use crate::hub::HubCommandMessage;
use crate::layout::EntityMap;
use crate::layout_primitives::{LayoutDeviceID, TrackID};
use crate::switch::{motor_moves, move_motors, sends_switch_commands, MotorMap};
use crate::switch_motor::MotorPosition;

verus! {

/// Whether a crossing's barriers are open or closed.
#[derive(Clone, Copy, Debug, PartialEq, Eq, Structural)]
pub enum CrossingPosition {
    Open,
    Closed,
}

pub open spec fn crossing_motor_position(p: CrossingPosition) -> MotorPosition {
    match p {
        CrossingPosition::Open => MotorPosition::Left,
        CrossingPosition::Closed => MotorPosition::Right,
    }
}

impl CrossingPosition {
    /// Open barriers stand left, closed ones right.
    pub fn to_motor_position(&self) -> (r: MotorPosition)
        ensures
            r == crossing_motor_position(*self),
    {
        match self {
            CrossingPosition::Open => MotorPosition::Left,
            CrossingPosition::Closed => MotorPosition::Right,
        }
    }
}

/// A level crossing on a track, with the motors of its barriers.
#[derive(Debug)]
pub struct LevelCrossing {
    pub id: TrackID,
    pub motors: Vec<Option<LayoutDeviceID>>,
}

impl LevelCrossing {
    pub fn new(id: TrackID) -> (r: Self)
        ensures
            r.id == id,
            r.motors@.len() == 0,
    {
        LevelCrossing { id, motors: Vec::new() }
    }
}

/// Registers a new crossing's entity.
pub fn spawn_crossing<E: Copy>(crossing: &LevelCrossing, entity: E, entity_map: &mut EntityMap<E>)
    requires
        !old(entity_map).crossings@.contains_key(crossing.id),
    ensures
        final(entity_map).crossings@ == old(entity_map).crossings@.insert(crossing.id, entity),
        EntityMap::unchanged_except(&*old(entity_map), &*final(entity_map), crate::layout::EntityTable::Crossings),
{
    entity_map.add_crossing(crossing.id, entity);
}

/// The target of each barrier motor for a crossing position, in motor order.
pub open spec fn crossing_targets(crossing: &LevelCrossing, position: CrossingPosition) -> Seq<(Option<LayoutDeviceID>, MotorPosition)> {
    crossing.motors@.map_values(|m: Option<LayoutDeviceID>| (m, crossing_motor_position(position)))
}

/// Setting a crossing: every barrier motor that does not yet stand where
/// the position needs it is moved there; with hub commands enabled, each
/// such move of a wired motor also sends the motor's switch command.
pub fn update_switch_position(
    crossing: &LevelCrossing,
    position: CrossingPosition,
    motors: &mut MotorMap,
    ble_commands_enabled: bool,
) -> (r: Vec<HubCommandMessage>)
    requires
        forall|i: int| 0 <= i < crossing.motors@.len() && (#[trigger] crossing.motors@[i]) is Some ==> old(motors)@.contains_key(
            crossing.motors@[i]->0,
        ),
    ensures
        final(motors)@ == motor_moves(crossing_targets(crossing, position), old(motors)@).0,
        ble_commands_enabled ==> sends_switch_commands(r@, motor_moves(crossing_targets(crossing, position), old(motors)@).1),
        !ble_commands_enabled ==> r@.len() == 0,
        final(motors)@.dom() == old(motors)@.dom(),
        forall|i: int| 0 <= i < crossing.motors@.len() && (#[trigger] crossing.motors@[i]) is Some
            ==> final(motors)@[crossing.motors@[i]->0].0.position == crossing_motor_position(position),
        forall|d: LayoutDeviceID| #[trigger] old(motors)@.contains_key(d) ==> final(motors)@[d].1 == old(motors)@[d].1,
        forall|d: LayoutDeviceID| #[trigger] old(motors)@.contains_key(d) && !crossing.motors@.contains(Some(d)) ==> final(motors)@[d] == old(motors)@[d],
{
    let target = position.to_motor_position();
    let mut targets: Vec<(Option<LayoutDeviceID>, MotorPosition)> = Vec::new();
    let mut i: usize = 0;
    while i < crossing.motors.len()
        invariant
            0 <= i <= crossing.motors@.len(),
            target == crossing_motor_position(position),
            targets@ == crossing_targets(crossing, position).take(i as int),
        decreases crossing.motors@.len() - i,
    {
        targets.push((crossing.motors[i], target));
        i = i + 1;
    }
    proof {
        assert(targets@ =~= crossing_targets(crossing, position));
    }
    let r = move_motors(&targets, motors, ble_commands_enabled);
    proof {
        assert forall|i: int| 0 <= i < crossing.motors@.len() && (#[trigger] crossing.motors@[i]) is Some
            implies motors@[crossing.motors@[i]->0].0.position == crossing_motor_position(position) by {
            assert(targets@[i] == (crossing.motors@[i], target));
            assert forall|k: int| 0 <= k < targets@.len() implies (#[trigger] targets@[k]).1 == target by {
                assert(targets@[k] == (crossing.motors@[k], target));
            }
        }
        assert forall|d: LayoutDeviceID| #[trigger] old(motors)@.contains_key(d) && !crossing.motors@.contains(Some(d)) implies motors@[d] == old(motors)@[d] by {
            assert forall|k: int| 0 <= k < targets@.len() implies (#[trigger] targets@[k]).0 != Some(d) by {
                assert(targets@[k].0 == crossing.motors@[k]);
            }
        }
    }
    r
}

} // verus!
