use brickrail::keyed::KeyedMap;
use brickrail::layout::{SwitchMap, TrackLocks};
use brickrail::layout_primitives::{
    CellID, DirectedTrackID, Facing, LayoutDeviceID, LayoutDeviceType, LogicalTrackID, Orientation, SwitchPosition,
    TrackDirection, TrackID, TrainID,
};
use brickrail::switch::Switch;
use brickrail::section::LogicalSection;

fn logical(x: i32) -> LogicalTrackID {
    let track = TrackID::new(CellID::new(x, 0, 0), Orientation::EW);
    LogicalTrackID { dirtrack: DirectedTrackID::new(track, TrackDirection::First), facing: Facing::Forward }
}

#[test]
fn a_locked_section_belongs_to_its_train() {
    let section = LogicalSection { tracks: vec![logical(0), logical(1)] };
    let switches: SwitchMap = KeyedMap::new();
    let mut locks = TrackLocks::new();
    let a = TrainID::new(0);
    let b = TrainID::new(1);

    assert!(locks.can_lock(&a, &section, &switches));
    let events = locks.lock(&a, &section, &switches);
    assert!(events.is_empty());
    assert_eq!(locks.locked_tracks.len(), 2);

    // the holder may lock it again, nobody else may
    assert!(locks.can_lock(&a, &section, &switches));
    assert!(!locks.can_lock(&b, &section, &switches));
    // a crossing track in the same cell collides with a held one
    let crossing = TrackID::new(CellID::new(1, 0, 0), Orientation::NS);
    assert!(!locks.can_lock_track(&b, &crossing));
    assert!(locks.can_lock_track(&b, &TrackID::new(CellID::new(2, 0, 0), Orientation::NS)));

    locks.unlock_all(&a);
    assert_eq!(locks.locked_tracks.len(), 0);
    assert!(locks.can_lock(&b, &section, &switches));
}

#[test]
fn unlocking_one_train_keeps_the_others() {
    let switches: SwitchMap = KeyedMap::new();
    let mut locks = TrackLocks::new();
    let a = TrainID::new(0);
    let b = TrainID::new(1);
    locks.lock(&a, &LogicalSection { tracks: vec![logical(0)] }, &switches);
    locks.lock(&b, &LogicalSection { tracks: vec![logical(5)] }, &switches);
    locks.unlock_all(&a);
    assert_eq!(locks.locked_tracks.len(), 1);
    assert_eq!(locks.locked_tracks.get(&logical(5).dirtrack.track), Some(&b));
}

#[test]
fn locking_holds_the_switch_motors_the_section_needs() {
    let from = logical(0);
    let to = logical(1);
    let needed = to.dirtrack.get_switch_position();
    let other = if needed == SwitchPosition::Left { SwitchPosition::Right } else { SwitchPosition::Left };
    let mut switch = Switch::new(from.dirtrack, vec![needed, other]);
    let motor = LayoutDeviceID::new(0, LayoutDeviceType::PulseMotor);
    switch.motors = vec![Some(motor)];
    let mut switches: SwitchMap = KeyedMap::new();
    switches.insert(from.dirtrack, switch);

    let mut locks = TrackLocks::new();
    let train = TrainID::new(3);
    let section = LogicalSection { tracks: vec![from, to] };
    assert!(locks.can_lock(&train, &section, &switches));
    let settings = locks.lock(&train, &section, &switches);
    assert_eq!(settings.len(), 1);
    assert_eq!(settings[0].id, from.dirtrack);
    assert_eq!(settings[0].position, needed);
    let held = locks.locked_switch_motors.get(&motor).unwrap();
    assert_eq!(held.0, train);
}
