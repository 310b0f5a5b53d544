use brickrail::crossing::{update_switch_position as set_crossing, CrossingPosition, LevelCrossing};
use brickrail::hub::{HubCommand, HubInput, LayoutDevice};
use brickrail::keyed::KeyedMap;
use brickrail::layout_primitives::{
    CellID, DirectedTrackID, HubID, HubPort, HubType, LayoutDeviceID, LayoutDeviceType, Orientation,
    SwitchPosition, TrackDirection, TrackID,
};
use brickrail::switch::{plan_switch_turns, update_switch_position, MotorMap, Switch, SwitchTurnsAction};
use brickrail::switch_motor::{MotorPosition, PulseMotor};

fn motor(id: usize, wired: bool) -> (LayoutDeviceID, (PulseMotor, LayoutDevice)) {
    let device_id = LayoutDeviceID::new(id, LayoutDeviceType::PulseMotor);
    let mut device = LayoutDevice::from_id(device_id);
    if wired {
        device.hub_id = Some(HubID::new(0, HubType::Layout));
        device.port = Some(HubPort::B);
    }
    (device_id, (PulseMotor::default(), device))
}

fn motors(entries: Vec<(LayoutDeviceID, (PulseMotor, LayoutDevice))>) -> MotorMap {
    let mut map: MotorMap = KeyedMap::new();
    for (id, entry) in entries {
        map.insert(id, entry);
    }
    map
}

#[test]
fn closing_a_crossing_moves_its_barriers_once() {
    let (a, ea) = motor(0, true);
    let (b, eb) = motor(1, false);
    let mut map = motors(vec![(a, ea), (b, eb)]);
    let mut crossing = LevelCrossing::new(TrackID::new(CellID::new(0, 0, 0), Orientation::NS));
    crossing.motors = vec![Some(a), None, Some(b)];

    let commands = set_crossing(&crossing, CrossingPosition::Closed, &mut map, true);
    assert_eq!(map.get(&a).unwrap().0.position, MotorPosition::Right);
    assert_eq!(map.get(&b).unwrap().0.position, MotorPosition::Right);
    // only the wired motor gets a command
    assert_eq!(commands.len(), 1);
    assert_eq!(commands[0].hub_id, HubID::new(0, HubType::Layout));
    match &commands[0].command {
        HubCommand::QueueInput(HubInput::Rpc { name, args }) => {
            assert_eq!(name, "device_execute");
            assert_eq!(args, &vec![1, 0, 1]);
        }
        other => panic!("unexpected {:?}", other),
    }
    // a second call finds everything in place
    assert!(set_crossing(&crossing, CrossingPosition::Closed, &mut map, true).is_empty());
    // without hub commands, the motors still move
    assert!(set_crossing(&crossing, CrossingPosition::Open, &mut map, false).is_empty());
    assert_eq!(map.get(&a).unwrap().0.position, MotorPosition::Left);
}

#[test]
fn switch_position_sets_its_motor() {
    let track = DirectedTrackID::new(TrackID::new(CellID::new(0, 0, 0), Orientation::EW), TrackDirection::First);
    let mut switch = Switch::new(track, vec![SwitchPosition::Left, SwitchPosition::Center]);
    let (a, ea) = motor(4, true);
    switch.motors = vec![Some(a)];
    let mut map = motors(vec![(a, ea)]);
    let commands = update_switch_position(&switch, &SwitchPosition::Center, &mut map, true);
    assert_eq!(commands.len(), 1);
    let moved = map.get(&a).unwrap().0.position;
    assert!(moved != MotorPosition::Unknown);
    assert!(update_switch_position(&switch, &SwitchPosition::Center, &mut map, true).is_empty());
}

#[test]
fn switch_turns_are_planned() {
    let positions = vec![SwitchPosition::Left, SwitchPosition::Right];
    let drawn = vec![SwitchPosition::Center, SwitchPosition::Left];
    let plan = plan_switch_turns(&positions, true, &drawn);
    assert_eq!(plan.action, SwitchTurnsAction::SetPositions);
    assert_eq!(plan.remove, vec![0]);
    assert_eq!(plan.add, vec![SwitchPosition::Right]);

    let plan = plan_switch_turns(&positions, false, &vec![]);
    assert_eq!(plan.action, SwitchTurnsAction::Spawn);
    assert!(plan.remove.is_empty() && plan.add.is_empty());

    let single = vec![SwitchPosition::Center];
    let plan = plan_switch_turns(&single, true, &drawn);
    assert_eq!(plan.action, SwitchTurnsAction::Despawn);
    assert_eq!(plan.remove, vec![1]);
    assert_eq!(plan_switch_turns(&single, false, &vec![]).action, SwitchTurnsAction::Nothing);
}
