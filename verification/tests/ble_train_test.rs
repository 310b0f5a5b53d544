use brickrail::ble_train::{BLETrain, TrainHub};
use brickrail::hub::{HubCommand, HubInput};
use brickrail::layout_primitives::{Facing, HubID, HubPort, HubType, TrainID};
use brickrail::marker::MarkerSpeed;

fn rpc(cmd: &HubCommand) -> (String, Vec<u8>) {
    match cmd {
        HubCommand::QueueInput(HubInput::Rpc { name, args }) => (name.clone(), args.clone()),
        other => panic!("unexpected {:?}", other),
    }
}

fn train_with_hubs() -> BLETrain {
    let mut train = BLETrain::new(TrainID::new(0));
    train.master_hub.hub_id = Some(HubID::new(0, HubType::Train));
    train.add_puppet();
    train.puppets[0].hub_id = Some(HubID::new(1, HubType::Train));
    train
}

#[test]
fn puppets_are_added_and_removed() {
    let mut train = BLETrain::new(TrainID::new(0));
    train.add_puppet();
    train.add_puppet();
    assert_eq!(train.puppets.len(), 2);
    assert!(train.puppets[1].hub_id.is_none());
    train.puppets[0].hub_id = Some(HubID::new(4, HubType::Train));
    train.remove_puppet(1);
    assert_eq!(train.puppets.len(), 1);
    assert_eq!(train.puppets[0].hub_id, Some(HubID::new(4, HubType::Train)));
    assert_eq!(train.slow_speed, 40);

    let mut hub = TrainHub::default();
    hub.inverted_ports = vec![HubPort::A, HubPort::C];
    hub.remove_inverted_port(0);
    assert_eq!(hub.inverted_ports, vec![HubPort::C]);
}

#[test]
fn run_and_stop_go_to_every_hub() {
    let train = train_with_hubs();
    assert_eq!(train.iter_all_hubs(), vec![HubID::new(0, HubType::Train), HubID::new(1, HubType::Train)]);
    let run = train.run_command(Facing::Backward, MarkerSpeed::Fast);
    assert_eq!(run.hub_events.len(), 2);
    let (name, args) = rpc(&run.hub_events[1].command);
    assert_eq!(name, "run");
    assert_eq!(args, vec![(1 << 4) | 1]);
    assert_eq!(run.hub_events[1].hub_id, HubID::new(1, HubType::Train));
    let stop = train.stop_command();
    assert_eq!(rpc(&stop.hub_events[0].command), ("stop".to_string(), vec![]));
    // only the puppets are told of a marker the master has passed
    let advance = train.advance_sensor();
    assert_eq!(advance.hub_events.len(), 1);
    assert_eq!(advance.hub_events[0].hub_id, HubID::new(1, HubType::Train));
}

#[test]
fn each_hub_gets_the_train_settings() {
    let mut train = train_with_hubs();
    train.puppets[0].inverted_ports = vec![HubPort::B];
    let configs = train.hubs_configuration();
    let master = configs.get(&HubID::new(0, HubType::Train)).unwrap();
    assert_eq!(master.data.get(&4), Some(&40));
    assert_eq!(master.data.get(&5), Some(&70));
    assert_eq!(master.data.get(&3), Some(&100));
    assert_eq!(master.data.get(&0), Some(&3500));
    assert_eq!(master.data.get(&7), None);
    let puppet = configs.get(&HubID::new(1, HubType::Train)).unwrap();
    assert_eq!(puppet.data.get(&7), Some(&1));
}
