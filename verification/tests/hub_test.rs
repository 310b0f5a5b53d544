use brickrail::hub::{
    apply_command, check_hub_prepared, hub_command_enabled, set_observer, configure_inputs, device_state_message, disconnect_hubs,
    ensure_broadcaster_hub, finalize_disconnection, finalize_hub_preparation, get_hub_label,
    monitor_non_prepared_hubs, motor_configuration, on_connect_failed, on_download_progress,
    on_downloaded, on_status, on_sys_ready, prepare_hubs, stop_hub_programs, u16_from_be_bytes,
    update_active_hubs, HubBusy, HubCommType, HubCommand, HubConfiguration, HubEntry, HubError,
    HubInput, HubState, IOMessage, LayoutDevice, ObserverHub, SysData,
};
use brickrail::hub::{execute_hub_command, handle_hub_messages, BLEHub, HubEvent, HubIO};
use brickrail::persistent_hub_state::PersistentHubState;
use brickrail::layout_primitives::{HubID, HubPort, HubType, LayoutDeviceID, LayoutDeviceType};

fn idle() -> HubState {
    HubState {
        busy: None,
        error: None,
        connected: false,
        downloaded: false,
        running: false,
        configured: false,
        ready: false,
        prepared: false,
        active: true,
        observer: None,
        broadcaster: false,
    }
}

fn entry(id: usize, state: HubState) -> HubEntry {
    HubEntry { id: HubID::new(id, HubType::Train), state, has_name: true }
}

#[test]
fn comm_type_flags_and_numbers() {
    assert_eq!(HubCommType::from_flags(true, false).to_u8(), 1);
    assert_eq!(HubCommType::from_flags(false, true).to_u8(), 2);
    assert_eq!(HubCommType::from_flags(false, false).to_u8(), 0);
}

#[test]
fn preparation_walks_a_hub_through_its_steps() {
    let mut s = idle();
    let cmd = prepare_hubs(&vec![entry(0, s)]).unwrap();
    assert!(matches!(cmd.command, HubCommand::Connect));
    apply_command(&mut s, &cmd.command);
    assert_eq!(s.busy, Some(HubBusy::Connecting));
    // nothing happens while a hub is busy
    assert!(prepare_hubs(&vec![entry(0, s)]).is_none());
    on_status(&mut s, false);
    assert!(s.connected && s.busy.is_none());

    let cmd = prepare_hubs(&vec![entry(0, s)]).unwrap();
    assert!(matches!(cmd.command, HubCommand::DownloadProgram));
    apply_command(&mut s, &cmd.command);
    on_download_progress(&mut s, 500);
    assert_eq!(s.busy, Some(HubBusy::Downloading(500)));
    on_downloaded(&mut s);
    assert!(s.downloaded && s.busy.is_none());

    let cmd = prepare_hubs(&vec![entry(0, s)]).unwrap();
    assert!(matches!(cmd.command, HubCommand::StartProgram));
    apply_command(&mut s, &cmd.command);
    on_status(&mut s, true);
    assert!(s.running && s.busy.is_none());

    let cmd = prepare_hubs(&vec![entry(0, s)]).unwrap();
    assert!(matches!(cmd.command, HubCommand::Configure));
    apply_command(&mut s, &cmd.command);
    assert!(s.configured);

    let cmd = prepare_hubs(&vec![entry(0, s)]).unwrap();
    assert!(matches!(cmd.command, HubCommand::SetReady));
    apply_command(&mut s, &cmd.command);
    on_sys_ready(&mut s);
    assert!(s.ready && s.busy.is_none());

    assert!(prepare_hubs(&vec![entry(0, s)]).is_none());
    assert!(!finalize_hub_preparation(&vec![entry(0, s)]));
    assert!(monitor_non_prepared_hubs(&vec![entry(0, s)]));
    check_hub_prepared(&mut s);
    assert!(s.prepared);
    assert!(finalize_hub_preparation(&vec![entry(0, s)]));
    assert!(!monitor_non_prepared_hubs(&vec![entry(0, s)]));
}

#[test]
fn unnamed_and_failed_hubs_are_passed_over() {
    let mut failed = idle();
    on_connect_failed(&mut failed);
    assert_eq!(failed.error, Some(HubError::ConnectError));
    let mut unnamed = entry(1, idle());
    unnamed.has_name = false;
    let hubs = vec![entry(0, failed), unnamed, entry(2, idle())];
    let cmd = prepare_hubs(&hubs).unwrap();
    assert_eq!(cmd.hub_id, HubID::new(2, HubType::Train));
}

#[test]
fn program_stopping_by_itself_is_an_error() {
    let mut s = idle();
    s.connected = true;
    s.running = true;
    on_status(&mut s, false);
    assert!(!s.running);
    assert_eq!(s.error, Some(HubError::ProgramError));

    let mut t = idle();
    t.connected = true;
    t.running = true;
    apply_command(&mut t, &HubCommand::StopProgram);
    on_status(&mut t, false);
    assert!(!t.running && t.error.is_none() && t.busy.is_none());
}

#[test]
fn prepared_hub_that_disconnects_loses_preparation() {
    let mut s = idle();
    s.connected = true;
    s.downloaded = true;
    s.running = true;
    s.configured = true;
    s.ready = true;
    check_hub_prepared(&mut s);
    assert!(s.prepared);
    s.connected = false;
    check_hub_prepared(&mut s);
    assert!(!s.prepared && !s.configured && !s.ready);
}

#[test]
fn observer_that_need_not_stay_is_let_go() {
    let mut s = idle();
    s.observer = Some(ObserverHub { keep_connected: false });
    s.connected = true;
    s.downloaded = true;
    s.running = true;
    s.configured = true;
    s.ready = true;
    let cmd = prepare_hubs(&vec![entry(0, s)]).unwrap();
    assert!(matches!(cmd.command, HubCommand::Disconnect));
    apply_command(&mut s, &cmd.command);
    assert!(!s.connected);
}

#[test]
fn disconnecting_stops_programs_first() {
    let mut running = idle();
    running.connected = true;
    running.running = true;
    let mut plain = idle();
    plain.connected = true;
    let hubs = vec![entry(0, idle()), entry(1, running), entry(2, plain)];
    let cmd = disconnect_hubs(&hubs).unwrap();
    assert_eq!(cmd.hub_id, HubID::new(1, HubType::Train));
    assert!(matches!(cmd.command, HubCommand::StopProgram));
    let cmd = disconnect_hubs(&vec![entry(2, plain)]).unwrap();
    assert!(matches!(cmd.command, HubCommand::Disconnect));
    assert!(!finalize_disconnection(&hubs));
    assert!(finalize_disconnection(&vec![entry(0, idle())]));
    assert!(disconnect_hubs(&vec![entry(0, idle())]).is_none());
}

#[test]
fn stop_programs_of_active_regular_hubs() {
    let mut a = idle();
    a.running = true;
    let mut b = idle();
    b.running = true;
    b.observer = Some(ObserverHub { keep_connected: true });
    let mut c = idle();
    c.running = true;
    c.active = false;
    let ids = stop_hub_programs(&vec![entry(0, a), entry(1, b), entry(2, c), entry(3, idle())]);
    assert_eq!(ids, vec![HubID::new(0, HubType::Train)]);
}

#[test]
fn broadcaster_is_picked_when_none_is_active() {
    let mut obs = idle();
    obs.observer = Some(ObserverHub { keep_connected: false });
    let hubs = vec![entry(0, obs), entry(1, idle())];
    assert_eq!(ensure_broadcaster_hub(&hubs), Some(1));
    let mut b = idle();
    b.broadcaster = true;
    assert_eq!(ensure_broadcaster_hub(&vec![entry(0, b), entry(1, idle())]), None);
}

#[test]
fn active_flags_follow_use() {
    let mut hubs = vec![entry(0, idle()), entry(1, idle())];
    update_active_hubs(&mut hubs, &vec![HubID::new(1, HubType::Train)]);
    assert!(!hubs[0].state.active);
    assert!(hubs[1].state.active);
}

#[test]
fn motor_configuration_addresses() {
    let config = motor_configuration(HubPort::B, 100, 200, 1);
    assert_eq!(config.data.get(&16), Some(&100));
    assert_eq!(config.data.get(&17), Some(&200));
    assert_eq!(config.data.get(&18), Some(&1));
    assert_eq!(config.data.len(), 3);
    let inputs = configure_inputs(&config);
    assert_eq!(inputs.len(), 3);
    assert!(matches!(inputs[0], HubInput::StoreUint { address: 16, value: 100 }));
}

#[test]
fn configurations_merge_and_compare() {
    let mut a = HubConfiguration::new();
    a.add_value(1, 10);
    let mut b = HubConfiguration::new();
    b.add_value(2, 20);
    a.merge(&b);
    let mut c = HubConfiguration::new();
    c.add_value(2, 20);
    c.add_value(1, 10);
    assert!(a.same_values(&c));
    c.add_value(1, 11);
    assert!(!a.same_values(&c));
}

#[test]
fn device_state_goes_to_its_port() {
    let hub = HubID::new(3, HubType::Layout);
    let msg = device_state_message(Some(hub), Some(HubPort::C), 1).unwrap();
    assert_eq!(msg.hub_id, hub);
    assert_eq!(msg.state_id, 2);
    assert_eq!(msg.state, 1);
    assert!(device_state_message(None, Some(HubPort::C), 1).is_none());
    assert!(device_state_message(Some(hub), None, 1).is_none());
}

#[test]
fn device_label_names_hub_and_port() {
    let hub = HubID::new(3, HubType::Layout);
    let mut device = LayoutDevice::from_id(LayoutDeviceID::new(7, LayoutDeviceType::PulseMotor));
    device.hub_id = Some(hub);
    device.port = Some(HubPort::A);
    let hubs = vec![(hub, Some("north".to_string()))];
    assert_eq!(device.ui_label(&hubs), "PulseMotor7: north-A");
    let unnamed = vec![(hub, None)];
    assert_eq!(device.ui_label(&unnamed), "PulseMotor7: Layout3-A");
    let bare = LayoutDevice::from_id(LayoutDeviceID::new(2, LayoutDeviceType::Signal));
    assert_eq!(bare.ui_label(&hubs), "Signal2: -");
    assert_eq!(get_hub_label(&hubs, &hub), "north");
}

#[test]
fn sys_messages_decode() {
    assert!(matches!(
        SysData::from_io_message(&IOMessage::Sys { code: 0, data: vec![] }),
        Some(SysData::Stop)
    ));
    assert!(matches!(
        SysData::from_io_message(&IOMessage::Sys { code: 1, data: vec![] }),
        Some(SysData::Ready)
    ));
    assert!(matches!(
        SysData::from_io_message(&IOMessage::Sys { code: 2, data: vec![0x1c, 0x20, 0x00, 0x64] }),
        Some(SysData::Alive { millivolts: 7200, milliamps: 100 })
    ));
    match SysData::from_io_message(&IOMessage::Sys { code: 3, data: b"1.2.0".to_vec() }) {
        Some(SysData::Version(v)) => assert_eq!(v, "1.2.0"),
        other => panic!("unexpected {:?}", other),
    }
    assert!(SysData::from_io_message(&IOMessage::Sys { code: 3, data: vec![0xff, 0xfe] }).is_none());
    assert!(SysData::from_io_message(&IOMessage::Sys { code: 9, data: vec![] }).is_none());
    assert!(SysData::from_io_message(&IOMessage::Data { id: 0, data: vec![] }).is_none());
    assert_eq!(u16_from_be_bytes(0x12, 0x34), 0x1234);
}

#[test]
fn hub_panel_offers_what_the_hub_can_do() {
    let s = idle();
    assert!(hub_command_enabled(&s, false, &HubCommand::DiscoverName));
    assert!(!hub_command_enabled(&s, false, &HubCommand::Connect));
    assert!(hub_command_enabled(&s, true, &HubCommand::Connect));
    assert!(!hub_command_enabled(&s, true, &HubCommand::Disconnect));
    let mut c = idle();
    c.connected = true;
    assert!(hub_command_enabled(&c, true, &HubCommand::Disconnect));
    assert!(hub_command_enabled(&c, true, &HubCommand::DownloadProgram));
    assert!(!hub_command_enabled(&c, true, &HubCommand::StartProgram));
    c.downloaded = true;
    assert!(hub_command_enabled(&c, true, &HubCommand::StartProgram));
    assert!(!hub_command_enabled(&c, true, &HubCommand::StopProgram));
    c.running = true;
    assert!(!hub_command_enabled(&c, true, &HubCommand::StartProgram));
    assert!(hub_command_enabled(&c, true, &HubCommand::StopProgram));
    c.busy = Some(HubBusy::Stopping);
    assert!(!hub_command_enabled(&c, true, &HubCommand::StopProgram));
    assert!(!hub_command_enabled(&c, true, &HubCommand::Configure));
}

#[test]
fn observer_box_sets_the_hub_kind() {
    let mut s = idle();
    set_observer(&mut s, true);
    assert_eq!(s.observer, Some(ObserverHub { keep_connected: false }));
    s.observer = Some(ObserverHub { keep_connected: true });
    set_observer(&mut s, true);
    assert_eq!(s.observer, Some(ObserverHub { keep_connected: true }));
    set_observer(&mut s, false);
    assert_eq!(s.observer, None);
}

#[test]
fn executing_commands_sends_their_work() {
    let mut state = idle();
    let mut settings = PersistentHubState::new();
    let name = Some("north".to_string());
    match execute_hub_command(&mut state, &name, None, &mut settings, HubCommand::Connect) {
        HubIO::Connect(n) => assert_eq!(n, "north"),
        other => panic!("unexpected {:?}", other),
    }
    assert_eq!(state.busy, Some(HubBusy::Connecting));
    match execute_hub_command(&mut state, &name, None, &mut settings, HubCommand::SetReady) {
        HubIO::SendInputs(v) => assert!(matches!(v.as_slice(), [HubInput::SysReady])),
        other => panic!("unexpected {:?}", other),
    }
    assert_eq!(state.busy, Some(HubBusy::SettingReady));
    let input = HubInput::StoreUint { address: 3, value: 9 };
    match execute_hub_command(&mut state, &name, None, &mut settings, HubCommand::QueueInput(input)) {
        HubIO::SendInputs(v) => assert!(matches!(v.as_slice(), [HubInput::StoreUint { address: 3, value: 9 }])),
        other => panic!("unexpected {:?}", other),
    }
    let config = motor_configuration(HubPort::A, 100, 200, 0);
    match execute_hub_command(&mut state, &name, Some(&config), &mut settings, HubCommand::Configure) {
        HubIO::SendInputs(v) => assert_eq!(v.len(), 3),
        other => panic!("unexpected {:?}", other),
    }
    assert!(state.configured && state.busy.is_none());
    assert!(settings.config_matches("north", &config));
}

#[test]
fn hub_events_stop_after_a_name() {
    let mut hubs = vec![BLEHub::new(HubID::new(0, HubType::Train)), BLEHub::new(HubID::new(1, HubType::Layout))];
    let mut connecting = idle();
    connecting.busy = Some(HubBusy::Connecting);
    let mut states = vec![connecting, idle()];
    let events = vec![
        (0, HubEvent::Status(false)),
        (0, HubEvent::Message(IOMessage::Data { id: 2, data: vec![1] })),
        (1, HubEvent::Message(IOMessage::Data { id: 2, data: vec![1] })),
        (1, HubEvent::Message(IOMessage::Sys { code: 1, data: vec![] })),
        (1, HubEvent::NameDiscovered("layout".to_string())),
        (0, HubEvent::Status(true)),
    ];
    let forwarded = handle_hub_messages(&mut hubs, &mut states, &events);
    assert_eq!(forwarded, vec![1]);
    assert!(states[0].connected && states[0].busy.is_none());
    assert!(!states[0].running);
    assert!(states[1].ready);
    assert_eq!(hubs[1].name, Some("layout".to_string()));
    assert_eq!(hubs[0].name, None);
}

#[test]
fn hub_events_are_judged_by_the_flags_before_the_batch() {
    let mut hubs = vec![BLEHub::new(HubID::new(0, HubType::Train)), BLEHub::new(HubID::new(1, HubType::Layout))];
    let mut connecting = idle();
    connecting.busy = Some(HubBusy::Connecting);
    let mut states = vec![connecting, idle()];
    let events = vec![
        (0, HubEvent::Status(true)),
        (0, HubEvent::Status(false)),
        (1, HubEvent::DownloadProgress(500)),
    ];
    let forwarded = handle_hub_messages(&mut hubs, &mut states, &events);
    assert!(forwarded.is_empty());
    assert!(states[0].connected && states[0].busy.is_none());
    assert!(states[0].running);
    assert_eq!(states[0].error, None);
    assert_eq!(states[1].busy, Some(HubBusy::Downloading(500)));
}
