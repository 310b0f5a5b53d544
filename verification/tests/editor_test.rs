use brickrail::editor::{
    disconnect_finish, init_select, mode_change, top_panel_click, update_editor_state, ControlState,
    ControlStateMode, DisconnectAction, EditorInfo, EditorState, GenericID, InputData, Selection,
    SelectionState, TopPanelButton,
};
use brickrail::layout_primitives::TrainID;

#[test]
fn top_bar_buttons_move_the_editor() {
    let mut info = EditorInfo::default();
    assert_eq!(top_panel_click(EditorState::Edit, TopPanelButton::Edit, &mut info), None);
    assert_eq!(
        top_panel_click(EditorState::Edit, TopPanelButton::DeviceControl, &mut info),
        Some(EditorState::PreparingDeviceControl)
    );
    assert_eq!(
        top_panel_click(EditorState::PreparingDeviceControl, TopPanelButton::DeviceControl, &mut info),
        None
    );
    assert_eq!(
        top_panel_click(EditorState::DeviceControl, TopPanelButton::VirtualControl, &mut info),
        Some(EditorState::VirtualControl)
    );
    assert_eq!(info.disconnect_action, DisconnectAction::Nothing);

    assert_eq!(
        top_panel_click(EditorState::Edit, TopPanelButton::Load("a.json".to_string()), &mut info),
        Some(EditorState::Disconnecting)
    );
    assert_eq!(info.disconnect_action, DisconnectAction::LoadLayout("a.json".to_string()));
    assert_eq!(disconnect_finish(&mut info), DisconnectAction::LoadLayout("a.json".to_string()));
    assert_eq!(info.disconnect_action, DisconnectAction::Nothing);

    assert_eq!(top_panel_click(EditorState::Edit, TopPanelButton::New, &mut info), Some(EditorState::Disconnecting));
    assert_eq!(info.disconnect_action, DisconnectAction::NewLayout);
    assert_eq!(
        top_panel_click(EditorState::Edit, TopPanelButton::Disconnect, &mut info),
        Some(EditorState::Disconnecting)
    );
    assert_eq!(info.disconnect_action, DisconnectAction::Nothing);
}

#[test]
fn control_modes_and_keys() {
    assert_eq!(mode_change(ControlStateMode::Manual, ControlStateMode::Random), Some(ControlStateMode::Random));
    assert_eq!(mode_change(ControlStateMode::Manual, ControlStateMode::Manual), None);
    assert_eq!(ControlStateMode::Schedule.to_string(), "Schedule");
    assert_eq!(update_editor_state(true, true), Some(EditorState::PreparingDeviceControl));
    assert_eq!(update_editor_state(true, false), Some(EditorState::Edit));
    assert_eq!(update_editor_state(false, false), None);
    assert!(EditorState::DeviceControl.ble_commands_enabled());
    assert!(!EditorState::VirtualControl.ble_commands_enabled());
    assert!(ControlState::compute(EditorState::VirtualControl).is_some());
    assert!(ControlState::compute(EditorState::Edit).is_none());
}

#[test]
fn clicking_selects_what_is_hovered() {
    let mut state = SelectionState::new();
    let train = GenericID::Train(TrainID::new(2));
    init_select(&InputData { mouse_over_ui: false }, true, Some(train), &mut state);
    assert!(matches!(state.selection, Selection::Single(GenericID::Train(t)) if t == TrainID::new(2)));
    init_select(&InputData { mouse_over_ui: true }, true, None, &mut state);
    assert!(matches!(state.selection, Selection::Single(_)));
    init_select(&InputData { mouse_over_ui: false }, true, None, &mut state);
    assert!(matches!(state.selection, Selection::Nothing));
}
