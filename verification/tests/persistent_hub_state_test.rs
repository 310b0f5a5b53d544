use brickrail::hub::{BLEHub, HubConfiguration};
use brickrail::layout_primitives::{HubID, HubType};
use brickrail::persistent_hub_state::PersistentHubState;

#[test]
fn configurations_are_remembered_by_hub_name() {
    let mut state = PersistentHubState::new();
    let mut config = HubConfiguration::new();
    config.add_value(8, 100);
    assert!(!state.config_matches("north", &config));
    state.sync_configured_hub("north", &config);
    assert!(state.config_matches("north", &config));
    assert!(!state.config_matches("south", &config));

    let mut changed = HubConfiguration::new();
    changed.add_value(8, 101);
    assert!(!state.config_matches("north", &changed));
    state.sync_configured_hub("north", &changed);
    assert!(state.config_matches("north", &changed));
    assert_eq!(state.configs.len(), 1);
}

#[test]
fn downloads_are_remembered_by_hub_name_and_hash() {
    let mut state = PersistentHubState::new();
    let name = Some("north".to_string());
    let hash = "abc".to_string();
    assert!(!state.is_marked_downloaded(&name, &hash));
    state.mark_downloaded(&name, &hash);
    assert!(state.is_marked_downloaded(&name, &hash));
    assert!(!state.is_marked_downloaded(&name, &"abd".to_string()));
    assert!(!state.is_marked_downloaded(&None, &hash));
    state.mark_downloaded(&None, &hash);
    assert_eq!(state.program_hashes.len(), 1);
    state.mark_downloaded(&name, &"abd".to_string());
    assert!(state.is_marked_downloaded(&name, &"abd".to_string()));
    assert_eq!(state.program_hashes.len(), 1);
}

#[test]
fn a_hub_remembers_its_program_by_name() {
    let mut hub = BLEHub::new(HubID::new(0, HubType::Train));
    assert_eq!(hub.get_program_path(), "pybricks/programs/mpy/smart_train.mpy");
    assert_eq!(
        BLEHub::new(HubID::new(0, HubType::Layout)).get_program_path(),
        "pybricks/programs/mpy/layout_controller.mpy"
    );
    let hash = hub.get_program_hash(b"");
    assert_eq!(hash, "e3b0c44298fc1c149afbf4c8996fb92427ae41e4649b934ca495991b7852b855");

    let mut state = PersistentHubState::new();
    // an unnamed hub is never marked
    hub.sync_persistent_state_downloaded_program(&mut state, &hash);
    assert!(!hub.is_marked_downloaded_in_persistent_cache(&state, &hash));
    hub.name = Some("engine".to_string());
    assert!(!hub.is_marked_downloaded_in_persistent_cache(&state, &hash));
    hub.sync_persistent_state_downloaded_program(&mut state, &hash);
    assert!(hub.is_marked_downloaded_in_persistent_cache(&state, &hash));
}
