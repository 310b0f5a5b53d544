use brickrail::common::app_command::{dispatch_app_commands, AppCommand, AppCommandQueue, AppDispatch, InFlightStatus};
use brickrail::common::command::{CommandId, CommandRegistry};
use brickrail::common::layout_primitives::{
    BlockDirection, BlockID, CellID, Facing, LogicalBlockID, Orientation, TrackID, TrainID,
};
use brickrail::keyed::KeyedMap;
use brickrail::common::lifecycle::{
    despawn_all_in_layout, on_despawn_element, spawn_element, ElementId, Registry, SpawnElement,
    Track, TrackData,
};

/// Entities are handed out by a counter, as a world would.
struct World {
    next: u64,
    registry: Registry<Track, u64>,
    alive: Vec<(u64, TrackID)>,
}

impl World {
    fn new() -> Self {
        World { next: 0, registry: Registry::new(), alive: Vec::new() }
    }

    fn spawn_element(&mut self, id: TrackID, data: TrackData) -> u64 {
        let entity = self.next;
        self.next += 1;
        let (element_id, _data) = spawn_element(&mut self.registry, &SpawnElement::new(id, data), entity);
        self.alive.push((entity, element_id.0));
        entity
    }

    fn element_id(&self, entity: u64) -> Option<ElementId<Track>> {
        self.alive.iter().find(|(e, _)| *e == entity).map(|(_, id)| ElementId(*id))
    }

    fn despawn(&mut self, entity: u64) {
        let id = self.element_id(entity);
        if on_despawn_element(&mut self.registry, id.as_ref()) {
            self.alive.retain(|(e, _)| *e != entity);
        }
    }
}

#[test]
fn spawn_track_via_commands() {
    let mut world = World::new();
    let track_id = TrackID::new(CellID::new(0, 0, 0), Orientation::EW);
    world.spawn_element(track_id, TrackData);

    assert_eq!(world.registry.len(), 1);
    let entity = world.registry.get(&track_id).expect("track should be in registry");
    let element_id = world.element_id(entity).expect("entity should have ElementId<Track>");
    assert_eq!(element_id.0, track_id);
}

#[test]
fn despawn_track_via_entity_event() {
    let mut world = World::new();
    let track_id = TrackID::new(CellID::new(1, 2, 0), Orientation::NS);
    let entity = world.spawn_element(track_id, TrackData);

    world.despawn(entity);

    assert!(world.registry.is_empty());
    assert!(world.element_id(entity).is_none());
}

#[test]
fn spawn_multiple_tracks() {
    let mut world = World::new();
    let ids = [
        TrackID::new(CellID::new(0, 0, 0), Orientation::EW),
        TrackID::new(CellID::new(1, 0, 0), Orientation::EW),
        TrackID::new(CellID::new(0, 1, 0), Orientation::NS),
    ];
    for id in &ids {
        world.spawn_element(*id, TrackData);
    }
    assert_eq!(world.registry.len(), 3);
    for id in &ids {
        assert!(world.registry.contains(id));
    }
}

#[test]
fn despawn_of_other_kind_leaves_registry() {
    let mut registry: Registry<Track, u64> = Registry::new();
    let track_id = TrackID::new(CellID::new(4, 4, 0), Orientation::NS);
    spawn_element(&mut registry, &SpawnElement::new(track_id, TrackData), 7);
    assert!(!on_despawn_element(&mut registry, None));
    assert_eq!(registry.get(&track_id), Some(7));
}

#[test]
fn despawn_all_visits_every_registry_in_order() {
    let lists = vec![vec![1u64, 2], vec![], vec![5, 3]];
    assert_eq!(despawn_all_in_layout(&lists), vec![1, 2, 5, 3]);
}

#[test]
fn dispatching_puts_the_command_in_flight() {
    let t0 = TrackID::new(CellID::new(0, 0, 0), Orientation::EW);
    let t1 = TrackID::new(CellID::new(1, 0, 0), Orientation::EW);
    let block = LogicalBlockID { block: BlockID::new(t0, t1), direction: BlockDirection::Aligned, facing: Facing::Forward };
    let mut queue: AppCommandQueue<u64> = AppCommandQueue::new();
    let mut registry: CommandRegistry<u64> = CommandRegistry::new();
    let mut commands: KeyedMap<u64, (CommandId, AppCommand)> = KeyedMap::new();
    queue.push(&mut registry, CommandId(1), 7);
    commands.insert(7, (CommandId(1), AppCommand::SetTrainPosition(TrainID(0), block)));
    queue.push(&mut registry, CommandId(2), 8);
    commands.insert(8, (CommandId(2), AppCommand::ExitControlMode));

    let (dispatch, response) = dispatch_app_commands(&mut queue, InFlightStatus::Finished, &mut commands, vec![]).unwrap();
    assert!(matches!(dispatch, AppDispatch::SetTrainPosition(CommandId(1), _, b) if b == block));
    let response = response.unwrap();
    assert_eq!(response.command_id, CommandId(1));
    assert!(response.result.is_ok());
    // the next one waits while the first is pending
    assert!(dispatch_app_commands(&mut queue, InFlightStatus::Pending, &mut commands, vec![]).is_none());
    let (dispatch, response) = dispatch_app_commands(&mut queue, InFlightStatus::Finished, &mut commands, vec![]).unwrap();
    assert!(matches!(dispatch, AppDispatch::Forward(env) if env.command_id == CommandId(2)));
    assert!(response.is_none());
    assert!(dispatch_app_commands(&mut queue, InFlightStatus::Finished, &mut commands, vec![]).is_none());
}
