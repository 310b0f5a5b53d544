//! Trains on the layout: where each one is (on a route, in a block, or in
//! storage), and the route and lock updates as it passes markers.
use vstd::prelude::*;
use crate::ble_train::{all_hub_ids, call_each, calls_are, BLETrain, HubCommands};
use crate::block::Block;
use crate::keyed::KeyedMap;
use crate::layout::{
    claimed_tracks, extends_held, switch_settings, switches_ready, EntityMap, EntityTable, MarkerMap, SwitchMap, TrackLocks,
};
use crate::layout_primitives::{default_in_marker_track, BlockID, Facing, LogicalBlockID, LogicalTrackID, TrackID, TrainID, WagonID};
use crate::marker::Marker;
use crate::route::{
    build_route, demands_agree_across, held_in_turn, in_marker_tracks, intention_flag, leg_buildable, leg_marker_data,
    leg_state_of, lockable, released_motors, released_tracks, with_intention, LegIntention, LegState, Route, RouteLeg, TrainState,
};
use crate::section::{split_pieces, LogicalSection};
use crate::switch::SetSwitchPositionMessage;
use rand::seq::SliceRandom;

verus! {

/// A train has passed the marker at `index` of its current leg.
#[derive(Clone, Copy, Debug, PartialEq, Eq, Structural)]
pub struct MarkerAdvanceEvent {
    pub id: TrainID,
    pub index: usize,
}

#[derive(Clone, Copy, Debug, PartialEq, Eq, Structural)]
pub struct TrainSettings {
    pub num_wagons: usize,
    pub home: Option<LogicalBlockID>,
    pub prefer_facing: Option<Facing>,
}

/// Where a saved train is: in a block or in storage.
#[derive(Clone, Copy, Debug, PartialEq, Eq, Structural)]
pub enum SerializablePosition {
    Block(LogicalBlockID),
    Storage,
}

/// Where a train is: on a route, in a block, or in storage.
#[derive(Debug)]
pub enum Position {
    Route(Route),
    Block(LogicalBlockID),
    Storage,
}

impl Position {
    pub fn from_serializable(pos: SerializablePosition) -> (r: Position)
        ensures
            match pos {
                SerializablePosition::Block(b) => r matches Position::Block(c) && c == b,
                SerializablePosition::Storage => r is Storage,
            },
    {
        match pos {
            SerializablePosition::Block(block) => Position::Block(block),
            SerializablePosition::Storage => Position::Storage,
        }
    }

    /// The position a train is saved with: a train on a route is saved in
    /// the target block of its current leg.
    pub fn into_serializable(self) -> (r: SerializablePosition)
        requires
            self matches Position::Route(route) ==> route.leg_index < route.legs@.len(),
        ensures
            match self {
                Position::Block(b) => r == SerializablePosition::Block(b),
                Position::Storage => r == SerializablePosition::Storage,
                Position::Route(route) => r == SerializablePosition::Block(route.legs@[route.leg_index as int].target_block),
            },
    {
        match self {
            Position::Block(block) => SerializablePosition::Block(block),
            Position::Storage => SerializablePosition::Storage,
            Position::Route(route) => SerializablePosition::Block(route.get_current_leg().get_target_block_id()),
        }
    }
}

/// A train: its id, where it is, what it was last told, its settings and
/// its wagons. (How fast it moves on screen is kept with its drawing.)
#[derive(Debug)]
pub struct Train {
    pub id: TrainID,
    pub position: Position,
    pub state: TrainState,
    pub settings: TrainSettings,
    pub wagons: Vec<WagonID>,
}

impl Train {
    /// A new train standing in a block, with three wagons.
    pub fn at_block_id(train_id: TrainID, logical_block_id: LogicalBlockID) -> (r: Train)
        ensures
            r.id == train_id,
            r.position matches Position::Block(b) && b == logical_block_id,
            r.state == TrainState::Stop,
            r.settings == (TrainSettings { num_wagons: 3, home: None, prefer_facing: None }),
            r.wagons@.len() == 0,
    {
        Train {
            id: train_id,
            position: Position::Block(logical_block_id),
            state: TrainState::Stop,
            settings: TrainSettings { num_wagons: 3, home: None, prefer_facing: None },
            wagons: Vec::new(),
        }
    }

    /// The train is on a route, on one of its legs.
    pub open spec fn on_route(&self) -> bool {
        self.position matches Position::Route(route) && route.leg_index < route.legs@.len()
    }

    pub open spec fn route(&self) -> Route {
        self.position->Route_0
    }

    pub fn get_route(&self) -> (r: &Route)
        requires
            self.position is Route,
        ensures
            *r == self.route(),
    {
        match &self.position {
            Position::Route(route) => route,
            _ => vstd::pervasive::unreached(),
        }
    }

    /// The block the train is heading for on its current leg.
    pub fn get_logical_block_id(&self) -> (r: LogicalBlockID)
        requires
            self.on_route(),
        ensures
            r == self.route().legs@[self.route().leg_index as int].target_block,
    {
        self.get_route().get_current_leg().get_target_block_id()
    }

    /// The train has passed the next marker of its current leg.
    pub fn advance_sensor(&mut self)
        requires
            old(self).on_route(),
            old(self).route().legs@[old(self).route().leg_index as int].index + 1
                < old(self).route().legs@[old(self).route().leg_index as int].markers@.len(),
        ensures
            final(self).id == old(self).id,
            final(self).state == old(self).state,
            final(self).settings == old(self).settings,
            final(self).wagons@ == old(self).wagons@,
            final(self).position is Route,
            final(self).route().leg_index == old(self).route().leg_index,
            final(self).route().train_id == old(self).route().train_id,
            final(self).route().legs@ == old(self).route().legs@.update(old(self).route().leg_index as int, crate::route::RouteLeg {
                index: (old(self).route().legs@[old(self).route().leg_index as int].index + 1) as usize,
                ..old(self).route().legs@[old(self).route().leg_index as int]
            }),
    {
        match &mut self.position {
            Position::Route(route) => {
                route.advance_sensor();
            },
            _ => {},
        }
    }
}

/// The route on which a train stands in a block: built along the block's
/// in-marker track alone.
pub open spec fn block_route_section(block_id: LogicalBlockID) -> Seq<LogicalTrackID> {
    seq![default_in_marker_track(block_id)]
}

/// A route can be built along the section: it passes in-markers, the paths
/// between them lead into known blocks with known markers, and the first
/// leg has a marker.
pub open spec fn route_buildable(s: Seq<LogicalTrackID>, markers: Map<TrackID, Marker>, blocks: Map<BlockID, Block>, marker_map: &MarkerMap) -> bool {
    &&& split_pieces(s, in_marker_tracks(marker_map)).len() > 0
    &&& forall|k: int| 0 <= k < split_pieces(s, in_marker_tracks(marker_map)).len()
        ==> leg_buildable(#[trigger] split_pieces(s, in_marker_tracks(marker_map))[k], markers, blocks, marker_map)
    &&& leg_marker_data(
        split_pieces(s, in_marker_tracks(marker_map))[0].0,
        markers,
        marker_map,
        marker_map.in_markers@[split_pieces(s, in_marker_tracks(marker_map))[0].1],
    ).len() > 0
}

/// The route of a train standing in a block.
pub fn block_route(
    block_id: LogicalBlockID,
    train_id: TrainID,
    markers: &KeyedMap<TrackID, Marker>,
    blocks: &KeyedMap<BlockID, Block>,
    marker_map: &MarkerMap,
) -> (r: Route)
    requires
        route_buildable(block_route_section(block_id), markers@, blocks@, marker_map),
    ensures
        r.train_id == train_id,
        r.leg_index == 0,
        r.legs@.len() == split_pieces(block_route_section(block_id), in_marker_tracks(marker_map)).len(),
        forall|k: int| 0 <= k < r.legs@.len() ==> crate::route::leg_built(
            &#[trigger] r.legs@[k],
            split_pieces(block_route_section(block_id), in_marker_tracks(marker_map))[k],
            markers@,
            blocks@,
            marker_map,
        ),
        r.legs@[0].index == r.legs@[0].markers@.len() - 1,
        forall|k: int| 0 < k < r.legs@.len() ==> (#[trigger] r.legs@[k]).index == 0,
{
    let mut section = LogicalSection::new();
    section.tracks.push(block_id.default_in_marker_track());
    assert(section.tracks@ =~= block_route_section(block_id));
    build_route(train_id, &section, markers, blocks, marker_map)
}

/// Whether the train will also hold the next leg once the route's
/// intentions are brought up to date.
pub open spec fn locks_next_leg_after(route: &Route, locks: &TrackLocks, switches: Map<crate::layout_primitives::DirectedTrackID, crate::switch::Switch>) -> bool {
    let cur = route.legs@[route.leg_index as int];
    &&& route.leg_index + 1 < route.legs@.len()
    &&& leg_state_of(cur.markers@, cur.index as int) != LegState::NotEntered
    &&& (route.leg_index as int) < route.free_until(locks, switches)
}

/// A train's route can be brought up to date without a conflict: the
/// switches it may pass can take their positions, and what it is to lock
/// is free.
pub open spec fn route_update_ok(route: &Route, locks: &TrackLocks, switches: Map<crate::layout_primitives::DirectedTrackID, crate::switch::Switch>) -> bool {
    &&& route.leg_index < route.legs@.len()
    &&& route.legs@[route.leg_index as int].wf()
    &&& forall|i: int| route.leg_index <= i < route.legs@.len() ==> switches_ready(switches, (#[trigger] route.legs@[i]).travel_section.tracks@)
        && switches_ready(switches, route.legs@[i].to_section.tracks@)
    &&& lockable(locks, route.train_id, switches, route.first_lock_section())
    &&& locks_next_leg_after(route, locks, switches) ==> lockable(locks, route.train_id, switches, route.second_lock_section())
        && demands_agree_across(switches, route.first_lock_section(), route.second_lock_section())
}

/// The tracks held after a route update.
pub open spec fn updated_tracks(route: &Route, locks: &TrackLocks, switches: Map<crate::layout_primitives::DirectedTrackID, crate::switch::Switch>) -> Map<TrackID, TrainID> {
    let first = claimed_tracks(released_tracks(locks.locked_tracks@, route.train_id), route.train_id, route.first_lock_section());
    if locks_next_leg_after(route, locks, switches) {
        claimed_tracks(first, route.train_id, route.second_lock_section())
    } else {
        first
    }
}

/// The legs of a route once their intentions are brought up to date: a
/// leg before `free_until` is passed through, the others are stopped in; a
/// leg stays synced with the train only if its intention did not change.
pub open spec fn legs_with_intentions(legs: Seq<RouteLeg>, free_until: int) -> Seq<RouteLeg> {
    Seq::new(
        legs.len(),
        |i: int|
            {
                let leg = legs[i];
                let intention = if i < free_until {
                    LegIntention::Pass
                } else {
                    LegIntention::Stop
                };
                with_intention(leg, intention, leg.intention_synced && leg.intention == intention)
            },
    )
}

/// What bringing a train's route up to date does to the train: its legs
/// get their intentions; everything else stays.
pub open spec fn train_route_updated(
    before: Train,
    after: Train,
    locks: &TrackLocks,
    switches: Map<crate::layout_primitives::DirectedTrackID, crate::switch::Switch>,
) -> bool {
    &&& after.id == before.id
    &&& after.state == before.state
    &&& after.settings == before.settings
    &&& after.wagons@ == before.wagons@
    &&& after.position is Route
    &&& after.route().train_id == before.route().train_id
    &&& after.route().leg_index == before.route().leg_index
    &&& after.route().legs@ == legs_with_intentions(before.route().legs@, before.route().free_until(locks, switches))
}

/// The switch positions that bringing a route up to date sets: those of
/// the section it holds first, then those of the next leg's when it holds
/// that too.
pub open spec fn route_update_events(
    route: &Route,
    locks: &TrackLocks,
    switches: Map<crate::layout_primitives::DirectedTrackID, crate::switch::Switch>,
) -> Seq<SetSwitchPositionMessage> {
    switch_settings(switches, route.first_lock_section()) + if locks_next_leg_after(route, locks, switches) {
        switch_settings(switches, route.second_lock_section())
    } else {
        Seq::<SetSwitchPositionMessage>::empty()
    }
}

/// Brings a train's route up to date: which legs it passes through, then
/// what it holds. Returns whether the locks changed, and the switch
/// positions to set.
pub fn update_train_route(train: &mut Train, track_locks: &mut TrackLocks, switches: &SwitchMap) -> (r: (bool, Vec<SetSwitchPositionMessage>))
    requires
        old(train).position is Route,
        route_update_ok(&old(train).route(), &*old(track_locks), switches@),
    ensures
        train_route_updated(*old(train), *final(train), &*old(track_locks), switches@),
        final(track_locks).locked_tracks@ == updated_tracks(&old(train).route(), &*old(track_locks), switches@),
        locks_next_leg_after(&old(train).route(), &*old(track_locks), switches@) ==> held_in_turn(
            released_motors(old(track_locks).locked_switch_motors@, old(train).route().train_id),
            final(track_locks).locked_switch_motors@,
            old(train).route().train_id,
            switches@,
            old(train).route().first_lock_section(),
            old(train).route().second_lock_section(),
        ),
        !locks_next_leg_after(&old(train).route(), &*old(track_locks), switches@) ==> extends_held(
            released_motors(old(track_locks).locked_switch_motors@, old(train).route().train_id),
            final(track_locks).locked_switch_motors@,
            old(train).route().train_id,
            switches@,
            old(train).route().first_lock_section(),
        ),
        r.1@ == route_update_events(&old(train).route(), &*old(track_locks), switches@),
        r.0 == !(final(track_locks).locked_tracks@ == old(track_locks).locked_tracks@
            && final(track_locks).locked_switch_motors@ == old(track_locks).locked_switch_motors@),
{
    let ghost before = *train;
    let ghost locks_before = *track_locks;
    let r = match &mut train.position {
        Position::Route(route) => {
            route.update_intentions(track_locks, switches);
            let old_locks = track_locks.snapshot();
            let events = route.update_locks(track_locks, switches);
            (!track_locks.same_locks(&old_locks), events)
        },
        _ => vstd::pervasive::unreached(),
    };
    proof {
        assert(train.route().legs@ =~= legs_with_intentions(before.route().legs@, before.route().free_until(&locks_before, switches@)));
    }
    r
}

/// Removing a train lets go of everything it holds and forgets its
/// entity; returns the entity to remove.
pub fn despawn_train<E: Copy>(train_id: TrainID, entity_map: &mut EntityMap<E>, track_locks: &mut TrackLocks) -> (r: E)
    requires
        old(entity_map).trains@.contains_key(train_id),
    ensures
        r == old(entity_map).trains@[train_id],
        final(entity_map).trains@ == old(entity_map).trains@.remove(train_id),
        EntityMap::unchanged_except(&*old(entity_map), &*final(entity_map), EntityTable::Trains),
        final(track_locks).locked_tracks@ == released_tracks(old(track_locks).locked_tracks@, train_id),
        final(track_locks).locked_switch_motors@ == released_motors(old(track_locks).locked_switch_motors@, train_id),
{
    let entity = *entity_map.trains.get(&train_id).unwrap();
    track_locks.unlock_all(&train_id);
    entity_map.remove_train(train_id);
    entity
}

/// A marker passed by a train on a route, as reported: the next marker of
/// its current leg.
pub open spec fn advance_expected(train: &Train, advance: MarkerAdvanceEvent) -> bool {
    &&& train.on_route()
    &&& advance.index == train.route().legs@[train.route().leg_index as int].index + 1
    &&& advance.index < train.route().legs@[train.route().leg_index as int].markers@.len()
}

/// A reported marker advance: the train moves past the marker and its
/// route is brought up to date. Returns whether the locks changed, and the
/// switch positions to set.
pub fn sensor_advance(train: &mut Train, advance: MarkerAdvanceEvent, track_locks: &mut TrackLocks, switches: &SwitchMap) -> (r: (bool, Vec<SetSwitchPositionMessage>))
    requires
        advance_expected(&*old(train), advance),
        forall|t: Train| #[trigger] t.position is Route && t.route().train_id == old(train).route().train_id
            && t.route().leg_index == old(train).route().leg_index
            && t.route().legs@ == old(train).route().legs@.update(old(train).route().leg_index as int, crate::route::RouteLeg {
                index: advance.index,
                ..old(train).route().legs@[old(train).route().leg_index as int]
            }) ==> route_update_ok(&t.route(), &*old(track_locks), switches@),
    ensures
        final(train).id == old(train).id,
        final(train).position is Route,
        final(train).route().leg_index == old(train).route().leg_index,
        final(train).route().legs@[final(train).route().leg_index as int].index == advance.index,
        exists|t: Train|
            #[trigger] advanced_train(*old(train), t, advance)
            && train_route_updated(t, *final(train), &*old(track_locks), switches@)
            && final(track_locks).locked_tracks@ == updated_tracks(&t.route(), &*old(track_locks), switches@)
            && r.1@ == route_update_events(&t.route(), &*old(track_locks), switches@),
        r.0 == !same_views(&*final(track_locks), &*old(track_locks)),
{
    train.advance_sensor();
    let ghost advanced = *train;
    assert(advanced_train(*old(train), advanced, advance));
    update_train_route(train, track_locks, switches)
}

/// The train once it has passed the marker of an advance: the current
/// leg's marker index is the advance's, everything else stays.
pub open spec fn advanced_train(before: Train, after: Train, advance: MarkerAdvanceEvent) -> bool {
    &&& after.id == before.id
    &&& after.state == before.state
    &&& after.settings == before.settings
    &&& after.wagons@ == before.wagons@
    &&& after.position is Route
    &&& after.route().train_id == before.route().train_id
    &&& after.route().leg_index == before.route().leg_index
    &&& after.route().legs@ == before.route().legs@.update(before.route().leg_index as int, crate::route::RouteLeg {
        index: advance.index,
        ..before.route().legs@[before.route().leg_index as int]
    })
}

/// The marker advance asked for by hand: the next marker of the train's
/// current leg, unless it has completed the leg.
pub fn trigger_manual_sensor_advance(train_id: TrainID, train: &Train) -> (r: Option<MarkerAdvanceEvent>)
    requires
        train.on_route(),
        train.route().legs@[train.route().leg_index as int].index < train.route().legs@[train.route().leg_index as int].markers@.len(),
    ensures
        ({
            let leg = train.route().legs@[train.route().leg_index as int];
            if leg_state_of(leg.markers@, leg.index as int) != LegState::Completed {
                r == Some(MarkerAdvanceEvent { id: train_id, index: (leg.index + 1) as usize })
            } else {
                r is None
            }
        }),
{
    let route = train.get_route();
    let leg = route.get_current_leg();
    if leg.get_leg_state() != LegState::Completed {
        let n = leg.markers.len();
        Some(MarkerAdvanceEvent { id: train_id, index: leg.index + 1 })
    } else {
        None
    }
}

/// The calls that tell the hubs the intention of each leg they do not know
/// yet, in leg order.
pub open spec fn intention_calls(hubs: Seq<crate::layout_primitives::HubID>, legs: Seq<crate::route::RouteLeg>) -> Seq<(crate::layout_primitives::HubID, Seq<char>, Seq<u8>)>
    decreases legs.len(),
{
    if legs.len() == 0 {
        Seq::empty()
    } else {
        let rest = intention_calls(hubs, legs.drop_last());
        if legs.last().intention_synced {
            rest
        } else {
            rest + call_each(hubs, "set_leg_intention"@, seq![((legs.len() - 1) as int) as u8, intention_flag(legs.last().intention)])
        }
    }
}

/// Sends each leg intention the train's hubs do not know yet, and records
/// them as known.
pub fn sync_intentions(route: &mut Route, ble_train: &BLETrain) -> (r: HubCommands)
    ensures
        final(route).train_id == old(route).train_id,
        final(route).leg_index == old(route).leg_index,
        final(route).legs@.len() == old(route).legs@.len(),
        forall|i: int| 0 <= i < old(route).legs@.len() ==> #[trigger] final(route).legs@[i] == with_intention(
            old(route).legs@[i],
            old(route).legs@[i].intention,
            true,
        ),
        calls_are(r.hub_events@, intention_calls(all_hub_ids(ble_train), old(route).legs@)),
{
    let mut commands: HubCommands = HubCommands { hub_events: Vec::new() };
    let n = route.legs.len();
    let mut i: usize = 0;
    while i < n
        invariant
            0 <= i <= n,
            n == route.legs@.len(),
            n == old(route).legs@.len(),
            route.train_id == old(route).train_id,
            route.leg_index == old(route).leg_index,
            forall|j: int| 0 <= j < n ==> #[trigger] route.legs@[j] == if j < i {
                with_intention(old(route).legs@[j], old(route).legs@[j].intention, true)
            } else {
                old(route).legs@[j]
            },
            calls_are(commands.hub_events@, intention_calls(all_hub_ids(ble_train), old(route).legs@.subrange(0, i as int))),
        decreases n - i,
    {
        proof {
            let sub = old(route).legs@.subrange(0, i + 1);
            assert(sub.drop_last() =~= old(route).legs@.subrange(0, i as int));
            assert(sub.last() == old(route).legs@[i as int]);
        }
        if !route.legs[i].intention_synced {
            let mut more = ble_train.set_leg_intention(i as u8, route.legs[i].intention);
            let ghost before = commands.hub_events@;
            let ghost more_events = more.hub_events@;
            commands.hub_events.append(&mut more.hub_events);
            proof {
                let expected = intention_calls(all_hub_ids(ble_train), old(route).legs@.subrange(0, i + 1));
                assert forall|k: int| 0 <= k < commands.hub_events@.len() implies crate::ble_train::is_rpc(#[trigger] commands.hub_events@[k])
                    && crate::ble_train::rpc_view(commands.hub_events@[k]) == expected[k] by {
                    if k < before.len() {
                        assert(commands.hub_events@[k] == before[k]);
                    } else {
                        assert(commands.hub_events@[k] == more_events[k - before.len()]);
                    }
                }
            }
            route.legs[i].set_synced();
        } else {
            route.legs[i].set_synced();
        }
        i = i + 1;
    }
    assert(old(route).legs@.subrange(0, n as int) =~= old(route).legs@);
    commands
}

/// Whether the train would download its route: every leg has markers and
/// a section to travel.
pub open spec fn route_downloadable(route: &Route) -> bool {
    forall|i: int| 0 <= i < route.legs@.len() ==> (#[trigger] route.legs@[i]).markers@.len() > 0
        && route.legs@[i].travel_section.tracks@.len() > 0
}

/// Puts the train on a new route and brings it up to date; with commands
/// to the hubs enabled, the route is loaded onto the train's hubs. Returns
/// whether the locks changed, the switch positions to set, and the hub
/// commands.
pub fn set_train_route(
    train: &mut Train,
    route: Route,
    track_locks: &mut TrackLocks,
    switches: &SwitchMap,
    ble_train: &BLETrain,
    ble_commands_enabled: bool,
) -> (r: (bool, Vec<SetSwitchPositionMessage>, HubCommands))
    requires
        route_update_ok(&route, &*old(track_locks), switches@),
        ble_commands_enabled ==> route_downloadable(&route),
    ensures
        final(train).id == old(train).id,
        final(train).position is Route,
        final(train).route().train_id == route.train_id,
        final(train).route().leg_index == route.leg_index,
        final(train).route().legs@.len() == route.legs@.len(),
        forall|i: int| 0 <= i < route.legs@.len() ==> #[trigger] final(train).route().legs@[i] == {
            let leg = route.legs@[i];
            let intention = if i < route.free_until(&*old(track_locks), switches@) { LegIntention::Pass } else { LegIntention::Stop };
            with_intention(leg, intention, leg.intention_synced && leg.intention == intention)
        },
        final(track_locks).locked_tracks@ == updated_tracks(&route, &*old(track_locks), switches@),
        r.0 == !(final(track_locks).locked_tracks@ == old(track_locks).locked_tracks@
            && final(track_locks).locked_switch_motors@ == old(track_locks).locked_switch_motors@),
        ble_commands_enabled ==> calls_are(
            r.2.hub_events@,
            call_each(all_hub_ids(ble_train), "new_route"@, Seq::empty()) + crate::ble_train::route_leg_calls(
                all_hub_ids(ble_train),
                final(train).route().legs@,
            ),
        ),
        !ble_commands_enabled ==> r.2.hub_events@.len() == 0,
{
    train.position = Position::Route(route);
    let (changed, events) = update_train_route(train, track_locks, switches);
    if ble_commands_enabled {
        let commands = ble_train.download_route(train.get_route());
        (changed, events, commands)
    } else {
        (changed, events, HubCommands { hub_events: Vec::new() })
    }
}

/// Two sets of locks with the same contents.
pub open spec fn same_views(a: &TrackLocks, b: &TrackLocks) -> bool {
    a.locked_tracks@ == b.locked_tracks@ && a.locked_switch_motors@ == b.locked_switch_motors@
}

proof fn lemma_first_blocked_views(
    a: &TrackLocks,
    b: &TrackLocks,
    switches: Map<crate::layout_primitives::DirectedTrackID, crate::switch::Switch>,
    train: TrainID,
    legs: Seq<crate::route::RouteLeg>,
    i: int,
)
    requires
        same_views(a, b),
    ensures
        crate::route::first_blocked(a, switches, train, legs, i) == crate::route::first_blocked(b, switches, train, legs, i),
    decreases legs.len() - i,
{
    if i < legs.len() {
        lemma_first_blocked_views(a, b, switches, train, legs, i + 1);
    }
}

/// Whether a route can be brought up to date depends on what the locks
/// hold only.
proof fn lemma_update_ok_views(
    route: &Route,
    a: &TrackLocks,
    b: &TrackLocks,
    switches: Map<crate::layout_primitives::DirectedTrackID, crate::switch::Switch>,
)
    requires
        same_views(a, b),
    ensures
        route_update_ok(route, a, switches) == route_update_ok(route, b, switches),
        route.free_until(a, switches) == route.free_until(b, switches),
{
    lemma_first_blocked_views(a, b, switches, route.train_id, route.legs@, route.leg_index as int);
}

/// The switch positions that bringing the first `k` routes up to date
/// sets, one route after the other, each against the same locks.
pub open spec fn routes_update_events(
    trains: Seq<Train>,
    locks: &TrackLocks,
    switches: Map<crate::layout_primitives::DirectedTrackID, crate::switch::Switch>,
    k: int,
) -> Seq<SetSwitchPositionMessage>
    decreases k,
{
    if k <= 0 {
        Seq::empty()
    } else {
        routes_update_events(trains, locks, switches, k - 1) + route_update_events(&trains[k - 1].route(), locks, switches)
    }
}

/// Brings every train's route up to date in turn, stopping at the first
/// whose locks change. Returns whether one did, and the switch positions
/// to set.
pub fn update_routes(trains: &mut Vec<Train>, track_locks: &mut TrackLocks, switches: &SwitchMap) -> (r: (bool, Vec<SetSwitchPositionMessage>))
    requires
        forall|i: int| 0 <= i < old(trains)@.len() ==> (#[trigger] old(trains)@[i]).position is Route
            && route_update_ok(&old(trains)@[i].route(), &*old(track_locks), switches@),
    ensures
        final(trains)@.len() == old(trains)@.len(),
        exists|k: int|
            0 <= k <= old(trains)@.len()
            && (forall|j: int| 0 <= j < k ==> train_route_updated(#[trigger] old(trains)@[j], final(trains)@[j], &*old(track_locks), switches@))
            && (forall|j: int| k <= j < old(trains)@.len() ==> #[trigger] final(trains)@[j] == old(trains)@[j])
            && r.1@ == routes_update_events(old(trains)@, &*old(track_locks), switches@, k)
            && (r.0 ==> k >= 1 && !same_views(&*final(track_locks), &*old(track_locks))
                && final(track_locks).locked_tracks@ == updated_tracks(&old(trains)@[k - 1].route(), &*old(track_locks), switches@))
            && (!r.0 ==> k == old(trains)@.len() && same_views(&*final(track_locks), &*old(track_locks))),
{
    let ghost start = *track_locks;
    let mut events: Vec<SetSwitchPositionMessage> = Vec::new();
    let n = trains.len();
    let mut i: usize = 0;
    while i < n
        invariant
            0 <= i <= n,
            n == trains@.len(),
            n == old(trains)@.len(),
            start == *old(track_locks),
            same_views(&*track_locks, &start),
            forall|j: int| 0 <= j < i ==> train_route_updated(#[trigger] old(trains)@[j], trains@[j], &start, switches@),
            forall|j: int| i <= j < n ==> #[trigger] trains@[j] == old(trains)@[j],
            forall|j: int| 0 <= j < old(trains)@.len() ==> (#[trigger] old(trains)@[j]).position is Route
                && route_update_ok(&old(trains)@[j].route(), &start, switches@),
            events@ == routes_update_events(old(trains)@, &start, switches@, i as int),
        decreases n - i,
    {
        proof {
            lemma_update_ok_views(&old(trains)@[i as int].route(), &start, &*track_locks, switches@);
        }
        let ghost locks_before = *track_locks;
        let (changed, mut more) = update_train_route(&mut trains[i], track_locks, switches);
        let ghost more_view = more@;
        events.append(&mut more);
        proof {
            assert(events@ == routes_update_events(old(trains)@, &start, switches@, i + 1));
        }
        if changed {
            proof {
                assert(train_route_updated(old(trains)@[i as int], trains@[i as int], &start, switches@));
                assert(0 <= i + 1 <= old(trains)@.len()
                    && (forall|j: int| 0 <= j < i + 1 ==> train_route_updated(#[trigger] old(trains)@[j], trains@[j], &*old(track_locks), switches@))
                    && (forall|j: int| i + 1 <= j < old(trains)@.len() ==> #[trigger] trains@[j] == old(trains)@[j]));
            }
            return (true, events);
        }
        i = i + 1;
    }
    proof {
        assert(0 <= n <= old(trains)@.len()
            && (forall|j: int| 0 <= j < n ==> train_route_updated(#[trigger] old(trains)@[j], trains@[j], &*old(track_locks), switches@))
            && (forall|j: int| n <= j < old(trains)@.len() ==> #[trigger] trains@[j] == old(trains)@[j]));
    }
    (false, events)
}

/// The route built along a section: what `build_route` promises of it.
pub open spec fn built_route(
    r: &Route,
    train_id: TrainID,
    s: Seq<LogicalTrackID>,
    markers: Map<TrackID, Marker>,
    blocks: Map<BlockID, Block>,
    marker_map: &MarkerMap,
) -> bool {
    &&& r.train_id == train_id
    &&& r.leg_index == 0
    &&& r.legs@.len() == split_pieces(s, in_marker_tracks(marker_map)).len()
    &&& forall|k: int| 0 <= k < r.legs@.len() ==> crate::route::leg_built(
        &#[trigger] r.legs@[k],
        split_pieces(s, in_marker_tracks(marker_map))[k],
        markers,
        blocks,
        marker_map,
    )
    &&& r.legs@[0].index == r.legs@[0].markers@.len() - 1
    &&& forall|k: int| 0 < k < r.legs@.len() ==> (#[trigger] r.legs@[k]).index == 0
}

/// Places a new train in its block: it gets the route of that block
/// (under the number of trains there are so far), its route is brought up
/// to date, and its entity is registered. Returns the train, whether the
/// locks changed, and the switch positions to set.
pub fn spawn_train<E: Copy>(
    train: Train,
    entity: E,
    track_locks: &mut TrackLocks,
    entity_map: &mut EntityMap<E>,
    marker_map: &MarkerMap,
    markers: &KeyedMap<TrackID, Marker>,
    blocks: &KeyedMap<BlockID, Block>,
    switches: &SwitchMap,
) -> (r: (Train, bool, Vec<SetSwitchPositionMessage>))
    requires
        train.position is Block,
        !old(entity_map).trains@.contains_key(train.id),
        route_buildable(block_route_section(train.position->Block_0), markers@, blocks@, marker_map),
        forall|route: Route| #[trigger] built_route(
            &route,
            TrainID { id: old(entity_map).trains@.dom().len() as usize },
            block_route_section(train.position->Block_0),
            markers@,
            blocks@,
            marker_map,
        ) ==> route_update_ok(&route, &*old(track_locks), switches@),
    ensures
        r.0.id == train.id,
        r.0.position is Route,
        r.0.route().train_id == (TrainID { id: old(entity_map).trains@.dom().len() as usize }),
        final(entity_map).trains@ == old(entity_map).trains@.insert(train.id, entity),
        EntityMap::unchanged_except(&*old(entity_map), &*final(entity_map), EntityTable::Trains),
        r.1 == !same_views(&*final(track_locks), &*old(track_locks)),
{
    let mut train = train;
    let block_id = match train.position {
        Position::Block(b) => b,
        _ => vstd::pervasive::unreached(),
    };
    let train_id = TrainID::new(entity_map.trains.len());
    assert(train_id == TrainID { id: entity_map.trains@.dom().len() as usize });
    let route = block_route(block_id, train_id, markers, blocks, marker_map);
    assert(built_route(
        &route,
        TrainID { id: entity_map.trains@.dom().len() as usize },
        block_route_section(block_id),
        markers@,
        blocks@,
        marker_map,
    ));
    assert(route_update_ok(&route, &*track_locks, switches@));
    train.position = Position::Route(route);
    let (changed, events) = update_train_route(&mut train, track_locks, switches);
    entity_map.add_train(train.id, entity);
    (train, changed, events)
}

/// How a train sent to a destination picks among the routes to its blocks.
#[derive(Clone, Copy, Debug, PartialEq, Eq, Structural)]
pub enum TargetChoiceStrategy {
    Random,
    Closest,
}

/// `rand`'s `SliceRandom::shuffle` with the thread-local generator: puts
/// the items in an order drawn at random. Stated: the items stay the same,
/// each as often as before; which order comes out is left unsaid.
#[verifier::external_body]
fn shuffle_indices(order: &mut Vec<usize>)
    ensures
        final(order)@.to_multiset() == old(order)@.to_multiset(),
{
    order.shuffle(&mut rand::rng());
}

/// Which of `n` candidate routes a train sent to a random target takes:
/// the candidates are put in a random order and the first is taken. There
/// is one exactly when there is a candidate, and it is one of them.
pub fn pick_random_route(n: usize) -> (r: Option<usize>)
    ensures
        r is None <==> n == 0,
        r matches Some(i) ==> i < n,
{
    let mut order: Vec<usize> = Vec::new();
    let mut i: usize = 0;
    while i < n
        invariant
            i <= n,
            order@.len() == i,
            forall|k: int| 0 <= k < i ==> order@[k] == k,
        decreases n - i,
    {
        order.push(i);
        i = i + 1;
    }
    let ghost before = order@;
    shuffle_indices(&mut order);
    proof {
        broadcast use vstd::seq_lib::group_to_multiset_ensures;
        assert(order@.to_multiset().len() == order@.len());
        assert(before.to_multiset().len() == before.len());
    }
    if order.len() == 0 {
        None
    } else {
        let first = order[0];
        proof {
            broadcast use vstd::seq_lib::group_to_multiset_ensures;
            assert(order@.contains(first));
            assert(before.to_multiset().count(first) > 0);
            assert(before.contains(first));
        }
        Some(first)
    }
}

} // verus!
