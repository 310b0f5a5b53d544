//! A train's Bluetooth hubs: the messages they send, the commands they are
//! sent (run, stop, a route to follow, leg intentions), and their
//! configuration.
use vstd::prelude::*;
use crate::hub::{HubCommand, HubCommandMessage, HubConfiguration, HubInput, IOMessage};
use crate::keyed::KeyedMap;
use crate::layout_primitives::{hub_port_index, Facing, HubID, HubPort, TrainID};
use crate::marker::{color_code, speed_code, MarkerColor, MarkerSpeed};
use crate::route::{intention_flag, leg_train_data, LegIntention, Route, RouteLeg};
use crate::train::MarkerAdvanceEvent;
use crate::hub::be_u16;
use crate::hub::u16_from_be_bytes;

verus! {

/// What a train hub reports.
#[derive(Debug)]
pub enum TrainData {
    RouteComplete(u8),
    LegAdvance(u8),
    SensorAdvance(u8),
    UnexpectedMarker { expected_color: MarkerColor, actual_color: MarkerColor, chroma: u16, hue: u16, samples: u16 },
    ReportDevices { has_sensor: bool, num_motors: u8 },
    Dump(u8, Vec<u8>),
}

/// Whether a byte names a marker colour.
pub open spec fn is_color_code(b: u8) -> bool {
    exists|c: MarkerColor| color_code(c) == b
}

pub open spec fn color_of_code(b: u8) -> MarkerColor {
    choose|c: MarkerColor| color_code(c) == b
}

/// The data messages a train hub can send carry enough bytes, and colours
/// that exist; a train hub sends no system notices here.
pub open spec fn train_message_ok(msg: IOMessage) -> bool {
    match msg {
        IOMessage::Data { id, data } => {
            &&& (id == 1 || id == 2 || id == 3) ==> data@.len() >= 1
            &&& id == 4 ==> data@.len() >= 8 && is_color_code(data@[0]) && is_color_code(data@[1])
            &&& id == 5 ==> data@.len() >= 2
        },
        IOMessage::Sys { .. } => false,
        IOMessage::Dump { .. } => true,
    }
}

fn copy_bytes(v: &Vec<u8>) -> (r: Vec<u8>)
    ensures
        r@ == v@,
{
    let mut r: Vec<u8> = Vec::new();
    let mut i: usize = 0;
    while i < v.len()
        invariant
            0 <= i <= v@.len(),
            r@ == v@.subrange(0, i as int),
        decreases v@.len() - i,
    {
        r.push(v[i]);
        assert(v@.subrange(0, i + 1) =~= v@.subrange(0, i as int).push(v@[i as int]));
        i = i + 1;
    }
    assert(v@.subrange(0, v@.len() as int) =~= v@);
    r
}

impl TrainData {
    /// The report a train hub's message carries: by the data id, a route
    /// completed, a leg or marker passed, a marker of the wrong colour, the
    /// devices found; or a dump.
    pub fn from_io_message(msg: &IOMessage) -> (r: Option<TrainData>)
        requires
            train_message_ok(*msg),
        ensures
            match *msg {
                IOMessage::Data { id, data } => if id == 1 {
                    r matches Some(TrainData::RouteComplete(b)) && b == data@[0]
                } else if id == 2 {
                    r matches Some(TrainData::LegAdvance(b)) && b == data@[0]
                } else if id == 3 {
                    r matches Some(TrainData::SensorAdvance(b)) && b == data@[0]
                } else if id == 4 {
                    r matches Some(TrainData::UnexpectedMarker { expected_color, actual_color, chroma, hue, samples })
                        && color_code(expected_color) == data@[0] && color_code(actual_color) == data@[1]
                        && chroma == be_u16(data@[2], data@[3]) && hue == be_u16(data@[4], data@[5])
                        && samples == be_u16(data@[6], data@[7])
                } else if id == 5 {
                    r matches Some(TrainData::ReportDevices { has_sensor, num_motors }) && has_sensor == (data@[0] != 0)
                        && num_motors == data@[1]
                } else {
                    r is None
                },
                IOMessage::Dump { id, data } => r matches Some(TrainData::Dump(i, d)) && i == id && d@ == data@,
                IOMessage::Sys { .. } => false,
            },
    {
        match msg {
            IOMessage::Data { id, data } => {
                if *id == 1 {
                    Some(TrainData::RouteComplete(data[0]))
                } else if *id == 2 {
                    Some(TrainData::LegAdvance(data[0]))
                } else if *id == 3 {
                    Some(TrainData::SensorAdvance(data[0]))
                } else if *id == 4 {
                    let expected = MarkerColor::from_train_u8(data[0]);
                    let actual = MarkerColor::from_train_u8(data[1]);
                    match (expected, actual) {
                        (Some(expected_color), Some(actual_color)) => Some(TrainData::UnexpectedMarker {
                            expected_color,
                            actual_color,
                            chroma: u16_from_be_bytes(data[2], data[3]),
                            hue: u16_from_be_bytes(data[4], data[5]),
                            samples: u16_from_be_bytes(data[6], data[7]),
                        }),
                        _ => {
                            proof {
                                let c0 = choose|c: MarkerColor| color_code(c) == data@[0];
                                let c1 = choose|c: MarkerColor| color_code(c) == data@[1];
                            }
                            None
                        },
                    }
                } else if *id == 5 {
                    Some(TrainData::ReportDevices { has_sensor: data[0] != 0, num_motors: data[1] })
                } else {
                    None
                }
            },
            IOMessage::Sys { .. } => {
                proof {
                    assert(false);
                }
                None
            },
            IOMessage::Dump { id, data } => Some(TrainData::Dump(*id, copy_bytes(data))),
        }
    }
}

/// One hub of a train, and which of its motor ports run reversed.
#[derive(Debug)]
pub struct TrainHub {
    pub hub_id: Option<HubID>,
    pub inverted_ports: Vec<HubPort>,
}

impl TrainHub {
    /// Drops the `i`-th inverted port, as the train panel's "Remove" does.
    pub fn remove_inverted_port(&mut self, i: usize)
        requires
            i < old(self).inverted_ports@.len(),
        ensures
            final(self).hub_id == old(self).hub_id,
            final(self).inverted_ports@ == old(self).inverted_ports@.remove(i as int),
    {
        self.inverted_ports.remove(i);
    }
}

impl Default for TrainHub {
    fn default() -> (r: Self)
        ensures
            r.hub_id is None,
            r.inverted_ports@.len() == 0,
    {
        TrainHub { hub_id: None, inverted_ports: Vec::new() }
    }
}

/// Commands for hubs, in the order they are to be sent.
pub struct HubCommands {
    pub hub_events: Vec<HubCommandMessage>,
}

impl HubCommands {
    fn new() -> (r: Self)
        ensures
            r.hub_events@.len() == 0,
    {
        HubCommands { hub_events: Vec::new() }
    }

    fn merge(&mut self, other: HubCommands)
        ensures
            final(self).hub_events@ == old(self).hub_events@ + other.hub_events@,
    {
        let mut other = other;
        self.hub_events.append(&mut other.hub_events);
    }
}

/// A command that calls a function of the hub's program.
pub open spec fn is_rpc(c: HubCommandMessage) -> bool {
    c.command matches HubCommand::QueueInput(HubInput::Rpc { .. })
}

/// The hub, function name and arguments of a call.
pub open spec fn rpc_view(c: HubCommandMessage) -> (HubID, Seq<char>, Seq<u8>) {
    match c.command {
        HubCommand::QueueInput(HubInput::Rpc { name, args }) => (c.hub_id, name@, args@),
        _ => (c.hub_id, Seq::empty(), Seq::empty()),
    }
}

/// The commands are calls, and these are their hubs, names and arguments.
pub open spec fn calls_are(cs: Seq<HubCommandMessage>, calls: Seq<(HubID, Seq<char>, Seq<u8>)>) -> bool {
    &&& cs.len() == calls.len()
    &&& forall|i: int| 0 <= i < cs.len() ==> is_rpc(#[trigger] cs[i]) && rpc_view(cs[i]) == calls[i]
}

/// The same call on each of the hubs.
pub open spec fn call_each(hubs: Seq<HubID>, name: Seq<char>, args: Seq<u8>) -> Seq<(HubID, Seq<char>, Seq<u8>)> {
    hubs.map_values(|h: HubID| (h, name, args))
}

/// The hubs the puppets have, in order.
pub open spec fn puppet_hub_ids(puppets: Seq<TrainHub>) -> Seq<HubID>
    decreases puppets.len(),
{
    if puppets.len() == 0 {
        Seq::empty()
    } else {
        let rest = puppet_hub_ids(puppets.drop_last());
        match puppets.last().hub_id {
            Some(h) => rest.push(h),
            None => rest,
        }
    }
}

/// The train's master hub, if it has one, then its puppets' hubs.
pub open spec fn all_hub_ids(t: &BLETrain) -> Seq<HubID> {
    (match t.master_hub.hub_id {
        Some(h) => seq![h],
        None => Seq::empty(),
    }) + puppet_hub_ids(t.puppets@)
}

/// The calls that load a route onto the hubs: one per leg, with the leg's
/// number and data.
pub open spec fn route_leg_calls(hubs: Seq<HubID>, legs: Seq<RouteLeg>) -> Seq<(HubID, Seq<char>, Seq<u8>)>
    decreases legs.len(),
{
    if legs.len() == 0 {
        Seq::empty()
    } else {
        route_leg_calls(hubs, legs.drop_last()) + call_each(
            hubs,
            "set_route_leg"@,
            seq![((legs.len() - 1) as int) as u8] + leg_train_data(&legs.last()),
        )
    }
}

/// The byte that tells a train how to run: facing in the high nibble,
/// speed in the low one.
pub open spec fn run_arg(facing: Facing, speed: MarkerSpeed) -> u8 {
    (((if facing == Facing::Forward { 0u8 } else { 1u8 }) << 4u8) | speed_code(speed)) as u8
}

/// The values every hub of a train is configured with.
pub open spec fn train_config_values(t: &BLETrain, ports: Seq<HubPort>) -> Map<u8, u32> {
    map![
        4u8 => t.slow_speed as u32,
        5u8 => t.cruise_speed as u32,
        3u8 => t.fast_speed as u32,
        1u8 => t.acceleration as u32,
        2u8 => t.deceleration as u32,
        0u8 => t.chroma_threshold as u32,
    ].union_prefer_right(Map::new(
        |a: u8| exists|p: HubPort| ports.contains(p) && a == 6 + hub_port_index(p),
        |a: u8| 1u32,
    ))
}

/// The configuration of each hub of the train; a hub listed twice gets
/// the configuration of its last listing.
pub open spec fn train_configs(t: &BLETrain, hubs: Seq<TrainHub>) -> Map<HubID, Map<u8, u32>>
    decreases hubs.len(),
{
    if hubs.len() == 0 {
        Map::empty()
    } else {
        let rest = train_configs(t, hubs.drop_last());
        match hubs.last().hub_id {
            Some(h) => rest.insert(h, train_config_values(t, hubs.last().inverted_ports@)),
            None => rest,
        }
    }
}

/// A train's hubs and its driving settings.
pub struct BLETrain {
    pub master_hub: TrainHub,
    pub puppets: Vec<TrainHub>,
    pub train_id: TrainID,
    pub slow_speed: u16,
    pub cruise_speed: u16,
    pub fast_speed: u16,
    pub acceleration: u16,
    pub deceleration: u16,
    pub chroma_threshold: u16,
}

/// Two trains agree in everything but their puppet hubs.
pub open spec fn same_but_puppets(a: BLETrain, b: BLETrain) -> bool {
    &&& a.master_hub == b.master_hub
    &&& a.train_id == b.train_id
    &&& a.slow_speed == b.slow_speed
    &&& a.cruise_speed == b.cruise_speed
    &&& a.fast_speed == b.fast_speed
    &&& a.acceleration == b.acceleration
    &&& a.deceleration == b.deceleration
    &&& a.chroma_threshold == b.chroma_threshold
}

impl BLETrain {
    /// Adds a puppet hub with no hub chosen yet, as the train panel's "Add
    /// hub" does.
    pub fn add_puppet(&mut self)
        ensures
            final(self).puppets@.len() == old(self).puppets@.len() + 1,
            final(self).puppets@.take(old(self).puppets@.len() as int) == old(self).puppets@,
            final(self).puppets@.last().hub_id is None,
            final(self).puppets@.last().inverted_ports@.len() == 0,
            same_but_puppets(*old(self), *final(self)),
    {
        self.puppets.push(TrainHub::default());
    }

    /// Drops the `i`-th puppet hub, as the train panel's "Remove" does.
    pub fn remove_puppet(&mut self, i: usize)
        requires
            i < old(self).puppets@.len(),
        ensures
            final(self).puppets@ == old(self).puppets@.remove(i as int),
            same_but_puppets(*old(self), *final(self)),
    {
        self.puppets.remove(i);
    }
}

impl BLETrain {
    pub fn new(train_id: TrainID) -> (r: Self)
        ensures
            r.master_hub.hub_id is None,
            r.master_hub.inverted_ports@.len() == 0,
            r.puppets@.len() == 0,
            r.train_id == train_id,
            r.slow_speed == 40,
            r.cruise_speed == 70,
            r.fast_speed == 100,
            r.acceleration == 40,
            r.deceleration == 90,
            r.chroma_threshold == 3500,
    {
        BLETrain {
            master_hub: TrainHub::default(),
            puppets: Vec::new(),
            train_id,
            slow_speed: 40,
            cruise_speed: 70,
            fast_speed: 100,
            acceleration: 40,
            deceleration: 90,
            chroma_threshold: 3500,
        }
    }

    pub fn iter_puppets(&self) -> (r: Vec<HubID>)
        ensures
            r@ == puppet_hub_ids(self.puppets@),
    {
        let mut r: Vec<HubID> = Vec::new();
        let mut i: usize = 0;
        while i < self.puppets.len()
            invariant
                0 <= i <= self.puppets@.len(),
                r@ == puppet_hub_ids(self.puppets@.subrange(0, i as int)),
            decreases self.puppets@.len() - i,
        {
            proof {
                assert(self.puppets@.subrange(0, i + 1).drop_last() =~= self.puppets@.subrange(0, i as int));
            }
            match self.puppets[i].hub_id {
                Some(h) => r.push(h),
                None => {},
            }
            i = i + 1;
        }
        assert(self.puppets@.subrange(0, self.puppets@.len() as int) =~= self.puppets@);
        r
    }

    pub fn iter_all_hubs(&self) -> (r: Vec<HubID>)
        ensures
            r@ == all_hub_ids(self),
    {
        let mut r: Vec<HubID> = Vec::new();
        match self.master_hub.hub_id {
            Some(h) => r.push(h),
            None => {},
        }
        let mut puppets = self.iter_puppets();
        r.append(&mut puppets);
        assert(r@ =~= all_hub_ids(self));
        r
    }

    /// The call sent to every hub of the train.
    fn all_command(&self, name: &str, args: &Vec<u8>) -> (r: HubCommands)
        ensures
            calls_are(r.hub_events@, call_each(all_hub_ids(self), name@, args@)),
    {
        let hubs = self.iter_all_hubs();
        let mut command = HubCommands::new();
        let mut i: usize = 0;
        while i < hubs.len()
            invariant
                0 <= i <= hubs@.len(),
                hubs@ == all_hub_ids(self),
                calls_are(command.hub_events@, call_each(hubs@.subrange(0, i as int), name@, args@)),
            decreases hubs@.len() - i,
        {
            let input = HubInput::Rpc { name: name.to_owned(), args: copy_bytes(args) };
            command.hub_events.push(HubCommandMessage::input(hubs[i], input));
            assert(call_each(hubs@.subrange(0, i + 1), name@, args@) =~= call_each(hubs@.subrange(0, i as int), name@, args@).push(
                (hubs@[i as int], name@, args@),
            ));
            i = i + 1;
        }
        assert(hubs@.subrange(0, hubs@.len() as int) =~= hubs@);
        command
    }

    /// The call sent to the puppet hubs only.
    fn puppet_command(&self, name: &str, args: &Vec<u8>) -> (r: HubCommands)
        ensures
            calls_are(r.hub_events@, call_each(puppet_hub_ids(self.puppets@), name@, args@)),
    {
        let hubs = self.iter_puppets();
        let mut command = HubCommands::new();
        let mut i: usize = 0;
        while i < hubs.len()
            invariant
                0 <= i <= hubs@.len(),
                hubs@ == puppet_hub_ids(self.puppets@),
                calls_are(command.hub_events@, call_each(hubs@.subrange(0, i as int), name@, args@)),
            decreases hubs@.len() - i,
        {
            let input = HubInput::Rpc { name: name.to_owned(), args: copy_bytes(args) };
            command.hub_events.push(HubCommandMessage::input(hubs[i], input));
            assert(call_each(hubs@.subrange(0, i + 1), name@, args@) =~= call_each(hubs@.subrange(0, i as int), name@, args@).push(
                (hubs@[i as int], name@, args@),
            ));
            i = i + 1;
        }
        assert(hubs@.subrange(0, hubs@.len() as int) =~= hubs@);
        command
    }

    /// The call sent to the master hub; the train must have one.
    fn master_command(&self, name: &str, args: &Vec<u8>) -> (r: HubCommands)
        requires
            self.master_hub.hub_id is Some,
        ensures
            calls_are(r.hub_events@, seq![(self.master_hub.hub_id->0, name@, args@)]),
    {
        let mut command = HubCommands::new();
        let input = HubInput::Rpc { name: name.to_owned(), args: copy_bytes(args) };
        command.hub_events.push(HubCommandMessage::input(self.master_hub.hub_id.unwrap(), input));
        command
    }

    /// Run facing and at a speed.
    pub fn run_command(&self, facing: Facing, speed: MarkerSpeed) -> (r: HubCommands)
        ensures
            calls_are(r.hub_events@, call_each(all_hub_ids(self), "run"@, seq![run_arg(facing, speed)])),
    {
        let arg: u8 = (facing.as_train_flag() << 4u8) | speed.as_train_u8();
        let args = vec![arg];
        assert(args@ =~= seq![run_arg(facing, speed)]);
        self.all_command("run", &args)
    }

    pub fn stop_command(&self) -> (r: HubCommands)
        ensures
            calls_are(r.hub_events@, call_each(all_hub_ids(self), "stop"@, Seq::empty())),
    {
        let args: Vec<u8> = Vec::new();
        self.all_command("stop", &args)
    }

    /// Loads the route onto every hub: a fresh route, then each leg with
    /// its number.
    pub fn download_route(&self, route: &Route) -> (r: HubCommands)
        requires
            forall|i: int| 0 <= i < route.legs@.len() ==> (#[trigger] route.legs@[i]).markers@.len() > 0
                && route.legs@[i].travel_section.tracks@.len() > 0,
        ensures
            calls_are(
                r.hub_events@,
                call_each(all_hub_ids(self), "new_route"@, Seq::empty()) + route_leg_calls(all_hub_ids(self), route.legs@),
            ),
    {
        let no_args: Vec<u8> = Vec::new();
        let mut command = self.all_command("new_route", &no_args);
        let legs = route.iter_legs();
        let mut i: usize = 0;
        while i < legs.len()
            invariant
                0 <= i <= legs@.len(),
                legs@ == route.legs@,
                forall|k: int| 0 <= k < route.legs@.len() ==> (#[trigger] route.legs@[k]).markers@.len() > 0
                    && route.legs@[k].travel_section.tracks@.len() > 0,
                calls_are(
                    command.hub_events@,
                    call_each(all_hub_ids(self), "new_route"@, Seq::empty()) + route_leg_calls(all_hub_ids(self), legs@.subrange(0, i as int)),
                ),
            decreases legs@.len() - i,
        {
            let leg = &legs[i];
            assert(route.legs@[i as int].markers@.len() > 0);
            let mut args: Vec<u8> = vec![i as u8];
            let mut data = leg.as_train_data();
            args.append(&mut data);
            let more = self.all_command("set_route_leg", &args);
            let ghost before = command.hub_events@;
            command.merge(more);
            proof {
                let sub = legs@.subrange(0, i + 1);
                assert(sub.drop_last() =~= legs@.subrange(0, i as int));
                assert(sub.last() == legs@[i as int]);
                assert(args@ =~= seq![((sub.len() - 1) as int) as u8] + leg_train_data(&sub.last()));
                let expected = call_each(all_hub_ids(self), "new_route"@, Seq::empty()) + route_leg_calls(all_hub_ids(self), sub);
                assert(expected =~= call_each(all_hub_ids(self), "new_route"@, Seq::empty()) + route_leg_calls(
                    all_hub_ids(self),
                    legs@.subrange(0, i as int),
                ) + call_each(all_hub_ids(self), "set_route_leg"@, args@));
                assert forall|k: int| 0 <= k < command.hub_events@.len() implies is_rpc(#[trigger] command.hub_events@[k])
                    && rpc_view(command.hub_events@[k]) == expected[k] by {
                    if k < before.len() {
                        assert(command.hub_events@[k] == before[k]);
                    } else {
                        assert(command.hub_events@[k] == more.hub_events@[k - before.len()]);
                    }
                }
            }
            i = i + 1;
        }
        assert(legs@.subrange(0, legs@.len() as int) =~= legs@);
        command
    }

    /// Tells every hub whether the train passes or stops at the end of a
    /// leg.
    pub fn set_leg_intention(&self, leg_index: u8, intention: LegIntention) -> (r: HubCommands)
        ensures
            calls_are(r.hub_events@, call_each(all_hub_ids(self), "set_leg_intention"@, seq![leg_index, intention_flag(intention)])),
    {
        let args = vec![leg_index, intention.as_train_flag()];
        assert(args@ =~= seq![leg_index, intention_flag(intention)]);
        self.all_command("set_leg_intention", &args)
    }

    /// Tells the puppet hubs that the master has passed a marker.
    pub fn advance_sensor(&self) -> (r: HubCommands)
        ensures
            calls_are(r.hub_events@, call_each(puppet_hub_ids(self.puppets@), "advance_sensor"@, Seq::empty())),
    {
        let args: Vec<u8> = Vec::new();
        self.puppet_command("advance_sensor", &args)
    }
}

fn ports_contain(ports: &Vec<HubPort>, port: HubPort) -> (r: bool)
    ensures
        r == ports@.contains(port),
{
    let mut i: usize = 0;
    while i < ports.len()
        invariant
            0 <= i <= ports@.len(),
            forall|k: int| 0 <= k < i ==> ports@[k] != port,
        decreases ports@.len() - i,
    {
        if ports[i] == port {
            assert(ports@[i as int] == port);
            return true;
        }
        i = i + 1;
    }
    false
}

/// The inverted-port flags among the first `n` ports.
pub open spec fn inverted_flags(ports: Seq<HubPort>, all: Seq<HubPort>, n: int) -> Map<u8, u32> {
    Map::new(
        |a: u8| exists|k: int| 0 <= k < n && ports.contains(all[k]) && a == 6 + hub_port_index(all[k]),
        |a: u8| 1u32,
    )
}

impl BLETrain {
    /// The configuration of one hub of the train.
    fn hub_config(&self, hub: &TrainHub) -> (r: HubConfiguration)
        ensures
            r@ == train_config_values(self, hub.inverted_ports@),
    {
        let mut config = HubConfiguration::new();
        config.add_value(4, self.slow_speed as u32);
        config.add_value(5, self.cruise_speed as u32);
        config.add_value(3, self.fast_speed as u32);
        config.add_value(1, self.acceleration as u32);
        config.add_value(2, self.deceleration as u32);
        config.add_value(0, self.chroma_threshold as u32);
        let ghost base = map![
            4u8 => self.slow_speed as u32,
            5u8 => self.cruise_speed as u32,
            3u8 => self.fast_speed as u32,
            1u8 => self.acceleration as u32,
            2u8 => self.deceleration as u32,
            0u8 => self.chroma_threshold as u32,
        ];
        assert(config@ =~= base);
        let all = HubPort::iter();
        let mut i: usize = 0;
        while i < all.len()
            invariant
                0 <= i <= all@.len(),
                all@ == seq![HubPort::A, HubPort::B, HubPort::C, HubPort::D, HubPort::E, HubPort::F],
                config@ == base.union_prefer_right(inverted_flags(hub.inverted_ports@, all@, i as int)),
            decreases all@.len() - i,
        {
            let port = all[i];
            let inverted: u32 = if ports_contain(&hub.inverted_ports, port) { 1 } else { 0 };
            if inverted != 0 {
                config.add_value(6 + port.to_u8(), inverted);
            }
            assert(config@ =~= base.union_prefer_right(inverted_flags(hub.inverted_ports@, all@, i + 1))) by {
                assert forall|a: u8| #[trigger] inverted_flags(hub.inverted_ports@, all@, i + 1).contains_key(a)
                    == (inverted_flags(hub.inverted_ports@, all@, i as int).contains_key(a)
                        || (hub.inverted_ports@.contains(port) && a == 6 + hub_port_index(port))) by {
                    if inverted_flags(hub.inverted_ports@, all@, i + 1).contains_key(a) {
                        let k = choose|k: int| 0 <= k < i + 1 && hub.inverted_ports@.contains(all@[k]) && a == 6 + hub_port_index(all@[k]);
                        if k < i {
                            assert(inverted_flags(hub.inverted_ports@, all@, i as int).contains_key(a));
                        }
                    }
                    if inverted_flags(hub.inverted_ports@, all@, i as int).contains_key(a) {
                        let k = choose|k: int| 0 <= k < i && hub.inverted_ports@.contains(all@[k]) && a == 6 + hub_port_index(all@[k]);
                        assert(0 <= k < i + 1);
                    }
                }
            }
            i = i + 1;
        }
        assert(config@ =~= train_config_values(self, hub.inverted_ports@)) by {
            assert forall|a: u8| #[trigger] inverted_flags(hub.inverted_ports@, all@, 6).contains_key(a)
                == (exists|p: HubPort| hub.inverted_ports@.contains(p) && a == 6 + hub_port_index(p)) by {
                if exists|p: HubPort| hub.inverted_ports@.contains(p) && a == 6 + hub_port_index(p) {
                    let p = choose|p: HubPort| hub.inverted_ports@.contains(p) && a == 6 + hub_port_index(p);
                    let k: int = match p {
                        HubPort::A => 0,
                        HubPort::B => 1,
                        HubPort::C => 2,
                        HubPort::D => 3,
                        HubPort::E => 4,
                        HubPort::F => 5,
                    };
                    assert(all@[k] == p);
                }
            }
        }
        config
    }

    /// The configuration of each hub of the train, by hub.
    pub fn hubs_configuration(&self) -> (r: KeyedMap<HubID, HubConfiguration>)
        ensures
            r@.dom() == train_configs(self, seq![self.master_hub] + self.puppets@).dom(),
            forall|h: HubID| #[trigger] r@.contains_key(h) ==> r@[h]@ == train_configs(self, seq![self.master_hub] + self.puppets@)[h],
    {
        let ghost hubs = seq![self.master_hub] + self.puppets@;
        let mut configs: KeyedMap<HubID, HubConfiguration> = KeyedMap::new();
        proof {
            assert(hubs.subrange(0, 1).drop_last() =~= hubs.subrange(0, 0));
            assert(hubs.subrange(0, 1).last() == self.master_hub);
            assert(hubs.subrange(0, 0).len() == 0);
            assert(train_configs(self, hubs.subrange(0, 0)) == Map::<HubID, Map<u8, u32>>::empty());
        }
        match self.master_hub.hub_id {
            Some(id) => {
                let config = self.hub_config(&self.master_hub);
                configs.insert(id, config);
            },
            None => {},
        }
        assert(configs@.dom() =~= train_configs(self, hubs.subrange(0, 1)).dom());
        let n = self.puppets.len();
        let mut i: usize = 0;
        while i < n
            invariant
                n == self.puppets@.len(),
                0 <= i <= n,
                hubs == seq![self.master_hub] + self.puppets@,
                configs@.dom() == train_configs(self, hubs.subrange(0, i + 1)).dom(),
                forall|h: HubID| #[trigger] configs@.contains_key(h) ==> configs@[h]@ == train_configs(self, hubs.subrange(0, i + 1))[h],
            decreases n - i,
        {
            let hub = &self.puppets[i];
            assert(*hub == hubs[i + 1]);
            proof {
                assert(hubs.subrange(0, i + 2).drop_last() =~= hubs.subrange(0, i + 1));
            }
            match hub.hub_id {
                Some(id) => {
                    let config = self.hub_config(hub);
                    configs.insert(id, config);
                    assert(configs@.dom() =~= train_configs(self, hubs.subrange(0, i + 2)).dom());
                },
                None => {},
            }
            i = i + 1;
        }
        assert(hubs.subrange(0, (n + 1) as int) =~= hubs);
        configs
    }
}

/// A report from a train's master hub of a marker passed: the train
/// advances there, and its puppet hubs are told.
pub open spec fn sensor_advance_of(t: &BLETrain, hub: HubID, data: &TrainData) -> bool {
    t.master_hub.hub_id == Some(hub) && *data is SensorAdvance
}

/// The marker advances a report from a hub leads to, train by train.
pub open spec fn advances_of(trains: Seq<BLETrain>, hub: HubID, data: &TrainData) -> Seq<MarkerAdvanceEvent>
    decreases trains.len(),
{
    if trains.len() == 0 {
        Seq::empty()
    } else {
        let rest = advances_of(trains.drop_last(), hub, data);
        if sensor_advance_of(&trains.last(), hub, data) {
            rest.push(MarkerAdvanceEvent { id: trains.last().train_id, index: data->SensorAdvance_0 as usize })
        } else {
            rest
        }
    }
}

/// The hub commands a report from a hub leads to, train by train.
pub open spec fn advance_calls_of(trains: Seq<BLETrain>, hub: HubID, data: &TrainData) -> Seq<(HubID, Seq<char>, Seq<u8>)>
    decreases trains.len(),
{
    if trains.len() == 0 {
        Seq::empty()
    } else {
        let rest = advance_calls_of(trains.drop_last(), hub, data);
        if sensor_advance_of(&trains.last(), hub, data) {
            rest + call_each(puppet_hub_ids(trains.last().puppets@), "advance_sensor"@, Seq::empty())
        } else {
            rest
        }
    }
}

/// The marker advances and hub commands a report from a hub leads to.
/// Only a master hub's report of a passed marker leads to anything: the
/// train advances to that marker and its puppets are told; any other
/// report is only logged.
pub fn handle_messages(trains: &Vec<BLETrain>, hub: HubID, data: &TrainData) -> (r: (Vec<MarkerAdvanceEvent>, HubCommands))
    ensures
        r.0@ == advances_of(trains@, hub, data),
        calls_are(r.1.hub_events@, advance_calls_of(trains@, hub, data)),
{
    let mut advances: Vec<MarkerAdvanceEvent> = Vec::new();
    let mut commands = HubCommands::new();
    let mut i: usize = 0;
    while i < trains.len()
        invariant
            0 <= i <= trains@.len(),
            advances@ == advances_of(trains@.subrange(0, i as int), hub, data),
            calls_are(commands.hub_events@, advance_calls_of(trains@.subrange(0, i as int), hub, data)),
        decreases trains@.len() - i,
    {
        let ble_train = &trains[i];
        proof {
            assert(trains@.subrange(0, i + 1).drop_last() =~= trains@.subrange(0, i as int));
        }
        if ble_train.master_hub.hub_id == Some(hub) {
            match data {
                TrainData::SensorAdvance(index) => {
                    advances.push(MarkerAdvanceEvent { id: ble_train.train_id, index: *index as usize });
                    let more = ble_train.advance_sensor();
                    let ghost before = commands.hub_events@;
                    commands.merge(more);
                    proof {
                        let expected = advance_calls_of(trains@.subrange(0, i + 1), hub, data);
                        assert forall|k: int| 0 <= k < commands.hub_events@.len() implies is_rpc(#[trigger] commands.hub_events@[k])
                            && rpc_view(commands.hub_events@[k]) == expected[k] by {
                            if k < before.len() {
                                assert(commands.hub_events@[k] == before[k]);
                            } else {
                                assert(commands.hub_events@[k] == more.hub_events@[k - before.len()]);
                            }
                        }
                    }
                },
                _ => {},
            }
        }
        i = i + 1;
    }
    assert(trains@.subrange(0, trains@.len() as int) =~= trains@);
    (advances, commands)
}

} // verus!
