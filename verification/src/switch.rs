//! Switches: the positions a switch offers and the motors that set them.
use vstd::prelude::*;
use crate::hub::{HubCommand, HubCommandMessage, HubInput, LayoutDevice};
use crate::layout_primitives::hub_port_index;
use crate::switch_motor::motor_position_code;
use crate::keyed::KeyedMap;
use crate::layout_primitives::{DirectedTrackID, LayoutDeviceID, SwitchPosition};
use crate::switch_motor::{MotorPosition, PulseMotor};

verus! {

/// A switch at the end of a directed track.
#[derive(Debug)]
pub struct Switch {
    id: DirectedTrackID,
    positions: Vec<SwitchPosition>,
    pub motors: Vec<Option<LayoutDeviceID>>,
}

/// Set the position of a switch.
#[derive(Clone, Copy, Debug, PartialEq, Eq, Structural)]
pub struct SetSwitchPositionMessage {
    pub id: DirectedTrackID,
    pub position: SwitchPosition,
}

pub open spec fn is_position(p: SwitchPosition) -> spec_fn(SwitchPosition) -> bool {
    |q: SwitchPosition| q == p
}

pub open spec fn count_of(s: Seq<SwitchPosition>, p: SwitchPosition) -> nat {
    s.filter(is_position(p)).len()
}

/// Where `p` first occurs in `s`.
pub open spec fn first_index(s: Seq<SwitchPosition>, p: SwitchPosition) -> int
    decreases s.len(),
{
    if s.len() == 0 || s[0] == p {
        0
    } else {
        1 + first_index(s.drop_first(), p)
    }
}

proof fn lemma_first_index(s: Seq<SwitchPosition>, p: SwitchPosition, i: int)
    requires
        0 <= i < s.len(),
        s[i] == p,
        forall|k: int| 0 <= k < i ==> s[k] != p,
    ensures
        first_index(s, p) == i,
    decreases i,
{
    if i > 0 {
        lemma_first_index(s.drop_first(), p, i - 1);
    }
}

/// The positions in order Left, Center, Right, as often as each occurs.
pub open spec fn sorted_positions(s: Seq<SwitchPosition>) -> Seq<SwitchPosition> {
    Seq::new(count_of(s, SwitchPosition::Left), |i: int| SwitchPosition::Left) + Seq::new(
        count_of(s, SwitchPosition::Center),
        |i: int| SwitchPosition::Center,
    ) + Seq::new(count_of(s, SwitchPosition::Right), |i: int| SwitchPosition::Right)
}

/// The motor positions that set a switch to its `pos_index`-th position:
/// the first motor picks left or not, the second (of a three-way switch)
/// center or right.
pub open spec fn motor_position_for(pos_index: int, motor_index: int) -> MotorPosition {
    if pos_index == 0 {
        MotorPosition::Left
    } else if pos_index == 1 {
        if motor_index == 0 { MotorPosition::Right } else { MotorPosition::Left }
    } else {
        MotorPosition::Right
    }
}

/// The motor positions that mean a switch position, if any.
pub open spec fn position_of_motors(positions: Seq<SwitchPosition>, m: Seq<Option<MotorPosition>>) -> Option<SwitchPosition> {
    if m.len() == 2 {
        match (m[0], m[1]) {
            (Some(MotorPosition::Left), Some(MotorPosition::Left)) => Some(SwitchPosition::Left),
            (Some(MotorPosition::Right), Some(MotorPosition::Right)) => Some(SwitchPosition::Right),
            (Some(MotorPosition::Right), Some(MotorPosition::Left)) => Some(SwitchPosition::Center),
            _ => None,
        }
    } else {
        match m[0] {
            Some(MotorPosition::Left) => Some(positions[0]),
            Some(MotorPosition::Right) => Some(positions[1]),
            _ => None,
        }
    }
}

fn count_positions(v: &Vec<SwitchPosition>, p: SwitchPosition) -> (r: usize)
    ensures
        r == count_of(v@, p),
{
    let mut n: usize = 0;
    let mut i: usize = 0;
    while i < v.len()
        invariant
            0 <= i <= v@.len(),
            n == count_of(v@.subrange(0, i as int), p),
            n <= i,
        decreases v@.len() - i,
    {
        proof {
            assert(v@.subrange(0, i + 1) =~= v@.subrange(0, i as int).push(v@[i as int]));
            v@.subrange(0, i as int).lemma_filter_push(v@[i as int], is_position(p));
        }
        if v[i] == p {
            n = n + 1;
        }
        i = i + 1;
    }
    proof {
        assert(v@.subrange(0, v@.len() as int) =~= v@);
    }
    n
}

fn push_repeated(v: &mut Vec<SwitchPosition>, p: SwitchPosition, n: usize)
    ensures
        final(v)@ == old(v)@ + Seq::new(n as nat, |i: int| p),
{
    let mut i: usize = 0;
    while i < n
        invariant
            0 <= i <= n,
            v@ == old(v)@ + Seq::new(i as nat, |k: int| p),
        decreases n - i,
    {
        v.push(p);
        proof {
            assert(old(v)@ + Seq::new((i + 1) as nat, |k: int| p) =~= (old(v)@ + Seq::new(i as nat, |k: int| p)).push(p));
        }
        i = i + 1;
    }
}

impl Switch {
    pub closed spec fn id_spec(&self) -> DirectedTrackID {
        self.id
    }

    pub closed spec fn positions_spec(&self) -> Seq<SwitchPosition> {
        self.positions@
    }

    pub closed spec fn motor_ids(&self) -> Seq<Option<LayoutDeviceID>> {
        self.motors@
    }

    /// A switch with the given positions (at least one).
    pub fn new(id: DirectedTrackID, positions: Vec<SwitchPosition>) -> (r: Self)
        requires
            positions@.len() >= 1,
        ensures
            r.id_spec() == id,
            r.positions_spec() == sorted_positions(positions@),
            r.motor_ids() == Seq::new((positions@.len() - 1) as nat, |i: int| None::<LayoutDeviceID>),
    {
        let mut switch = Switch { id, positions: Vec::new(), motors: Vec::new() };
        switch.set_positions(positions);
        switch
    }

    /// The positions the switch offers, in order.
    pub fn positions(&self) -> (r: &Vec<SwitchPosition>)
        ensures
            r@ == self.positions_spec(),
    {
        &self.positions
    }

    pub fn id(&self) -> (r: DirectedTrackID)
        ensures
            r == self.id_spec(),
    {
        self.id
    }

    /// Sets the positions (at least one), in order; one motor fewer than
    /// positions, new motors unassigned.
    pub fn set_positions(&mut self, positions: Vec<SwitchPosition>)
        requires
            positions@.len() >= 1,
        ensures
            final(self).id_spec() == old(self).id_spec(),
            final(self).positions_spec() == sorted_positions(positions@),
            final(self).motor_ids().len() == positions@.len() - 1,
            forall|i: int| 0 <= i < final(self).motor_ids().len() ==> final(self).motor_ids()[i] == if i < old(self).motor_ids().len() {
                old(self).motor_ids()[i]
            } else {
                None
            },
    {
        let want = positions.len() - 1;
        let mut motors: Vec<Option<LayoutDeviceID>> = Vec::new();
        let mut i: usize = 0;
        while i < want
            invariant
                0 <= i <= want,
                motors@.len() == i,
                forall|k: int| 0 <= k < i ==> motors@[k] == if k < self.motors@.len() { self.motors@[k] } else { None },
            decreases want - i,
        {
            if i < self.motors.len() {
                motors.push(self.motors[i]);
            } else {
                motors.push(None);
            }
            i = i + 1;
        }
        self.motors = motors;
        let left = count_positions(&positions, SwitchPosition::Left);
        let center = count_positions(&positions, SwitchPosition::Center);
        let right = count_positions(&positions, SwitchPosition::Right);
        let mut sorted: Vec<SwitchPosition> = Vec::new();
        push_repeated(&mut sorted, SwitchPosition::Left, left);
        push_repeated(&mut sorted, SwitchPosition::Center, center);
        push_repeated(&mut sorted, SwitchPosition::Right, right);
        proof {
            assert(sorted@ =~= sorted_positions(positions@));
        }
        self.positions = sorted;
    }

    /// The switch position the motors stand for: with two motors, left-left
    /// is left, right-right right, right-left center; with one motor, left
    /// is the first position and right the second.
    pub fn get_position(&self, motor_positions: &Vec<Option<MotorPosition>>) -> (r: Option<SwitchPosition>)
        requires
            motor_positions@.len() == 2 || (motor_positions@.len() == 1 && self.positions_spec().len() >= 2),
        ensures
            r == position_of_motors(self.positions_spec(), motor_positions@),
    {
        if motor_positions.len() == 2 {
            match (motor_positions[0], motor_positions[1]) {
                (Some(MotorPosition::Left), Some(MotorPosition::Left)) => Some(SwitchPosition::Left),
                (Some(MotorPosition::Right), Some(MotorPosition::Right)) => Some(SwitchPosition::Right),
                (Some(MotorPosition::Right), Some(MotorPosition::Left)) => Some(SwitchPosition::Center),
                _ => None,
            }
        } else {
            match motor_positions[0] {
                Some(MotorPosition::Left) => Some(self.positions[0]),
                Some(MotorPosition::Right) => Some(self.positions[1]),
                _ => None,
            }
        }
    }

    /// Each motor with the position it must take for the switch to stand at
    /// `pos`. The position must be one the switch offers, among its first
    /// three, and the switch has at most two motors.
    pub fn iter_motor_positions(&self, pos: &SwitchPosition) -> (r: Vec<(Option<LayoutDeviceID>, MotorPosition)>)
        requires
            self.positions_spec().contains(*pos),
            first_index(self.positions_spec(), *pos) <= 2,
            self.motor_ids().len() <= 2,
        ensures
            r@.len() == self.motor_ids().len(),
            forall|i: int| 0 <= i < r@.len() ==> (#[trigger] r@[i]) == (self.motor_ids()[i], motor_position_for(
                first_index(self.positions_spec(), *pos),
                i,
            )),
    {
        let mut pos_index: usize = 0;
        while pos_index < self.positions.len() && self.positions[pos_index] != *pos
            invariant
                0 <= pos_index <= self.positions@.len(),
                self.positions@.contains(*pos),
                forall|k: int| 0 <= k < pos_index ==> self.positions@[k] != *pos,
            decreases self.positions@.len() - pos_index,
        {
            pos_index = pos_index + 1;
        }
        proof {
            if pos_index == self.positions@.len() {
                let k = choose|k: int| 0 <= k < self.positions@.len() && self.positions@[k] == *pos;
                assert(false);
            }
            assert(self.positions@[pos_index as int] == *pos);
            lemma_first_index(self.positions@, *pos, pos_index as int);
        }
        let mut r: Vec<(Option<LayoutDeviceID>, MotorPosition)> = Vec::new();
        let mut i: usize = 0;
        while i < self.motors.len()
            invariant
                0 <= i <= self.motors@.len(),
                pos_index as int == first_index(self.positions@, *pos),
                pos_index <= 2,
                r@.len() == i,
                forall|k: int| 0 <= k < i ==> (#[trigger] r@[k]) == (self.motors@[k], motor_position_for(pos_index as int, k)),
            decreases self.motors@.len() - i,
        {
            let position = if pos_index == 0 {
                MotorPosition::Left
            } else if pos_index == 1 {
                if i == 0 { MotorPosition::Right } else { MotorPosition::Left }
            } else {
                MotorPosition::Right
            };
            r.push((self.motors[i], position));
            i = i + 1;
        }
        r
    }
}

/// A switch motor with the device that wires it to a hub.
pub type MotorMap = KeyedMap<LayoutDeviceID, (PulseMotor, LayoutDevice)>;

/// The motors after moving them one after another to their targets, and
/// the moves that were made: a motor that already stands at its target is
/// not moved.
pub open spec fn motor_moves(
    targets: Seq<(Option<LayoutDeviceID>, MotorPosition)>,
    motors: Map<LayoutDeviceID, (PulseMotor, LayoutDevice)>,
) -> (Map<LayoutDeviceID, (PulseMotor, LayoutDevice)>, Seq<(LayoutDevice, MotorPosition)>)
    decreases targets.len(),
{
    if targets.len() == 0 {
        (motors, Seq::empty())
    } else {
        let (m, moves) = motor_moves(targets.drop_last(), motors);
        let (id, target) = targets.last();
        match id {
            Some(d) => if m.contains_key(d) && m[d].0.position != target {
                (m.insert(d, (PulseMotor { position: target, ..m[d].0 }, m[d].1)), moves.push((m[d].1, target)))
            } else {
                (m, moves)
            },
            None => (m, moves),
        }
    }
}

/// A move of a motor whose device is wired to a hub port.
pub open spec fn is_wired_move() -> spec_fn((LayoutDevice, MotorPosition)) -> bool {
    |mv: (LayoutDevice, MotorPosition)| mv.0.hub_id is Some && mv.0.port is Some
}

/// The command that throws a wired motor: a call of the hub program's
/// `device_execute` with the port, 0 and the position.
pub open spec fn is_switch_command(m: HubCommandMessage, device: LayoutDevice, position: MotorPosition) -> bool {
    &&& device.hub_id is Some && device.port is Some
    &&& m.hub_id == device.hub_id->0
    &&& m.command matches HubCommand::QueueInput(HubInput::Rpc { name, args }) && name@ == "device_execute"@ && args@ == seq![
        hub_port_index(device.port->0),
        0u8,
        motor_position_code(position),
    ]
}

/// The commands sent for some moves: one for each move of a wired motor, in order.
pub open spec fn sends_switch_commands(r: Seq<HubCommandMessage>, moves: Seq<(LayoutDevice, MotorPosition)>) -> bool {
    let wired = moves.filter(is_wired_move());
    r.len() == wired.len() && forall|i: int| 0 <= i < r.len() ==> is_switch_command(#[trigger] r[i], wired[i].0, wired[i].1)
}

/// Moves motors to their targets in order: every motor that does not yet
/// stand at its target is moved there; with hub commands enabled, each move
/// of a wired motor also sends the motor's switch command.
pub(crate) fn move_motors(
    targets: &Vec<(Option<LayoutDeviceID>, MotorPosition)>,
    motors: &mut MotorMap,
    ble_commands_enabled: bool,
) -> (r: Vec<HubCommandMessage>)
    requires
        forall|i: int| 0 <= i < targets@.len() && (#[trigger] targets@[i]).0 is Some ==> old(motors)@.contains_key(targets@[i].0->0),
    ensures
        final(motors)@ == motor_moves(targets@, old(motors)@).0,
        ble_commands_enabled ==> sends_switch_commands(r@, motor_moves(targets@, old(motors)@).1),
        !ble_commands_enabled ==> r@.len() == 0,
        final(motors)@.dom() == old(motors)@.dom(),
        forall|i: int| 0 <= i < targets@.len() && (#[trigger] targets@[i]).0 is Some ==> final(motors)@[targets@[i].0->0].0.position
            == targets@[i].1 || exists|j: int| 0 <= j < targets@.len() && j != i && targets@[j].0 == targets@[i].0,
        forall|d: LayoutDeviceID| #[trigger] old(motors)@.contains_key(d) ==> final(motors)@[d].1 == old(motors)@[d].1,
        forall|d: LayoutDeviceID| #[trigger] old(motors)@.contains_key(d) && (forall|i: int| 0 <= i < targets@.len() ==> (#[trigger] targets@[i]).0 != Some(d))
            ==> final(motors)@[d] == old(motors)@[d],
        (forall|i: int| 0 <= i < targets@.len() ==> (#[trigger] targets@[i]).1 == targets@[0].1) ==> forall|i: int|
            0 <= i < targets@.len() && (#[trigger] targets@[i]).0 is Some ==> final(motors)@[targets@[i].0->0].0.position == targets@[0].1,
{
    let mut commands: Vec<HubCommandMessage> = Vec::new();
    let mut i: usize = 0;
    while i < targets.len()
        invariant
            0 <= i <= targets@.len(),
            forall|k: int| 0 <= k < targets@.len() && (#[trigger] targets@[k]).0 is Some ==> old(motors)@.contains_key(targets@[k].0->0),
            motors@ == motor_moves(targets@.take(i as int), old(motors)@).0,
            ble_commands_enabled ==> sends_switch_commands(commands@, motor_moves(targets@.take(i as int), old(motors)@).1),
            !ble_commands_enabled ==> commands@.len() == 0,
            motors@.dom() == old(motors)@.dom(),
            forall|k: int| 0 <= k < i && (#[trigger] targets@[k]).0 is Some ==> motors@[targets@[k].0->0].0.position == targets@[k].1
                || exists|j: int| 0 <= j < targets@.len() && j != k && targets@[j].0 == targets@[k].0,
            forall|d: LayoutDeviceID| #[trigger] old(motors)@.contains_key(d) ==> motors@[d].1 == old(motors)@[d].1,
            forall|d: LayoutDeviceID| #[trigger] old(motors)@.contains_key(d) && (forall|k: int| 0 <= k < i ==> (#[trigger] targets@[k]).0 != Some(d))
                ==> motors@[d] == old(motors)@[d],
            (forall|k: int| 0 <= k < targets@.len() ==> (#[trigger] targets@[k]).1 == targets@[0].1) ==> forall|k: int|
                0 <= k < i && (#[trigger] targets@[k]).0 is Some ==> motors@[targets@[k].0->0].0.position == targets@[0].1,
        decreases targets@.len() - i,
    {
        let ghost pre = targets@.take(i as int);
        let ghost moves = motor_moves(pre, old(motors)@).1;
        proof {
            assert(targets@.take(i + 1).drop_last() == pre);
            assert(targets@.take(i + 1).last() == targets@[i as int]);
        }
        let (motor_id, target) = targets[i];
        match motor_id {
            Some(id) => {
                let entry = *motors.get(&id).unwrap();
                let (mut motor, device) = entry;
                if motor.position != target {
                    let ghost before_cmds = commands@;
                    proof {
                        moves.lemma_filter_push((device, target), is_wired_move());
                    }
                    if ble_commands_enabled {
                        if let Some(command) = PulseMotor::switch_command(&device, &target) {
                            commands.push(command);
                            proof {
                                let wired = moves.push((device, target)).filter(is_wired_move());
                                assert forall|k: int| 0 <= k < commands@.len() implies is_switch_command(#[trigger] commands@[k], wired[k].0, wired[k].1) by {
                                    if k < before_cmds.len() {
                                        assert(commands@[k] == before_cmds[k]);
                                    }
                                }
                            }
                        } else {
                            proof {
                                assert(commands@ == before_cmds);
                            }
                        }
                    }
                    motor.position = target;
                    let ghost before = motors@;
                    motors.insert(id, (motor, device));
                    proof {
                        assert(motors@.dom() =~= before.dom());
                        assert forall|k: int| 0 <= k < i + 1 && (#[trigger] targets@[k]).0 is Some implies motors@[targets@[k].0->0].0.position
                            == targets@[k].1 || exists|j: int| 0 <= j < targets@.len() && j != k && targets@[j].0 == targets@[k].0 by {
                            if k < i && targets@[k].0->0 == id {
                                assert(targets@[i as int].0 == targets@[k].0);
                            }
                        }
                        assert forall|d: LayoutDeviceID| #[trigger] old(motors)@.contains_key(d) && (forall|k: int| 0 <= k < i + 1
                            ==> (#[trigger] targets@[k]).0 != Some(d)) implies motors@[d] == old(motors)@[d] by {
                            assert(targets@[i as int].0 != Some(d));
                        }
                        assert(motors@ == motor_moves(targets@.take(i + 1), old(motors)@).0);
                    }
                } else {
                    proof {
                        assert forall|k: int| 0 <= k < i + 1 && (#[trigger] targets@[k]).0 is Some implies motors@[targets@[k].0->0].0.position
                            == targets@[k].1 || exists|j: int| 0 <= j < targets@.len() && j != k && targets@[j].0 == targets@[k].0 by {
                            if k == i {
                                assert(targets@[k] == (Some(id), target));
                            }
                        }
                        assert forall|d: LayoutDeviceID| #[trigger] old(motors)@.contains_key(d) && (forall|k: int| 0 <= k < i + 1
                            ==> (#[trigger] targets@[k]).0 != Some(d)) implies motors@[d] == old(motors)@[d] by {
                            assert(targets@[i as int].0 != Some(d));
                        }
                    }
                }
            },
            None => {
                proof {
                    assert forall|d: LayoutDeviceID| #[trigger] old(motors)@.contains_key(d) && (forall|k: int| 0 <= k < i + 1
                        ==> (#[trigger] targets@[k]).0 != Some(d)) implies motors@[d] == old(motors)@[d] by {
                        assert(targets@[i as int].0 != Some(d));
                    }
                }
            },
        }
        i = i + 1;
    }
    proof {
        assert(targets@.take(targets@.len() as int) == targets@);
    }
    commands
}

/// Setting a switch position: every motor of the switch that does not yet
/// stand where the position needs it is moved there; with hub commands
/// enabled, each such move of a wired motor also sends the motor's switch
/// command.
pub fn update_switch_position(
    switch: &Switch,
    position: &SwitchPosition,
    motors: &mut MotorMap,
    ble_commands_enabled: bool,
) -> (r: Vec<HubCommandMessage>)
    requires
        switch.positions_spec().contains(*position),
        first_index(switch.positions_spec(), *position) <= 2,
        switch.motor_ids().len() <= 2,
        forall|i: int| 0 <= i < switch.motor_ids().len() && (#[trigger] switch.motor_ids()[i]) is Some ==> old(motors)@.contains_key(
            switch.motor_ids()[i]->0,
        ),
    ensures
        final(motors)@ == motor_moves(switch_targets(switch, *position), old(motors)@).0,
        ble_commands_enabled ==> sends_switch_commands(r@, motor_moves(switch_targets(switch, *position), old(motors)@).1),
        !ble_commands_enabled ==> r@.len() == 0,
        final(motors)@.dom() == old(motors)@.dom(),
        forall|i: int| 0 <= i < switch.motor_ids().len() && (#[trigger] switch.motor_ids()[i]) is Some ==> final(motors)@[switch.motor_ids()[i]->0].0.position
            == motor_position_for(first_index(switch.positions_spec(), *position), i) || exists|j: int| 0 <= j < switch.motor_ids().len()
            && j != i && switch.motor_ids()[j] == switch.motor_ids()[i],
{
    let targets = switch.iter_motor_positions(position);
    proof {
        assert(targets@ =~= switch_targets(switch, *position));
        assert forall|i: int| 0 <= i < targets@.len() && (#[trigger] targets@[i]).0 is Some implies old(motors)@.contains_key(targets@[i].0->0) by {
            assert(targets@[i].0 == switch.motor_ids()[i]);
        }
    }
    let r = move_motors(&targets, motors, ble_commands_enabled);
    proof {
        assert forall|i: int| 0 <= i < switch.motor_ids().len() && (#[trigger] switch.motor_ids()[i]) is Some implies motors@[switch.motor_ids()[i]->0].0.position
            == motor_position_for(first_index(switch.positions_spec(), *position), i) || exists|j: int| 0 <= j < switch.motor_ids().len()
            && j != i && switch.motor_ids()[j] == switch.motor_ids()[i] by {
            assert(targets@[i].0 == switch.motor_ids()[i]);
            if exists|j: int| 0 <= j < targets@.len() && j != i && targets@[j].0 == targets@[i].0 {
                let j = choose|j: int| 0 <= j < targets@.len() && j != i && targets@[j].0 == targets@[i].0;
                assert(targets@[j].0 == switch.motor_ids()[j]);
            }
        }
    }
    r
}

/// The target of each motor of a switch for a position, in motor order.
pub open spec fn switch_targets(switch: &Switch, position: SwitchPosition) -> Seq<(Option<LayoutDeviceID>, MotorPosition)> {
    Seq::new(
        switch.motor_ids().len(),
        |k: int| (switch.motor_ids()[k], motor_position_for(first_index(switch.positions_spec(), position), k)),
    )
}

/// What a change of a switch's turns does to the switch itself.
#[derive(Clone, Copy, Debug, PartialEq, Eq, Structural)]
pub enum SwitchTurnsAction {
    /// The switch stays and takes the new positions.
    SetPositions,
    /// A new switch is made with the positions.
    Spawn,
    /// The switch goes: a track end with one way on is no switch.
    Despawn,
    /// There is no switch and none is needed.
    Nothing,
}

/// The plan for a change of a switch's turns: what happens to the switch,
/// which of its drawn connections go (by their number), and which
/// positions get a connection drawn.
#[derive(Debug)]
pub struct SwitchTurnsPlan {
    pub action: SwitchTurnsAction,
    pub remove: Vec<usize>,
    pub add: Vec<SwitchPosition>,
}

/// The numbers of the connections whose position is not among the positions, in order.
pub open spec fn missing_indices(connections: Seq<SwitchPosition>, positions: Seq<SwitchPosition>) -> Seq<usize>
    decreases connections.len(),
{
    if connections.len() == 0 {
        Seq::empty()
    } else {
        let rest = missing_indices(connections.drop_last(), positions);
        if positions.contains(connections.last()) {
            rest
        } else {
            rest.push((connections.len() - 1) as usize)
        }
    }
}

/// A position without a drawn connection.
pub open spec fn not_drawn(connections: Seq<SwitchPosition>) -> spec_fn(SwitchPosition) -> bool {
    |p: SwitchPosition| !connections.contains(p)
}

fn position_in(v: &Vec<SwitchPosition>, p: SwitchPosition) -> (r: bool)
    ensures
        r == v@.contains(p),
{
    let mut i: usize = 0;
    while i < v.len()
        invariant
            0 <= i <= v@.len(),
            forall|k: int| 0 <= k < i ==> v@[k] != p,
        decreases v@.len() - i,
    {
        if v[i] == p {
            assert(v@[i as int] == p);
            return true;
        }
        i = i + 1;
    }
    false
}

/// Plans a change of a switch's turns to `positions`, given whether the
/// switch exists and the positions of the connections drawn for it: with
/// more than one position the switch is kept (or made), otherwise it goes;
/// drawn connections to positions no longer offered go; and an existing
/// switch gets a connection drawn for each position that has none.
pub fn plan_switch_turns(
    positions: &Vec<SwitchPosition>,
    switch_exists: bool,
    connections: &Vec<SwitchPosition>,
) -> (r: SwitchTurnsPlan)
    ensures
        r.action == (if positions@.len() > 1 {
            if switch_exists { SwitchTurnsAction::SetPositions } else { SwitchTurnsAction::Spawn }
        } else {
            if switch_exists { SwitchTurnsAction::Despawn } else { SwitchTurnsAction::Nothing }
        }),
        r.remove@ == missing_indices(connections@, positions@),
        r.add@ == (if switch_exists { positions@.filter(not_drawn(connections@)) } else { Seq::<SwitchPosition>::empty() }),
{
    let action = if positions.len() > 1 {
        if switch_exists { SwitchTurnsAction::SetPositions } else { SwitchTurnsAction::Spawn }
    } else {
        if switch_exists { SwitchTurnsAction::Despawn } else { SwitchTurnsAction::Nothing }
    };
    let mut remove: Vec<usize> = Vec::new();
    let mut i: usize = 0;
    while i < connections.len()
        invariant
            0 <= i <= connections@.len(),
            remove@ == missing_indices(connections@.take(i as int), positions@),
        decreases connections@.len() - i,
    {
        proof {
            assert(connections@.take(i + 1).drop_last() == connections@.take(i as int));
            assert(connections@.take(i + 1).last() == connections@[i as int]);
        }
        if !position_in(positions, connections[i]) {
            remove.push(i);
        }
        i = i + 1;
    }
    proof {
        assert(connections@.take(connections@.len() as int) == connections@);
    }
    let mut add: Vec<SwitchPosition> = Vec::new();
    if switch_exists {
        let mut j: usize = 0;
        while j < positions.len()
            invariant
                0 <= j <= positions@.len(),
                add@ == positions@.take(j as int).filter(not_drawn(connections@)),
            decreases positions@.len() - j,
        {
            let p = positions[j];
            proof {
                assert(positions@.take(j + 1) == positions@.take(j as int).push(p));
                positions@.take(j as int).lemma_filter_push(p, not_drawn(connections@));
            }
            if !position_in(connections, p) {
                add.push(p);
            }
            j = j + 1;
        }
        proof {
            assert(positions@.take(positions@.len() as int) == positions@);
        }
    }
    SwitchTurnsPlan { action, remove, add }
}

} // verus!
