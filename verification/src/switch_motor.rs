//! Pulse motors that throw switches, and what their hubs are told.
use vstd::prelude::*;
use crate::hub::{device_state_message, motor_configuration, HubCommandMessage, HubConfiguration, HubDeviceStateMessage, HubInput, LayoutDevice};
use crate::layout_primitives::{hub_port_index, HubID};

verus! {

/// Where a switch motor stands.
#[derive(Clone, Copy, Debug, PartialEq, Eq, Structural)]
pub enum MotorPosition {
    Unknown,
    Left,
    Right,
}

impl Default for MotorPosition {
    fn default() -> (r: Self)
        ensures
            r == MotorPosition::Unknown,
    {
        MotorPosition::Unknown
    }
}

pub open spec fn motor_position_code(p: MotorPosition) -> u8 {
    match p {
        MotorPosition::Unknown => 2,
        MotorPosition::Left => 0,
        MotorPosition::Right => 1,
    }
}

impl crate::keyed::Key for MotorPosition {
    fn same(&self, other: &Self) -> (r: bool) {
        *self == *other
    }
}

impl MotorPosition {
    /// The position as a hub reads it.
    pub fn to_u8(&self) -> (r: u8)
        ensures
            r == motor_position_code(*self),
    {
        match self {
            MotorPosition::Unknown => 2,
            MotorPosition::Left => 0,
            MotorPosition::Right => 1,
        }
    }
}

/// Which way round a motor is wired.
#[derive(Clone, Copy, Debug, PartialEq, Eq, Structural)]
pub enum MotorPolarity {
    Normal,
    Inverted,
}

impl Default for MotorPolarity {
    fn default() -> (r: Self)
        ensures
            r == MotorPolarity::Normal,
    {
        MotorPolarity::Normal
    }
}

impl MotorPolarity {
    pub fn to_u32(&self) -> (r: u32)
        ensures
            r == match *self {
                MotorPolarity::Normal => 0u32,
                MotorPolarity::Inverted => 1u32,
            },
    {
        match self {
            MotorPolarity::Normal => 0,
            MotorPolarity::Inverted => 1,
        }
    }
}

/// A motor that throws a switch with a pulse.
#[derive(Clone, Copy, Debug, PartialEq, Eq, Structural)]
pub struct PulseMotor {
    pub position: MotorPosition,
    pub pulse_duration: u16,
    pub pulse_strength: u16,
    pub polarity: MotorPolarity,
}

impl Default for PulseMotor {
    fn default() -> (r: Self)
        ensures
            r == (PulseMotor { position: MotorPosition::Unknown, pulse_duration: 500, pulse_strength: 100, polarity: MotorPolarity::Normal }),
    {
        PulseMotor { position: MotorPosition::Unknown, pulse_duration: 500, pulse_strength: 100, polarity: MotorPolarity::Normal }
    }
}

impl PulseMotor {
    /// The command that throws the motor: a call of the hub program's
    /// `device_execute` with the port, 0 and the position; none for a
    /// device not wired to a hub port.
    pub fn switch_command(device: &LayoutDevice, position: &MotorPosition) -> (r: Option<HubCommandMessage>)
        ensures
            match (device.hub_id, device.port) {
                (Some(h), Some(p)) => r matches Some(m) && m.hub_id == h && (m.command matches crate::hub::HubCommand::QueueInput(
                    HubInput::Rpc { name, args },
                ) && name@ == "device_execute"@ && args@ == seq![hub_port_index(p), 0u8, motor_position_code(*position)]),
                _ => r is None,
            },
    {
        let port = match device.port {
            Some(p) => p,
            None => return None,
        };
        let hub_id = match device.hub_id {
            Some(h) => h,
            None => return None,
        };
        let args = vec![port.to_u8(), 0, position.to_u8()];
        let name = crate::text::chars_to_string(&crate::text::str_chars("device_execute"));
        proof {
            assert(args@ =~= seq![hub_port_index(port), 0u8, motor_position_code(*position)]);
        }
        Some(HubCommandMessage::input(hub_id, HubInput::Rpc { name, args }))
    }

    /// The state message for the motor's new position.
    pub fn switch_hub_state(device: &LayoutDevice, position: &MotorPosition) -> (r: Option<HubDeviceStateMessage>)
        ensures
            match (device.hub_id, device.port) {
                (Some(h), Some(p)) => r == Some(HubDeviceStateMessage { hub_id: h, state_id: hub_port_index(p), state: motor_position_code(*position) }),
                _ => r is None,
            },
    {
        device_state_message(device.hub_id, device.port, position.to_u8())
    }

    /// The configuration the motor needs in its hub: strength, duration and
    /// polarity at the addresses of its port; none for a device without hub.
    pub fn hub_configuration(&self, device: &LayoutDevice) -> (r: Option<(HubID, HubConfiguration)>)
        requires
            device.hub_id is Some ==> device.port is Some,
        ensures
            match device.hub_id {
                Some(h) => r matches Some(x) && x.0 == h && x.1@ == crate::hub::motor_config_map(
                    device.port->0,
                    self.pulse_strength,
                    self.pulse_duration,
                    self.polarity.to_u32_spec(),
                ),
                None => r is None,
            },
    {
        match device.hub_id {
            Some(h) => {
                let port = device.port.unwrap();
                Some((h, motor_configuration(port, self.pulse_strength, self.pulse_duration, self.polarity.to_u32())))
            },
            None => None,
        }
    }
}

impl MotorPolarity {
    pub open spec fn to_u32_spec(&self) -> u32 {
        match *self {
            MotorPolarity::Normal => 0u32,
            MotorPolarity::Inverted => 1u32,
        }
    }
}

} // verus!
