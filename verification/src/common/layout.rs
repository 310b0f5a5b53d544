//! The layout as it is handed over when entering control mode.
use vstd::prelude::*;
use crate::common::block::Block;
use crate::common::connection::Connection;
use crate::common::lifecycle::{ElementEntry, Track, Train};
use crate::common::marker::Marker;

verus! {

/// A saved layout: every element with its data.
pub struct Layout {
    pub tracks: Vec<ElementEntry<Track>>,
    /// All physical connections, adjacent and portal.
    pub connections: Vec<ElementEntry<Connection>>,
    pub markers: Vec<ElementEntry<Marker>>,
    pub blocks: Vec<ElementEntry<Block>>,
    pub trains: Vec<ElementEntry<Train>>,
}

impl Default for Layout {
    fn default() -> (r: Self)
        ensures
            r.tracks@.len() == 0,
            r.connections@.len() == 0,
            r.markers@.len() == 0,
            r.blocks@.len() == 0,
            r.trains@.len() == 0,
    {
        Layout {
            tracks: Vec::new(),
            connections: Vec::new(),
            markers: Vec::new(),
            blocks: Vec::new(),
            trains: Vec::new(),
        }
    }
}

/// Request to enter control mode with a layout.
pub struct EnterControlMode {
    pub layout: Layout,
}

/// Request to exit control mode.
#[derive(Clone, Copy, Debug)]
pub struct ExitControlMode;

/// Whether the server runs a layout.
#[derive(Clone, Copy, Debug, PartialEq, Eq, Structural)]
pub enum ServerState {
    Idle,
    Running,
}

impl Default for ServerState {
    fn default() -> (r: Self)
        ensures
            r == ServerState::Idle,
    {
        ServerState::Idle
    }
}

} // verus!
