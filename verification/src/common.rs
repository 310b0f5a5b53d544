//! The second generation of the controller: layout elements keyed by plain
//! identifiers, route legs between blocks, and the simulation state machines.
pub mod app_command;
pub mod block;
pub mod command;
pub mod connection;
pub mod driver;
pub mod graph;
pub mod layout_primitives;
pub mod layout;
pub mod lifecycle;
pub mod logical_graph;
pub mod marker;
pub mod route;
pub mod simulation;
pub mod simulation_event;
pub mod train_position;
