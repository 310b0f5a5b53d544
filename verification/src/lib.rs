//! Train-layout model: grid primitives, track naming, sections, routes and
//! the simulation state machines of a model railway controller.
pub mod ble_train;
pub mod block;
pub mod common;
pub mod connections;
pub mod crossing;
pub mod destination;
pub mod editor;
pub mod hub;
pub mod keyed;
pub mod layout;
pub mod layout_display;
pub mod layout_names;
pub mod layout_primitives;
pub mod marker;
pub mod persistent_hub_state;
pub mod route;
pub mod route_modular;
pub mod section;
pub mod switch;
pub mod switch_motor;
pub mod text;
pub mod train;
pub mod utils;
