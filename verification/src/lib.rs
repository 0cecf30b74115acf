//! Layout and runtime logic of a sliding tiling window manager.
pub mod application;
pub mod client;
pub mod clock;
pub mod commands;
pub mod config;
pub mod config_reload;
pub mod display;
pub mod entries;
pub mod errors;
pub mod events;
pub mod floating;
pub mod geometry;
pub mod ipc;
pub mod json;
pub mod laws;
pub mod layout;
pub mod layout_ops;
pub mod lua;
pub mod number;
pub mod observation;
pub mod params;
pub mod persistence;
pub mod reconcile;
pub mod runtime;
pub mod script_state;
pub mod script_value;
pub mod scroll;
pub mod search;
pub mod state;
pub mod systems;
pub mod text;
pub mod triggers;
pub mod width_ratio;
pub mod windowset;
pub mod wire;
pub mod workspace;
