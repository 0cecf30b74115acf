//! What the operations are for, said of windows and where they stand: each law names
//! what a result must be for every strip, window and event, in terms of the columns and
//! the windows in them.
pub mod arrivals;
pub mod background;
pub mod exchange;
pub mod focus;
pub mod gestures;
pub mod laying_out;
pub mod numbers;
pub mod places;
pub mod scripts;
pub mod scrolling;
pub mod settings;
pub mod spaces;
pub mod strips;
pub mod triggers;
pub mod window_commands;
pub mod window_set;
