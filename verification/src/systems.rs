//! What the window manager does frame by frame.
pub mod frames;
pub mod lifecycle;
pub mod overlays;
pub mod setup;
