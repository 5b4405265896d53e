//! Input events from the remote client, and what they become on the host.

pub mod backend;
pub mod events;
pub mod gamepad;
pub mod keyboard;
pub mod keymap;
pub mod mouse;
pub mod sink;
