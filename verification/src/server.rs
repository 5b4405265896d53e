//! The host: what it streams, to whom, and from which display.

pub mod address;
pub mod capture;
pub mod display;
pub mod display_config;
pub mod encoder;
pub mod frames;
pub mod pipeline;
pub mod privacy;
pub mod registration;
pub mod session;
pub mod tray;
pub mod virtual_display;
pub mod waiting;
pub mod wire;
