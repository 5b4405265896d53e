//! Verified core of the Flux remote streaming host.

pub mod encode;
pub mod error;
pub mod frame;
pub mod ids;
pub mod input;
pub mod junit;
pub mod protocol;
pub mod server;
pub mod text;
pub mod transport;
pub mod types;
