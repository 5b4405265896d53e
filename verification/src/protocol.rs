//! The control protocol between client and host.

pub mod messages;
pub mod session;
pub mod version;
