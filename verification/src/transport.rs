//! Media transport: RTP framing, packetisation and forward error correction.

pub mod buffer;
pub mod cubic;
pub mod depacketizer;
pub mod erasure;
pub mod fec;
pub mod field;
pub mod gf;
pub mod group;
pub mod packetizer;
pub mod quic;
pub mod rtp;
pub mod symbols;
