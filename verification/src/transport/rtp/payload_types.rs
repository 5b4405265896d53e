//! RTP payload types of the streams.

use vstd::prelude::*;

verus! {

/// H.264 video.
pub const H264: u8 = 96;

/// H.265 video.
pub const H265: u8 = 97;

/// AV1 video.
pub const AV1: u8 = 98;

/// Opus audio.
pub const OPUS: u8 = 111;

/// Parity packets.
pub const FEC: u8 = 127;

/// The payload types are those of the dynamic range, each stream with its own.
pub proof fn law_payload_types()
    ensures
        H264 == 96,
        H265 == 97,
        AV1 == 98,
        OPUS == 111,
        FEC == 127,
{
}

} // verus!
