//! What an encode session is asked for, and what encoders offer.

use vstd::prelude::*;
use vstd::slice::slice_to_vec;

use crate::types::{ChromaSampling, DynamicRange, RateControlMode, Resolution, VideoCodec};

verus! {

/// Parameters of an encode session.
#[derive(Debug, Clone, Copy, PartialEq, Eq, Structural)]
pub struct EncodeConfig {
    pub codec: VideoCodec,
    pub resolution: Resolution,
    pub framerate: u32,
    pub bitrate_kbps: u32,
    pub rate_control: RateControlMode,
    pub dynamic_range: DynamicRange,
    pub chroma_sampling: ChromaSampling,
    pub gop_size: u32,
    pub b_frames: u32,
    pub max_ref_frames: u32,
}

impl Default for EncodeConfig {
    /// Low-latency H.265 in full HD: keyframes on request only, no B-frames.
    fn default() -> (config: Self)
        ensures
            config == (EncodeConfig {
                codec: VideoCodec::H265,
                resolution: Resolution { width: 1920, height: 1080 },
                framerate: 60,
                bitrate_kbps: 20_000,
                rate_control: RateControlMode::Cbr,
                dynamic_range: DynamicRange::Sdr,
                chroma_sampling: ChromaSampling::Yuv420,
                gop_size: 0,
                b_frames: 0,
                max_ref_frames: 1,
            }),
    {
        EncodeConfig {
            codec: VideoCodec::H265,
            resolution: Resolution::new(1920, 1080),
            framerate: 60,
            bitrate_kbps: 20_000,
            rate_control: RateControlMode::Cbr,
            dynamic_range: DynamicRange::Sdr,
            chroma_sampling: ChromaSampling::Yuv420,
            gop_size: 0,
            b_frames: 0,
            max_ref_frames: 1,
        }
    }
}

/// What an encoder offers.
#[derive(Debug)]
pub struct EncoderCapabilities {
    pub name: &'static str,
    pub supported_codecs: Vec<VideoCodec>,
    pub supports_hdr: bool,
    pub supports_yuv444: bool,
    pub max_resolution: Resolution,
    pub max_framerate: u32,
}

/// The content of a capability report.
#[verifier::ext_equal]
pub struct CapabilitiesView {
    pub name: Seq<char>,
    pub supported_codecs: Seq<VideoCodec>,
    pub supports_hdr: bool,
    pub supports_yuv444: bool,
    pub max_resolution: Resolution,
    pub max_framerate: u32,
}

impl View for EncoderCapabilities {
    type V = CapabilitiesView;

    open spec fn view(&self) -> CapabilitiesView {
        CapabilitiesView {
            name: self.name@,
            supported_codecs: self.supported_codecs@,
            supports_hdr: self.supports_hdr,
            supports_yuv444: self.supports_yuv444,
            max_resolution: self.max_resolution,
            max_framerate: self.max_framerate,
        }
    }
}

/// Whether a codec is in a list.
pub fn has_codec(codecs: &Vec<VideoCodec>, codec: VideoCodec) -> (found: bool)
    ensures
        found == codecs@.contains(codec),
{
    for i in 0..codecs.len()
        invariant
            forall|j: int| 0 <= j < i ==> codecs@[j] != codec,
    {
        if codecs[i] == codec {
            assert(codecs@[i as int] == codec);
            return true;
        }
    }
    false
}

impl EncoderCapabilities {
    /// A copy of the report.
    pub fn duplicate(&self) -> (copy: Self)
        ensures
            copy@ == self@,
    {
        EncoderCapabilities {
            name: self.name,
            supported_codecs: slice_to_vec(self.supported_codecs.as_slice()),
            supports_hdr: self.supports_hdr,
            supports_yuv444: self.supports_yuv444,
            max_resolution: self.max_resolution,
            max_framerate: self.max_framerate,
        }
    }
}

/// A capability report is seen with its own fields.
pub proof fn law_capabilities_are_seen(report: EncoderCapabilities)
    ensures
        report@.name == report.name@,
        report@.supported_codecs == report.supported_codecs@,
        report@.supports_hdr == report.supports_hdr,
        report@.supports_yuv444 == report.supports_yuv444,
        report@.max_resolution == report.max_resolution,
        report@.max_framerate == report.max_framerate,
{
}

} // verus!
