//! Encoders that keep the timing and keyframe discipline of a stream without a
//! bitstream of their own, and the choice between encoders.

use vstd::prelude::*;

use crate::encode::config::{has_codec, CapabilitiesView, EncodeConfig, EncoderCapabilities};
use crate::error::{ErrorView, FluxError};
use crate::frame::{packet_views, CapturedFrame, EncodedPacket, PacketView};
use crate::types::{codec_label, EncoderBackend, Resolution, VideoCodec};

verus! {

/// An encode session that counts frames and tracks keyframe requests.
pub struct BasicSession {
    config: EncodeConfig,
    frame_index: u64,
    idr_requested: bool,
}

impl BasicSession {
    /// The parameters of the session.
    pub closed spec fn parameters(self) -> EncodeConfig {
        self.config
    }

    /// The number of frames encoded so far.
    pub closed spec fn frames(self) -> u64 {
        self.frame_index
    }

    /// Whether the next frame is a keyframe.
    pub closed spec fn keyframe_due(self) -> bool {
        self.idr_requested
    }

    /// A session whose first frame is a keyframe.
    pub fn new(config: EncodeConfig) -> (session: Self)
        ensures
            session.parameters() == config,
            session.frames() == 0,
            session.keyframe_due(),
    {
        Self { config, frame_index: 0, idr_requested: true }
    }

    /// Encodes a frame: one packet, numbered from one on, a keyframe where one was
    /// due.
    pub fn encode(&mut self, _frame: &CapturedFrame) -> (result: Result<Vec<EncodedPacket>, FluxError>)
        requires
            old(self).frames() < u64::MAX,
        ensures
            final(self).frames() == old(self).frames() + 1,
            !final(self).keyframe_due(),
            final(self).parameters() == old(self).parameters(),
            result matches Ok(packets) && packet_views(packets@) == seq![
                PacketView {
                    frame_index: final(self).frames(),
                    pts: final(self).frames(),
                    is_keyframe: old(self).keyframe_due(),
                    data: Seq::empty(),
                },
            ],
    {
        self.frame_index = self.frame_index + 1;
        let is_keyframe: bool = self.idr_requested;
        self.idr_requested = false;
        let mut packets: Vec<EncodedPacket> = Vec::new();
        packets.push(
            EncodedPacket {
                frame_index: self.frame_index,
                pts: self.frame_index,
                is_keyframe,
                data: Vec::new(),
            },
        );
        assert(packet_views(packets@) =~= seq![
            PacketView {
                frame_index: self.frame_index,
                pts: self.frame_index,
                is_keyframe,
                data: Seq::empty(),
            },
        ]);
        Ok(packets)
    }

    /// Makes the next frame a keyframe.
    pub fn request_idr(&mut self)
        ensures
            final(self).keyframe_due(),
            final(self).frames() == old(self).frames(),
            final(self).parameters() == old(self).parameters(),
    {
        self.idr_requested = true;
    }

    /// Hands out what is still held back: nothing.
    pub fn flush(&mut self) -> (result: Result<Vec<EncodedPacket>, FluxError>)
        ensures
            *final(self) == *old(self),
            result matches Ok(packets) && packets@.len() == 0,
    {
        Ok(Vec::new())
    }

    /// Changes the target bitrate.
    pub fn set_bitrate(&mut self, bitrate_kbps: u32) -> (result: Result<(), FluxError>)
        ensures
            result is Ok,
            final(self).parameters() == (EncodeConfig { bitrate_kbps, ..old(self).parameters() }),
            final(self).frames() == old(self).frames(),
            final(self).keyframe_due() == old(self).keyframe_due(),
    {
        self.config.bitrate_kbps = bitrate_kbps;
        Ok(())
    }
}

/// The NVIDIA encoder.
pub struct NvencEncoder {
    _private: (),
}

impl NvencEncoder {
    /// The encoder; it can always be had.
    pub fn new() -> (result: Result<Self, FluxError>)
        ensures
            result is Ok,
    {
        Ok(Self { _private: () })
    }

    /// The name of the encoder.
    pub fn name(&self) -> (name: &'static str)
        ensures
            name@ == "NVENC"@,
    {
        "NVENC"
    }

    /// What the encoder offers.
    pub fn capabilities(&self) -> (result: Result<EncoderCapabilities, FluxError>)
        ensures
            result matches Ok(report) && report@ == (CapabilitiesView {
                name: "NVENC"@,
                supported_codecs: seq![VideoCodec::H264, VideoCodec::H265, VideoCodec::Av1],
                supports_hdr: true,
                supports_yuv444: true,
                max_resolution: Resolution { width: 8192, height: 8192 },
                max_framerate: 240,
            }),
    {
        let codecs: Vec<VideoCodec> = vec![VideoCodec::H264, VideoCodec::H265, VideoCodec::Av1];
        assert(codecs@ =~= seq![VideoCodec::H264, VideoCodec::H265, VideoCodec::Av1]);
        Ok(
            EncoderCapabilities {
                name: "NVENC",
                supported_codecs: codecs,
                supports_hdr: true,
                supports_yuv444: true,
                max_resolution: Resolution::new(8192, 8192),
                max_framerate: 240,
            },
        )
    }

    /// Refuses what is wider or higher than 8192 pixels.
    pub fn validate_config(&self, config: &EncodeConfig) -> (result: Result<(), FluxError>)
        ensures
            if config.resolution.width > 8192 || config.resolution.height > 8192 {
                result matches Err(e) && e@ == ErrorView::EncoderInit("resolution exceeds NVENC limits"@)
            } else {
                result is Ok
            },
    {
        if config.resolution.width > 8192 || config.resolution.height > 8192 {
            return Err(FluxError::EncoderInit("resolution exceeds NVENC limits".to_string()));
        }
        Ok(())
    }

    /// A session with the given parameters.
    pub fn create_session(&self, config: EncodeConfig) -> (result: Result<BasicSession, FluxError>)
        ensures
            result matches Ok(session) && session.parameters() == config && session.frames() == 0
                && session.keyframe_due(),
    {
        Ok(BasicSession::new(config))
    }
}

/// The CPU encoder, the last resort.
pub struct SoftwareEncoder {
    _private: (),
}

impl SoftwareEncoder {
    /// The encoder; it can always be had.
    pub fn new() -> (result: Result<Self, FluxError>)
        ensures
            result is Ok,
    {
        Ok(Self { _private: () })
    }

    /// The name of the encoder.
    pub fn name(&self) -> (name: &'static str)
        ensures
            name@ == "Software (CPU)"@,
    {
        "Software (CPU)"
    }

    /// What the encoder offers.
    pub fn capabilities(&self) -> (result: Result<EncoderCapabilities, FluxError>)
        ensures
            result matches Ok(report) && report@ == (CapabilitiesView {
                name: "Software (CPU)"@,
                supported_codecs: seq![VideoCodec::H264, VideoCodec::H265],
                supports_hdr: false,
                supports_yuv444: true,
                max_resolution: Resolution { width: 7680, height: 4320 },
                max_framerate: 60,
            }),
    {
        let codecs: Vec<VideoCodec> = vec![VideoCodec::H264, VideoCodec::H265];
        assert(codecs@ =~= seq![VideoCodec::H264, VideoCodec::H265]);
        Ok(
            EncoderCapabilities {
                name: "Software (CPU)",
                supported_codecs: codecs,
                supports_hdr: false,
                supports_yuv444: true,
                max_resolution: Resolution::new(7680, 4320),
                max_framerate: 60,
            },
        )
    }

    /// Accepts everything.
    pub fn validate_config(&self, _config: &EncodeConfig) -> (result: Result<(), FluxError>)
        ensures
            result is Ok,
    {
        Ok(())
    }

    /// A session with the given parameters.
    pub fn create_session(&self, config: EncodeConfig) -> (result: Result<BasicSession, FluxError>)
        ensures
            result matches Ok(session) && session.parameters() == config && session.frames() == 0
                && session.keyframe_due(),
    {
        Ok(BasicSession::new(config))
    }
}

/// The VA-API encoder of builds without the driver library.
pub struct VaapiEncoder {
    _private: (),
}

impl VaapiEncoder {
    /// The encoder; it can always be had.
    pub fn new() -> (result: Result<Self, FluxError>)
        ensures
            result is Ok,
    {
        Ok(Self { _private: () })
    }

    /// The name of the encoder.
    pub fn name(&self) -> (name: &'static str)
        ensures
            name@ == "VA-API"@,
    {
        "VA-API"
    }

    /// What the encoder offers.
    pub fn capabilities(&self) -> (result: Result<EncoderCapabilities, FluxError>)
        ensures
            result matches Ok(report) && report@ == (CapabilitiesView {
                name: "VA-API"@,
                supported_codecs: seq![VideoCodec::H264, VideoCodec::H265],
                supports_hdr: true,
                supports_yuv444: false,
                max_resolution: Resolution { width: 7680, height: 4320 },
                max_framerate: 240,
            }),
    {
        let codecs: Vec<VideoCodec> = vec![VideoCodec::H264, VideoCodec::H265];
        assert(codecs@ =~= seq![VideoCodec::H264, VideoCodec::H265]);
        Ok(
            EncoderCapabilities {
                name: "VA-API",
                supported_codecs: codecs,
                supports_hdr: true,
                supports_yuv444: false,
                max_resolution: Resolution::new(7680, 4320),
                max_framerate: 240,
            },
        )
    }

    /// Refuses AV1.
    pub fn validate_config(&self, config: &EncodeConfig) -> (result: Result<(), FluxError>)
        ensures
            if config.codec == VideoCodec::Av1 {
                result matches Err(e) && e@ == ErrorView::EncoderInit(
                    "VA-API AV1 encoding requires Intel Arc or newer"@,
                )
            } else {
                result is Ok
            },
    {
        if config.codec == VideoCodec::Av1 {
            return Err(
                FluxError::EncoderInit("VA-API AV1 encoding requires Intel Arc or newer".to_string()),
            );
        }
        Ok(())
    }

    /// A session with the given parameters.
    pub fn create_session(&self, config: EncodeConfig) -> (result: Result<BasicSession, FluxError>)
        ensures
            result matches Ok(session) && session.parameters() == config && session.frames() == 0
                && session.keyframe_due(),
    {
        Ok(BasicSession::new(config))
    }
}

/// The Vulkan Video encoder of builds without the Vulkan loader.
pub struct VulkanVideoEncoder {
    _private: (),
}

/// The codecs that Vulkan Video encodes.
pub open spec fn vulkan_codecs() -> Seq<VideoCodec> {
    seq![VideoCodec::H264, VideoCodec::H265]
}

impl VulkanVideoEncoder {
    /// The encoder; it can always be had.
    pub fn new() -> (result: Result<Self, FluxError>)
        ensures
            result is Ok,
    {
        Ok(Self { _private: () })
    }

    fn probe_codec_support(&self) -> (codecs: Vec<VideoCodec>)
        ensures
            codecs@ == vulkan_codecs(),
    {
        let codecs: Vec<VideoCodec> = vec![VideoCodec::H264, VideoCodec::H265];
        assert(codecs@ =~= vulkan_codecs());
        codecs
    }

    /// The name of the encoder.
    pub fn name(&self) -> (name: &'static str)
        ensures
            name@ == "Vulkan Video"@,
    {
        "Vulkan Video"
    }

    /// What the encoder offers.
    pub fn capabilities(&self) -> (result: Result<EncoderCapabilities, FluxError>)
        ensures
            result matches Ok(report) && report@ == (CapabilitiesView {
                name: "Vulkan Video"@,
                supported_codecs: vulkan_codecs(),
                supports_hdr: true,
                supports_yuv444: false,
                max_resolution: Resolution { width: 7680, height: 4320 },
                max_framerate: 240,
            }),
    {
        Ok(
            EncoderCapabilities {
                name: "Vulkan Video",
                supported_codecs: self.probe_codec_support(),
                supports_hdr: true,
                supports_yuv444: false,
                max_resolution: Resolution::new(7680, 4320),
                max_framerate: 240,
            },
        )
    }

    /// Refuses the codecs that the encoder lacks.
    pub fn validate_config(&self, config: &EncodeConfig) -> (result: Result<(), FluxError>)
        ensures
            if vulkan_codecs().contains(config.codec) {
                result is Ok
            } else {
                result matches Err(e) && e@ == ErrorView::EncoderInit(
                    "Vulkan Video does not support "@ + codec_label(config.codec) + " on this device"@,
                )
            },
    {
        if !has_codec(&self.probe_codec_support(), config.codec) {
            let mut text = "Vulkan Video does not support ".to_string();
            text.append(config.codec.label());
            text.append(" on this device");
            return Err(FluxError::EncoderInit(text));
        }
        Ok(())
    }

    /// A session with the given parameters.
    pub fn create_session(&self, config: EncodeConfig) -> (result: Result<BasicSession, FluxError>)
        ensures
            result matches Ok(session) && session.parameters() == config && session.frames() == 0
                && session.keyframe_due(),
    {
        Ok(BasicSession::new(config))
    }
}

/// Operating systems that encoders differ by.
#[derive(Debug, Clone, Copy, PartialEq, Eq, Structural)]
pub enum HostOs {
    Linux,
    Windows,
    Other,
}

/// The backend that is used where none is asked for.
pub fn default_backend() -> (backend: EncoderBackend)
    ensures
        backend == EncoderBackend::VulkanVideo,
{
    EncoderBackend::VulkanVideo
}

/// Whether a backend exists on an operating system.
pub open spec fn backend_exists(backend: EncoderBackend, os: HostOs) -> bool {
    match backend {
        EncoderBackend::Nvenc | EncoderBackend::VulkanVideo | EncoderBackend::Software => true,
        EncoderBackend::Vaapi | EncoderBackend::FfmpegVaapi => os == HostOs::Linux,
        EncoderBackend::Amf => os == HostOs::Windows,
    }
}

/// The backend that an encoder is to be made of: the one asked for, or the
/// default. A backend that the operating system lacks is refused.
pub fn create_encoder(backend: Option<EncoderBackend>, os: HostOs) -> (result: Result<
    EncoderBackend,
    FluxError,
>)
    ensures
        ({
            let wanted = match backend {
                Some(backend) => backend,
                None => EncoderBackend::VulkanVideo,
            };
            if backend_exists(wanted, os) {
                result matches Ok(chosen) && chosen == wanted
            } else {
                result matches Err(e) && e@ == ErrorView::NoEncoderBackend
            }
        }),
{
    let wanted: EncoderBackend = match backend {
        Some(backend) => backend,
        None => default_backend(),
    };
    match wanted {
        EncoderBackend::Nvenc | EncoderBackend::VulkanVideo | EncoderBackend::Software => Ok(wanted),
        EncoderBackend::Vaapi | EncoderBackend::FfmpegVaapi => if os == HostOs::Linux {
            Ok(wanted)
        } else {
            Err(FluxError::NoEncoderBackend)
        },
        EncoderBackend::Amf => if os == HostOs::Windows {
            Ok(wanted)
        } else {
            Err(FluxError::NoEncoderBackend)
        },
    }
}

/// What a host can encode, as it tells its clients.
#[derive(Debug)]
pub struct EncodeCapabilities {
    pub backend: Option<EncoderBackend>,
    pub driver: Option<String>,
    pub h264: bool,
    pub h265: bool,
    pub av1: bool,
    pub hdr10: bool,
}

/// Tells clients what the VA-API encoder can drive. A driver without a name is
/// left out.
pub fn to_core_encode_caps(driver: &str, supported: &Vec<VideoCodec>, supports_hdr: bool) -> (caps:
    EncodeCapabilities)
    ensures
        caps.backend == Some(EncoderBackend::Vaapi),
        match caps.driver {
            Some(name) => driver@.len() > 0 && name@ == driver@,
            None => driver@.len() == 0,
        },
        caps.h264 == supported@.contains(VideoCodec::H264),
        caps.h265 == supported@.contains(VideoCodec::H265),
        caps.av1 == supported@.contains(VideoCodec::Av1),
        caps.hdr10 == supports_hdr,
{
    EncodeCapabilities {
        backend: Some(EncoderBackend::Vaapi),
        driver: if driver.unicode_len() > 0 {
            Some(driver.to_string())
        } else {
            None
        },
        h264: has_codec(supported, VideoCodec::H264),
        h265: has_codec(supported, VideoCodec::H265),
        av1: has_codec(supported, VideoCodec::Av1),
        hdr10: supports_hdr,
    }
}

/// Tells clients what the FFmpeg VA-API encoder can drive.
pub fn ffmpeg_encode_caps(caps: &EncoderCapabilities) -> (core: EncodeCapabilities)
    ensures
        core.backend == Some(EncoderBackend::FfmpegVaapi),
        core.driver is None,
        core.h264 == caps.supported_codecs@.contains(VideoCodec::H264),
        core.h265 == caps.supported_codecs@.contains(VideoCodec::H265),
        core.av1 == caps.supported_codecs@.contains(VideoCodec::Av1),
        core.hdr10 == caps.supports_hdr,
{
    EncodeCapabilities {
        backend: Some(EncoderBackend::FfmpegVaapi),
        driver: None,
        h264: has_codec(&caps.supported_codecs, VideoCodec::H264),
        h265: has_codec(&caps.supported_codecs, VideoCodec::H265),
        av1: has_codec(&caps.supported_codecs, VideoCodec::Av1),
        hdr10: caps.supports_hdr,
    }
}

/// The codecs of Vulkan Video: H.264, then H.265.
pub proof fn law_vulkan_codecs()
    ensures
        vulkan_codecs().len() == 2,
        vulkan_codecs()[0] == VideoCodec::H264,
        vulkan_codecs()[1] == VideoCodec::H265,
        vulkan_codecs().contains(VideoCodec::H264),
        vulkan_codecs().contains(VideoCodec::H265),
        !vulkan_codecs().contains(VideoCodec::Av1),
{
    assert(vulkan_codecs()[0] == VideoCodec::H264 && vulkan_codecs()[1] == VideoCodec::H265);
}

/// VA-API is on Linux alone, AMF on Windows alone, the others everywhere.
pub proof fn law_backends_of_systems(os: HostOs)
    ensures
        backend_exists(EncoderBackend::Nvenc, os),
        backend_exists(EncoderBackend::VulkanVideo, os),
        backend_exists(EncoderBackend::Software, os),
        backend_exists(EncoderBackend::Vaapi, os) <==> os == HostOs::Linux,
        backend_exists(EncoderBackend::FfmpegVaapi, os) <==> os == HostOs::Linux,
        backend_exists(EncoderBackend::Amf, os) <==> os == HostOs::Windows,
{
}

} // verus!
