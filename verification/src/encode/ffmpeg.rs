//! The FFmpeg encoders: which libavcodec encoder a session drives, with what
//! options, and how frames reach it.

use vstd::prelude::*;

use crate::encode::config::{
    has_codec, CapabilitiesView, EncodeConfig, EncoderCapabilities,
};
use crate::encode::planes::{with_rows, write_rows};
use crate::error::{ErrorView, FluxError};
use crate::frame::{CapturedFrame, CapturedView, EncodedPacket, PacketView};
use crate::text::{decimal, push_decimal, push_signed_decimal, signed_decimal};
use crate::types::{
    codec_text, pixel_format_text, push_resolution, resolution_text, DynamicRange, PixelFormat,
    RateControlMode, Resolution, VideoCodec,
};

verus! {

/// Surfaces that a hardware encoder keeps.
pub const HW_POOL_SIZE: i32 = 20;

/// Pixel formats of libavutil.
#[derive(Debug, Clone, Copy, PartialEq, Eq, Structural)]
pub enum Pixel {
    Bgra,
    Rgba,
    Nv12,
    P010Le,
    Yuv420p,
    /// A VA-API surface.
    Vaapi,
    /// A Vulkan image.
    Vulkan,
}

/// Hardware interfaces.
#[derive(Debug, Clone, Copy, PartialEq, Eq, Structural)]
pub enum HwApi {
    Vaapi,
    Vulkan,
}

/// What a session encodes on.
#[derive(Debug, Clone, Copy, PartialEq, Eq, Structural)]
pub enum Accel {
    Hardware(HwApi),
    Software,
}

/// The libavcodec encoder of a codec on an interface. AV1 has none.
pub open spec fn hardware_encoder(api: HwApi, codec: VideoCodec) -> Option<Seq<char>> {
    match codec {
        VideoCodec::H264 => Some(
            match api {
                HwApi::Vaapi => "h264_vaapi"@,
                HwApi::Vulkan => "h264_vulkan"@,
            },
        ),
        VideoCodec::H265 => Some(
            match api {
                HwApi::Vaapi => "hevc_vaapi"@,
                HwApi::Vulkan => "hevc_vulkan"@,
            },
        ),
        VideoCodec::Av1 => None,
    }
}

/// Whether an optional text is the one that a specification names.
pub open spec fn names(found: Option<&'static str>, expected: Option<Seq<char>>) -> bool {
    match found {
        Some(text) => expected == Some(text@),
        None => expected is None,
    }
}

impl HwApi {
    /// The format of the surfaces of an interface.
    pub fn hw_pix_fmt(self) -> (format: Pixel)
        ensures
            format == match self {
                HwApi::Vaapi => Pixel::Vaapi,
                HwApi::Vulkan => Pixel::Vulkan,
            },
    {
        match self {
            HwApi::Vaapi => Pixel::Vaapi,
            HwApi::Vulkan => Pixel::Vulkan,
        }
    }

    /// The libavcodec encoder of a codec on the interface.
    pub fn encoder_name(self, codec: VideoCodec) -> (name: Option<&'static str>)
        ensures
            names(name, hardware_encoder(self, codec)),
    {
        match (self, codec) {
            (HwApi::Vaapi, VideoCodec::H264) => Some("h264_vaapi"),
            (HwApi::Vaapi, VideoCodec::H265) => Some("hevc_vaapi"),
            (HwApi::Vulkan, VideoCodec::H264) => Some("h264_vulkan"),
            (HwApi::Vulkan, VideoCodec::H265) => Some("hevc_vulkan"),
            (_, VideoCodec::Av1) => None,
        }
    }
}

/// The VA-API encoder of a codec.
pub fn encoder_name(codec: VideoCodec) -> (name: Option<&'static str>)
    ensures
        names(name, hardware_encoder(HwApi::Vaapi, codec)),
{
    HwApi::Vaapi.encoder_name(codec)
}

/// The format that a captured frame is presented in: packed RGB only.
pub open spec fn source_format(format: PixelFormat) -> Option<Pixel> {
    match format {
        PixelFormat::Bgra8 => Some(Pixel::Bgra),
        PixelFormat::Rgba8 => Some(Pixel::Rgba),
        PixelFormat::Nv12 | PixelFormat::I420 | PixelFormat::P010 => None,
    }
}

/// The format that a captured frame is presented in.
pub fn source_pixel_format(format: PixelFormat) -> (pixel: Option<Pixel>)
    ensures
        pixel == source_format(format),
{
    match format {
        PixelFormat::Bgra8 => Some(Pixel::Bgra),
        PixelFormat::Rgba8 => Some(Pixel::Rgba),
        PixelFormat::Nv12 | PixelFormat::I420 | PixelFormat::P010 => None,
    }
}

/// The format of the pixels in hardware surfaces.
pub open spec fn surface_format(range: DynamicRange) -> Pixel {
    match range {
        DynamicRange::Sdr => Pixel::Nv12,
        DynamicRange::Hdr10 => Pixel::P010Le,
    }
}

/// The format of the pixels in hardware surfaces: eight bits, or ten for HDR.
pub fn surface_sw_format(range: DynamicRange) -> (pixel: Pixel)
    ensures
        pixel == surface_format(range),
{
    match range {
        DynamicRange::Sdr => Pixel::Nv12,
        DynamicRange::Hdr10 => Pixel::P010Le,
    }
}

/// The group of pictures for libavcodec; keyframes on request only become the
/// largest one.
pub open spec fn finite_gop(gop_size: u32) -> u32 {
    if gop_size == 0 {
        0x7fff_ffff
    } else {
        gop_size
    }
}

/// The group of pictures for libavcodec.
pub fn effective_gop(gop_size: u32) -> (gop: u32)
    ensures
        gop == finite_gop(gop_size),
{
    if gop_size == 0 {
        0x7fff_ffff
    } else {
        gop_size
    }
}

/// Options by name and value, in order.
pub open spec fn option_views(options: Seq<(&'static str, String)>) -> Seq<(Seq<char>, Seq<char>)> {
    Seq::new(options.len(), |i: int| (options[i].0@, options[i].1@))
}

/// The options of a VA-API encoder: its rate control, and no queued frames.
pub open spec fn vaapi_options(config: EncodeConfig) -> Seq<(Seq<char>, Seq<char>)> {
    seq![
        (
            "rc_mode"@,
            match config.rate_control {
                RateControlMode::Cbr => "CBR"@,
                RateControlMode::Vbr => "VBR"@,
                RateControlMode::Cqp => "CQP"@,
            },
        ),
        ("async_depth"@, "1"@),
    ]
}

/// The options of a Vulkan encoder: no queued frames.
pub open spec fn vulkan_options() -> Seq<(Seq<char>, Seq<char>)> {
    seq![("async_depth"@, "1"@)]
}

/// The options of a software encoder. Only x264 and x265 have any.
pub open spec fn software_options(encoder: Seq<char>) -> Seq<(Seq<char>, Seq<char>)> {
    if encoder == "libx264"@ || encoder == "libx265"@ {
        seq![("preset"@, "ultrafast"@), ("tune"@, "zerolatency"@)]
    } else {
        Seq::empty()
    }
}

/// The options of a VA-API encoder.
pub fn low_latency_options(config: &EncodeConfig) -> (options: Vec<(&'static str, String)>)
    ensures
        option_views(options@) == vaapi_options(*config),
{
    let rc_mode: &'static str = match config.rate_control {
        RateControlMode::Cbr => "CBR",
        RateControlMode::Vbr => "VBR",
        RateControlMode::Cqp => "CQP",
    };
    let options: Vec<(&'static str, String)> = vec![
        ("rc_mode", rc_mode.to_string()),
        ("async_depth", "1".to_string()),
    ];
    assert(option_views(options@) =~= vaapi_options(*config));
    options
}

/// The options of a Vulkan encoder.
pub fn vk_low_latency_options(_config: &EncodeConfig) -> (options: Vec<(&'static str, String)>)
    ensures
        option_views(options@) == vulkan_options(),
{
    let options: Vec<(&'static str, String)> = vec![("async_depth", "1".to_string())];
    assert(option_views(options@) =~= vulkan_options());
    options
}

/// The options of a software encoder.
pub fn sw_low_latency_options(encoder_name: &str) -> (options: Vec<(&'static str, String)>)
    ensures
        option_views(options@) == software_options(encoder_name@),
{
    let name: String = encoder_name.to_string();
    let options: Vec<(&'static str, String)> = if name == "libx264".to_string() || name
        == "libx265".to_string() {
        vec![("preset", "ultrafast".to_string()), ("tune", "zerolatency".to_string())]
    } else {
        Vec::new()
    };
    assert(option_views(options@) =~= software_options(encoder_name@));
    options
}

/// The software encoders that an FFmpeg build has.
#[derive(Debug, Clone, Copy, PartialEq, Eq, Structural)]
pub struct SoftwareEncoders {
    pub x264: bool,
    pub openh264: bool,
    pub x265: bool,
}

/// The software encoder of a codec: the first that the build has.
pub open spec fn software_encoder(codec: VideoCodec, available: SoftwareEncoders) -> Option<Seq<char>> {
    match codec {
        VideoCodec::H264 => if available.x264 {
            Some("libx264"@)
        } else if available.openh264 {
            Some("libopenh264"@)
        } else {
            None
        },
        VideoCodec::H265 => if available.x265 {
            Some("libx265"@)
        } else {
            None
        },
        VideoCodec::Av1 => None,
    }
}

/// The software encoder of a codec.
pub fn sw_encoder_name(codec: VideoCodec, available: &SoftwareEncoders) -> (name: Option<&'static str>)
    ensures
        names(name, software_encoder(codec, *available)),
{
    match codec {
        VideoCodec::H264 => if available.x264 {
            Some("libx264")
        } else if available.openh264 {
            Some("libopenh264")
        } else {
            None
        },
        VideoCodec::H265 => if available.x265 {
            Some("libx265")
        } else {
            None
        },
        VideoCodec::Av1 => None,
    }
}

/// Why no hardware interface encodes with some parameters, if none does.
pub open spec fn hardware_refusal(config: EncodeConfig) -> Option<Seq<char>> {
    if hardware_encoder(HwApi::Vaapi, config.codec) is None {
        Some("FFmpeg backend does not encode "@ + codec_text(config.codec) + " (only H.264/H.265)"@)
    } else if config.dynamic_range == DynamicRange::Hdr10 && config.codec != VideoCodec::H265 {
        Some("HDR10 encode requires HEVC (Main10)"@)
    } else {
        None
    }
}

/// Refuses what no hardware interface encodes.
pub fn validate(config: &EncodeConfig) -> (result: Result<(), FluxError>)
    ensures
        match hardware_refusal(*config) {
            Some(reason) => result matches Err(e) && e@ == ErrorView::EncoderInit(reason),
            None => result is Ok,
        },
{
    if encoder_name(config.codec).is_none() {
        let mut text = "FFmpeg backend does not encode ".to_string();
        text.append(config.codec.name());
        text.append(" (only H.264/H.265)");
        return Err(FluxError::EncoderInit(text));
    }
    if config.dynamic_range == DynamicRange::Hdr10 && config.codec != VideoCodec::H265 {
        return Err(FluxError::EncoderInit("HDR10 encode requires HEVC (Main10)".to_string()));
    }
    Ok(())
}

/// The codecs that a build has encoders for.
pub open spec fn built_codecs(h264: bool, h265: bool) -> Seq<VideoCodec> {
    if h264 && h265 {
        seq![VideoCodec::H264, VideoCodec::H265]
    } else if h264 {
        seq![VideoCodec::H264]
    } else if h265 {
        seq![VideoCodec::H265]
    } else {
        Seq::empty()
    }
}

fn codec_list(h264: bool, h265: bool) -> (codecs: Vec<VideoCodec>)
    ensures
        codecs@ == built_codecs(h264, h265),
{
    let mut codecs: Vec<VideoCodec> = Vec::new();
    if h264 {
        codecs.push(VideoCodec::H264);
    }
    if h265 {
        codecs.push(VideoCodec::H265);
    }
    assert(codecs@ =~= built_codecs(h264, h265));
    codecs
}

/// What a hardware interface offers; HDR comes with HEVC.
pub open spec fn hardware_offer(name: Seq<char>, h264: bool, h265: bool) -> CapabilitiesView {
    CapabilitiesView {
        name,
        supported_codecs: built_codecs(h264, h265),
        supports_hdr: h265,
        supports_yuv444: false,
        max_resolution: Resolution { width: 7680, height: 4320 },
        max_framerate: 240,
    }
}

/// Why an encoder cannot encode with some parameters, if it cannot.
pub open spec fn offer_refusal(offer: CapabilitiesView, label: Seq<char>, config: EncodeConfig) -> Option<
    Seq<char>,
> {
    if hardware_refusal(config) is Some {
        hardware_refusal(config)
    } else if !offer.supported_codecs.contains(config.codec) {
        Some("FFmpeg build has no "@ + label + " encoder for "@ + codec_text(config.codec))
    } else if config.resolution.width > offer.max_resolution.width || config.resolution.height
        > offer.max_resolution.height {
        Some(
            "resolution "@ + resolution_text(config.resolution) + " exceeds FFmpeg "@ + label
                + " maximum "@ + resolution_text(offer.max_resolution),
        )
    } else {
        None
    }
}

fn validate_offer(offer: &EncoderCapabilities, label: &str, config: &EncodeConfig) -> (result: Result<
    (),
    FluxError,
>)
    ensures
        match offer_refusal(offer@, label@, *config) {
            Some(reason) => result matches Err(e) && e@ == ErrorView::EncoderInit(reason),
            None => result is Ok,
        },
{
    validate(config)?;
    if !has_codec(&offer.supported_codecs, config.codec) {
        let mut text = "FFmpeg build has no ".to_string();
        text.append(label);
        text.append(" encoder for ");
        text.append(config.codec.name());
        return Err(FluxError::EncoderInit(text));
    }
    let max: Resolution = offer.max_resolution;
    if config.resolution.width > max.width || config.resolution.height > max.height {
        let mut text = "resolution ".to_string();
        push_resolution(&mut text, config.resolution);
        text.append(" exceeds FFmpeg ");
        text.append(label);
        text.append(" maximum ");
        push_resolution(&mut text, max);
        return Err(FluxError::EncoderInit(text));
    }
    Ok(())
}

/// The FFmpeg encoder on VA-API.
pub struct FfmpegVaapiEncoder {
    capabilities: EncoderCapabilities,
}

impl FfmpegVaapiEncoder {
    /// What the encoder offers.
    pub closed spec fn offer(self) -> CapabilitiesView {
        self.capabilities@
    }

    /// The encoder of a build, given which of its VA-API encoders the build has.
    pub fn new(h264: bool, h265: bool) -> (result: Result<Self, FluxError>)
        ensures
            if h264 || h265 {
                result matches Ok(encoder) && encoder.offer() == hardware_offer(
                    "ffmpeg-vaapi"@,
                    h264,
                    h265,
                )
            } else {
                result matches Err(e) && e@ == ErrorView::EncoderInit(
                    "FFmpeg build exposes no VA-API video encoder (need h264_vaapi/hevc_vaapi)"@,
                )
            },
    {
        if !h264 && !h265 {
            return Err(
                FluxError::EncoderInit(
                    "FFmpeg build exposes no VA-API video encoder (need h264_vaapi/hevc_vaapi)".to_string(),
                ),
            );
        }
        Ok(
            Self {
                capabilities: EncoderCapabilities {
                    name: "ffmpeg-vaapi",
                    supported_codecs: codec_list(h264, h265),
                    supports_hdr: h265,
                    supports_yuv444: false,
                    max_resolution: Resolution::new(7680, 4320),
                    max_framerate: 240,
                },
            },
        )
    }

    /// What the encoder offers.
    pub fn capabilities(&self) -> (result: Result<EncoderCapabilities, FluxError>)
        ensures
            result matches Ok(report) && report@ == self.offer(),
    {
        Ok(self.capabilities.duplicate())
    }

    /// Refuses what the encoder cannot encode.
    pub fn validate_config(&self, config: &EncodeConfig) -> (result: Result<(), FluxError>)
        ensures
            match offer_refusal(self.offer(), "VA-API"@, *config) {
                Some(reason) => result matches Err(e) && e@ == ErrorView::EncoderInit(reason),
                None => result is Ok,
            },
    {
        validate_offer(&self.capabilities, "VA-API", config)
    }
}

/// The FFmpeg encoder on Vulkan.
pub struct FfmpegVulkanEncoder {
    capabilities: EncoderCapabilities,
}

impl FfmpegVulkanEncoder {
    /// What the encoder offers.
    pub closed spec fn offer(self) -> CapabilitiesView {
        self.capabilities@
    }

    /// The encoder of a build, given which of its Vulkan encoders the build has.
    pub fn new(h264: bool, h265: bool) -> (result: Result<Self, FluxError>)
        ensures
            if h264 || h265 {
                result matches Ok(encoder) && encoder.offer() == hardware_offer(
                    "ffmpeg-vulkan"@,
                    h264,
                    h265,
                )
            } else {
                result matches Err(e) && e@ == ErrorView::EncoderInit(
                    "FFmpeg build exposes no Vulkan video encoder (need h264_vulkan/hevc_vulkan; requires FFmpeg >= 7.0)"@,
                )
            },
    {
        if !h264 && !h265 {
            return Err(
                FluxError::EncoderInit(
                    "FFmpeg build exposes no Vulkan video encoder (need h264_vulkan/hevc_vulkan; requires FFmpeg >= 7.0)".to_string(),
                ),
            );
        }
        Ok(
            Self {
                capabilities: EncoderCapabilities {
                    name: "ffmpeg-vulkan",
                    supported_codecs: codec_list(h264, h265),
                    supports_hdr: h265,
                    supports_yuv444: false,
                    max_resolution: Resolution::new(7680, 4320),
                    max_framerate: 240,
                },
            },
        )
    }

    /// What the encoder offers.
    pub fn capabilities(&self) -> (result: Result<EncoderCapabilities, FluxError>)
        ensures
            result matches Ok(report) && report@ == self.offer(),
    {
        Ok(self.capabilities.duplicate())
    }

    /// Refuses what the encoder cannot encode.
    pub fn validate_config(&self, config: &EncodeConfig) -> (result: Result<(), FluxError>)
        ensures
            match offer_refusal(self.offer(), "Vulkan"@, *config) {
                Some(reason) => result matches Err(e) && e@ == ErrorView::EncoderInit(reason),
                None => result is Ok,
            },
    {
        validate_offer(&self.capabilities, "Vulkan", config)
    }
}

/// The FFmpeg encoders on the CPU.
pub struct FfmpegSoftwareEncoder {
    capabilities: EncoderCapabilities,
}

/// Why the CPU encoders cannot encode with some parameters, if they cannot.
pub open spec fn software_refusal(offer: CapabilitiesView, config: EncodeConfig) -> Option<Seq<char>> {
    if !offer.supported_codecs.contains(config.codec) {
        Some("FFmpeg software backend has no encoder for "@ + codec_text(config.codec))
    } else if config.dynamic_range == DynamicRange::Hdr10 {
        Some("HDR10 is not supported by the FFmpeg software fallback"@)
    } else {
        None
    }
}

impl FfmpegSoftwareEncoder {
    /// What the encoder offers.
    pub closed spec fn offer(self) -> CapabilitiesView {
        self.capabilities@
    }

    /// The encoder of a build, given which of the CPU encoders the build has.
    pub fn new(available: &SoftwareEncoders) -> (result: Result<Self, FluxError>)
        ensures
            ({
                let h264 = available.x264 || available.openh264;
                if h264 || available.x265 {
                    result matches Ok(encoder) && encoder.offer() == (CapabilitiesView {
                        supports_hdr: false,
                        ..hardware_offer("ffmpeg-software"@, h264, available.x265)
                    })
                } else {
                    result matches Err(e) && e@ == ErrorView::EncoderInit(
                        "FFmpeg build exposes no software H.264/H.265 encoder (need libx264/libx265)"@,
                    )
                }
            }),
    {
        let h264: bool = sw_encoder_name(VideoCodec::H264, available).is_some();
        let h265: bool = sw_encoder_name(VideoCodec::H265, available).is_some();
        if !h264 && !h265 {
            return Err(
                FluxError::EncoderInit(
                    "FFmpeg build exposes no software H.264/H.265 encoder (need libx264/libx265)".to_string(),
                ),
            );
        }
        Ok(
            Self {
                capabilities: EncoderCapabilities {
                    name: "ffmpeg-software",
                    supported_codecs: codec_list(h264, h265),
                    supports_hdr: false,
                    supports_yuv444: false,
                    max_resolution: Resolution::new(7680, 4320),
                    max_framerate: 240,
                },
            },
        )
    }

    /// What the encoder offers.
    pub fn capabilities(&self) -> (result: Result<EncoderCapabilities, FluxError>)
        ensures
            result matches Ok(report) && report@ == self.offer(),
    {
        Ok(self.capabilities.duplicate())
    }

    /// Refuses what the encoder cannot encode.
    pub fn validate_config(&self, config: &EncodeConfig) -> (result: Result<(), FluxError>)
        ensures
            match software_refusal(self.offer(), *config) {
                Some(reason) => result matches Err(e) && e@ == ErrorView::EncoderInit(reason),
                None => result is Ok,
            },
    {
        if !has_codec(&self.capabilities.supported_codecs, config.codec) {
            let mut text = "FFmpeg software backend has no encoder for ".to_string();
            text.append(config.codec.name());
            return Err(FluxError::EncoderInit(text));
        }
        if config.dynamic_range == DynamicRange::Hdr10 {
            return Err(
                FluxError::EncoderInit(
                    "HDR10 is not supported by the FFmpeg software fallback".to_string(),
                ),
            );
        }
        Ok(())
    }
}

/// The path of a render node.
pub open spec fn render_node(number: int) -> Seq<char> {
    "/dev/dri/renderD"@ + decimal(number as nat)
}

/// Devices by name, in order; one without a name is the default.
pub open spec fn device_views(devices: Seq<Option<String>>) -> Seq<Option<Seq<char>>> {
    Seq::new(
        devices.len(),
        |i: int|
            match devices[i] {
                Some(name) => Some(name@),
                None => None,
            },
    )
}

/// A device that the environment asks for, unless it is empty.
pub open spec fn wished_device(wish: Option<String>) -> Seq<Option<Seq<char>>> {
    match wish {
        Some(name) => if name@.len() > 0 {
            seq![Some(name@)]
        } else {
            Seq::empty()
        },
        None => Seq::empty(),
    }
}

/// The first `count` render nodes from number 128 on, those that exist.
pub open spec fn existing_nodes(exists_at: Seq<bool>, count: nat) -> Seq<Option<Seq<char>>>
    decreases count,
{
    if count == 0 {
        Seq::empty()
    } else {
        let before = existing_nodes(exists_at, (count - 1) as nat);
        if exists_at[count - 1] {
            before.push(Some(render_node(128 + count - 1)))
        } else {
            before
        }
    }
}

fn start_candidates(wish: Option<String>) -> (candidates: Vec<Option<String>>)
    ensures
        device_views(candidates@) == wished_device(wish),
{
    let mut candidates: Vec<Option<String>> = Vec::new();
    if let Some(name) = wish {
        if name.as_str().unicode_len() > 0 {
            candidates.push(Some(name));
        }
    }
    assert(device_views(candidates@) =~= wished_device(wish));
    candidates
}

/// The VA-API devices to try: the one asked for, the render nodes that exist
/// among the first eight, and the default.
pub fn vaapi_device_candidates(wish: Option<String>, exists_at: &[bool; 8]) -> (candidates: Vec<
    Option<String>,
>)
    ensures
        device_views(candidates@) == wished_device(wish) + existing_nodes(exists_at@, 8) + seq![
            None::<Seq<char>>,
        ],
{
    let ghost wished = wished_device(wish);
    let mut candidates: Vec<Option<String>> = start_candidates(wish);
    for node in 0..8usize
        invariant
            exists_at@.len() == 8,
            device_views(candidates@) == wished + existing_nodes(exists_at@, node as nat),
    {
        let ghost before = device_views(candidates@);
        if exists_at[node] {
            let mut path = "/dev/dri/renderD".to_string();
            push_decimal(&mut path, 128 + node as u64);
            candidates.push(Some(path));
            assert(device_views(candidates@) =~= before.push(Some(render_node(128 + node))));
        }
        assert(device_views(candidates@) =~= wished + existing_nodes(exists_at@, (node + 1) as nat));
    }
    candidates.push(None);
    assert(device_views(candidates@) =~= wished + existing_nodes(exists_at@, 8) + seq![
        None::<Seq<char>>,
    ]);
    candidates
}

/// The Vulkan devices to try: the one asked for, and the default.
pub fn vulkan_device_candidates(wish: Option<String>) -> (candidates: Vec<Option<String>>)
    ensures
        device_views(candidates@) == wished_device(wish) + seq![None::<Seq<char>>],
{
    let ghost wished = wished_device(wish);
    let mut candidates: Vec<Option<String>> = start_candidates(wish);
    candidates.push(None);
    assert(device_views(candidates@) =~= wished + seq![None::<Seq<char>>]);
    candidates
}

/// The error where no device could be opened, with the code of the last attempt.
pub fn device_error(label: &str, last_ret: i32, hint: &str) -> (error: FluxError)
    ensures
        error@ == ErrorView::EncoderInit(
            "failed to create "@ + label@ + " device context (av_hwdevice_ctx_create returned "@
                + signed_decimal(last_ret as int) + "); "@ + hint@,
        ),
{
    let mut text = "failed to create ".to_string();
    text.append(label);
    text.append(" device context (av_hwdevice_ctx_create returned ");
    push_signed_decimal(&mut text, last_ret);
    text.append("); ");
    text.append(hint);
    FluxError::EncoderInit(text)
}

/// The parameters of a codec context.
pub struct ContextPlan {
    pub encoder: &'static str,
    pub width: i32,
    pub height: i32,
    /// Frames of a second: the rate, and the denominator of the time base.
    pub framerate: i32,
    pub gop_size: i32,
    pub max_b_frames: i32,
    pub refs: i32,
    pub bit_rate: i64,
    pub rc_max_rate: i64,
    pub rc_buffer_size: i32,
    /// The format that the encoder takes in.
    pub pix_fmt: Pixel,
    /// The format of the pixels on the CPU.
    pub sw_format: Pixel,
    pub options: Vec<(&'static str, String)>,
}

/// The encoder that a session drives.
pub open spec fn session_encoder(config: EncodeConfig, accel: Accel, available: SoftwareEncoders) -> Option<
    Seq<char>,
> {
    match accel {
        Accel::Hardware(api) => hardware_encoder(api, config.codec),
        Accel::Software => software_encoder(config.codec, available),
    }
}

/// A number that is at least one.
pub open spec fn at_least_one(n: u32) -> u32 {
    if n < 1 {
        1
    } else {
        n
    }
}

/// The parameters of a session, or the error where no encoder drives its codec.
pub fn plan_session(config: &EncodeConfig, accel: Accel, available: &SoftwareEncoders) -> (result: Result<
    ContextPlan,
    FluxError,
>)
    ensures
        match session_encoder(*config, accel, *available) {
            Some(name) => {
                let bits = config.bitrate_kbps * 1000;
                let sw_format = match accel {
                    Accel::Hardware(_) => surface_format(config.dynamic_range),
                    Accel::Software => Pixel::Yuv420p,
                };
                &&& result matches Ok(plan)
                &&& plan.encoder@ == name
                &&& plan.width == config.resolution.width as i32
                &&& plan.height == config.resolution.height as i32
                &&& plan.framerate == at_least_one(config.framerate) as i32
                &&& plan.gop_size == finite_gop(config.gop_size) as i32
                &&& plan.max_b_frames == config.b_frames as i32
                &&& plan.refs == at_least_one(config.max_ref_frames) as i32
                &&& plan.bit_rate == bits
                &&& plan.rc_max_rate == bits
                &&& plan.rc_buffer_size == if bits > i32::MAX {
                    i32::MAX as int
                } else {
                    bits
                }
                &&& plan.sw_format == sw_format
                &&& plan.pix_fmt == match accel {
                    Accel::Hardware(HwApi::Vaapi) => Pixel::Vaapi,
                    Accel::Hardware(HwApi::Vulkan) => Pixel::Vulkan,
                    Accel::Software => sw_format,
                }
                &&& option_views(plan.options@) == match accel {
                    Accel::Hardware(HwApi::Vaapi) => vaapi_options(*config),
                    Accel::Hardware(HwApi::Vulkan) => vulkan_options(),
                    Accel::Software => software_options(name),
                }
            },
            None => result matches Err(e) && e@ == ErrorView::EncoderInit(
                match accel {
                    Accel::Hardware(_) => "unsupported codec"@,
                    Accel::Software => "no software FFmpeg encoder for "@ + codec_text(config.codec)
                        + " (need libx264/libx265)"@,
                },
            ),
        },
{
    let encoder: &'static str = match accel {
        Accel::Hardware(api) => match api.encoder_name(config.codec) {
            Some(name) => name,
            None => {
                return Err(FluxError::EncoderInit("unsupported codec".to_string()));
            },
        },
        Accel::Software => match sw_encoder_name(config.codec, available) {
            Some(name) => name,
            None => {
                let mut text = "no software FFmpeg encoder for ".to_string();
                text.append(config.codec.name());
                text.append(" (need libx264/libx265)");
                return Err(FluxError::EncoderInit(text));
            },
        },
    };
    let sw_format: Pixel = match accel {
        Accel::Hardware(_) => surface_sw_format(config.dynamic_range),
        Accel::Software => Pixel::Yuv420p,
    };
    let bits: i64 = config.bitrate_kbps as i64 * 1000;
    let framerate: u32 = if config.framerate < 1 {
        1
    } else {
        config.framerate
    };
    let refs: u32 = if config.max_ref_frames < 1 {
        1
    } else {
        config.max_ref_frames
    };
    Ok(
        ContextPlan {
            encoder,
            width: config.resolution.width as i32,
            height: config.resolution.height as i32,
            framerate: framerate as i32,
            gop_size: effective_gop(config.gop_size) as i32,
            max_b_frames: config.b_frames as i32,
            refs: refs as i32,
            bit_rate: bits,
            rc_max_rate: bits,
            rc_buffer_size: if bits > i32::MAX as i64 {
                i32::MAX
            } else {
                bits as i32
            },
            pix_fmt: match accel {
                Accel::Hardware(api) => api.hw_pix_fmt(),
                Accel::Software => sw_format,
            },
            sw_format,
            options: match accel {
                Accel::Hardware(HwApi::Vaapi) => low_latency_options(config),
                Accel::Hardware(HwApi::Vulkan) => vk_low_latency_options(config),
                Accel::Software => sw_low_latency_options(encoder),
            },
        },
    )
}

/// The stride of a captured packed frame, never shorter than its rows.
pub open spec fn packed_stride(frame: CapturedView) -> int {
    if frame.stride > frame.resolution.width * 4 {
        frame.stride as int
    } else {
        frame.resolution.width * 4
    }
}

/// Copies the pixels of a captured frame into a picture with lines of its own
/// length.
pub fn copy_packed_rgb(dst: &mut [u8], dst_stride: usize, frame: &CapturedFrame) -> (result: Result<
    (),
    FluxError,
>)
    requires
        frame.resolution.width * 4 <= usize::MAX,
        packed_stride(frame@) * frame.resolution.height <= usize::MAX,
        frame.data@.len() >= packed_stride(frame@) * frame.resolution.height && frame.resolution.height
            > 0 ==> dst_stride * (frame.resolution.height - 1) + frame.resolution.width * 4 <= old(
            dst,
        )@.len(),
    ensures
        if frame.data@.len() < packed_stride(frame@) * frame.resolution.height {
            &&& result matches Err(e)
            &&& e@ == (ErrorView::Encode {
                frame: frame.sequence,
                reason: "RGB buffer too small: "@ + decimal(frame.data@.len()) + " bytes, need stride "@
                    + decimal(packed_stride(frame@) as nat) + " * height "@ + decimal(
                    frame.resolution.height as nat,
                ),
            })
            &&& final(dst)@ == old(dst)@
        } else {
            result is Ok && final(dst)@ == with_rows(
                old(dst)@,
                0,
                dst_stride as int,
                frame.data@,
                0,
                packed_stride(frame@),
                frame.resolution.width * 4,
                frame.resolution.height as nat,
            )
        },
{
    let row_bytes: usize = frame.resolution.width as usize * 4;
    let h: usize = frame.resolution.height as usize;
    let src_stride: usize = if frame.stride as usize > row_bytes {
        frame.stride as usize
    } else {
        row_bytes
    };
    assert(0 <= src_stride * h) by (nonlinear_arith)
        requires
            0 <= src_stride,
            0 <= h,
    ;
    if frame.data.len() < src_stride * h {
        let mut reason = "RGB buffer too small: ".to_string();
        push_decimal(&mut reason, frame.data.len() as u64);
        reason.append(" bytes, need stride ");
        push_decimal(&mut reason, src_stride as u64);
        reason.append(" * height ");
        push_decimal(&mut reason, h as u64);
        return Err(FluxError::Encode { frame: frame.sequence, reason });
    }
    write_rows(dst, 0, dst_stride, frame.data.as_slice(), 0, src_stride, row_bytes, h);
    Ok(())
}

/// A session with an FFmpeg encoder.
pub struct FfmpegSession {
    scaler: Option<Pixel>,
    width: u32,
    height: u32,
    force_idr: bool,
    pts: i64,
}

impl FfmpegSession {
    /// The format that frames are converted from.
    pub closed spec fn converter(self) -> Option<Pixel> {
        self.scaler
    }

    /// The size of the frames.
    pub closed spec fn size(self) -> Resolution {
        Resolution { width: self.width, height: self.height }
    }

    /// Whether the next frame is a keyframe.
    pub closed spec fn keyframe_due(self) -> bool {
        self.force_idr
    }

    /// The time of the next frame.
    pub closed spec fn next_pts(self) -> i64 {
        self.pts
    }

    /// A session whose first frame is a keyframe.
    pub fn new(config: &EncodeConfig) -> (session: Self)
        ensures
            session.converter() is None,
            session.size() == config.resolution,
            session.keyframe_due(),
            session.next_pts() == 0,
    {
        Self {
            scaler: None,
            width: config.resolution.width,
            height: config.resolution.height,
            force_idr: true,
            pts: 0,
        }
    }

    /// The format that a frame is presented in. Frames of another layout or size,
    /// or without pixels, are refused.
    pub fn accept(&self, frame: &CapturedFrame) -> (result: Result<Pixel, FluxError>)
        ensures
            match source_format(frame.format) {
                None => result matches Err(e) && e@ == (ErrorView::Encode {
                    frame: frame.sequence,
                    reason: "FFmpeg VA-API backend needs packed RGB input; "@ + pixel_format_text(
                        frame.format,
                    ) + " not supported yet"@,
                }),
                Some(format) => if frame.resolution != self.size() {
                    result matches Err(e) && e@ == (ErrorView::Encode {
                        frame: frame.sequence,
                        reason: "frame resolution "@ + resolution_text(frame.resolution)
                            + " does not match encoder "@ + resolution_text(self.size()),
                    })
                } else if frame.data@.len() == 0 {
                    result matches Err(e) && e@ == (ErrorView::Encode {
                        frame: frame.sequence,
                        reason: "frame has no CPU pixel data to upload (DMA-BUF import not yet wired)"@,
                    })
                } else {
                    result matches Ok(accepted) && accepted == format
                },
            },
    {
        let format: Pixel = match source_pixel_format(frame.format) {
            Some(format) => format,
            None => {
                let mut reason = "FFmpeg VA-API backend needs packed RGB input; ".to_string();
                reason.append(frame.format.name());
                reason.append(" not supported yet");
                return Err(FluxError::Encode { frame: frame.sequence, reason });
            },
        };
        if frame.resolution.width != self.width || frame.resolution.height != self.height {
            let mut reason = "frame resolution ".to_string();
            push_resolution(&mut reason, frame.resolution);
            reason.append(" does not match encoder ");
            push_resolution(&mut reason, Resolution { width: self.width, height: self.height });
            return Err(FluxError::Encode { frame: frame.sequence, reason });
        }
        if frame.data.len() == 0 {
            return Err(
                FluxError::Encode {
                    frame: frame.sequence,
                    reason: "frame has no CPU pixel data to upload (DMA-BUF import not yet wired)".to_string(),
                },
            );
        }
        Ok(format)
    }

    /// Whether the converter has to be made anew for a format.
    pub fn needs_converter(&self, format: Pixel) -> (needed: bool)
        ensures
            needed == (self.converter() != Some(format)),
    {
        match self.scaler {
            Some(current) => current != format,
            None => true,
        }
    }

    /// Notes that the converter was made for a format.
    pub fn converter_made(&mut self, format: Pixel)
        ensures
            final(self).converter() == Some(format),
            final(self).size() == old(self).size(),
            final(self).keyframe_due() == old(self).keyframe_due(),
            final(self).next_pts() == old(self).next_pts(),
    {
        self.scaler = Some(format);
    }

    /// Stamps a frame: its time, and whether it is to be a keyframe. A keyframe
    /// request is used up.
    pub fn stamp(&mut self) -> (stamp: (i64, bool))
        requires
            old(self).next_pts() < i64::MAX,
        ensures
            stamp.0 == old(self).next_pts(),
            stamp.1 == old(self).keyframe_due(),
            final(self).next_pts() == old(self).next_pts() + 1,
            !final(self).keyframe_due(),
            final(self).size() == old(self).size(),
            final(self).converter() == old(self).converter(),
    {
        let stamp: (i64, bool) = (self.pts, self.force_idr);
        self.force_idr = false;
        self.pts = self.pts + 1;
        stamp
    }

    /// Notes that a frame was not encoded after all. The keyframe that it was to be
    /// stays due for the next one.
    pub fn frame_failed(&mut self, keyframe: bool)
        ensures
            final(self).keyframe_due() == (old(self).keyframe_due() || keyframe),
            final(self).next_pts() == old(self).next_pts(),
            final(self).size() == old(self).size(),
            final(self).converter() == old(self).converter(),
    {
        self.force_idr = self.force_idr || keyframe;
    }

    /// The packet of a coded picture. A picture without a time gets that of the
    /// next frame.
    pub fn packet(&self, pts: Option<i64>, is_key: bool, data: Vec<u8>) -> (packet: EncodedPacket)
        ensures
            ({
                let time = match pts {
                    Some(pts) => pts,
                    None => self.next_pts(),
                };
                packet@ == (PacketView {
                    frame_index: time as u64,
                    pts: time as u64,
                    is_keyframe: is_key,
                    data: data@,
                })
            }),
    {
        let time: i64 = match pts {
            Some(pts) => pts,
            None => self.pts,
        };
        EncodedPacket { frame_index: time as u64, pts: time as u64, is_keyframe: is_key, data }
    }

    /// Makes the next frame a keyframe.
    pub fn request_idr(&mut self)
        ensures
            final(self).keyframe_due(),
            final(self).size() == old(self).size(),
            final(self).next_pts() == old(self).next_pts(),
            final(self).converter() == old(self).converter(),
    {
        self.force_idr = true;
    }

    /// The rates of an open codec context for a bitrate: the target and the peak.
    pub fn bitrate_change(&self, kbps: u32) -> (rates: (i64, i64))
        ensures
            rates.0 == kbps * 1000,
            rates.1 == kbps * 1000,
    {
        let bits: i64 = kbps as i64 * 1000;
        (bits, bits)
    }
}

/// The encoders of the hardware interfaces, and the formats that go in and out.
pub proof fn law_hardware_encoders()
    ensures
        hardware_encoder(HwApi::Vaapi, VideoCodec::H264) == Some("h264_vaapi"@),
        hardware_encoder(HwApi::Vaapi, VideoCodec::H265) == Some("hevc_vaapi"@),
        hardware_encoder(HwApi::Vulkan, VideoCodec::H264) == Some("h264_vulkan"@),
        hardware_encoder(HwApi::Vulkan, VideoCodec::H265) == Some("hevc_vulkan"@),
        forall|api: HwApi| #[trigger] hardware_encoder(api, VideoCodec::Av1) is None,
        source_format(PixelFormat::Bgra8) == Some(Pixel::Bgra),
        source_format(PixelFormat::Rgba8) == Some(Pixel::Rgba),
        source_format(PixelFormat::Nv12) is None,
        source_format(PixelFormat::I420) is None,
        source_format(PixelFormat::P010) is None,
        surface_format(DynamicRange::Sdr) == Pixel::Nv12,
        surface_format(DynamicRange::Hdr10) == Pixel::P010Le,
        HW_POOL_SIZE == 20,
{
}

/// A text has a name, and only its own.
pub proof fn law_names_are_texts(text: &'static str, other: Seq<char>)
    ensures
        names(Some(text), Some(other)) <==> text@ == other,
        !names(Some(text), None),
        !names(None, Some(other)),
        names(None, None),
{
}

/// A session drives the hardware's encoder, or the first that the build has: x264
/// before OpenH264, x265 alone.
pub proof fn law_software_encoders(config: EncodeConfig, api: HwApi, available: SoftwareEncoders)
    ensures
        session_encoder(config, Accel::Hardware(api), available) == hardware_encoder(
            api,
            config.codec,
        ),
        session_encoder(config, Accel::Software, available) == software_encoder(
            config.codec,
            available,
        ),
        available.x264 ==> software_encoder(VideoCodec::H264, available) == Some("libx264"@),
        !available.x264 && available.openh264 ==> software_encoder(VideoCodec::H264, available)
            == Some("libopenh264"@),
        !available.x264 && !available.openh264 ==> software_encoder(VideoCodec::H264, available)
            is None,
        available.x265 ==> software_encoder(VideoCodec::H265, available) == Some("libx265"@),
        !available.x265 ==> software_encoder(VideoCodec::H265, available) is None,
        software_encoder(VideoCodec::Av1, available) is None,
{
}

/// The groups of pictures and the least number of frames.
pub proof fn law_counts_are_finite(n: u32)
    ensures
        n == 0 ==> finite_gop(n) == 0x7fff_ffff && at_least_one(n) == 1,
        n > 0 ==> finite_gop(n) == n && at_least_one(n) == n,
{
}

/// Options are seen by their names and values, in their order.
pub proof fn law_options_are_seen(options: Seq<(&'static str, String)>, i: int)
    requires
        0 <= i < options.len(),
    ensures
        option_views(options).len() == options.len(),
        option_views(options)[i].0 == options[i].0@,
        option_views(options)[i].1 == options[i].1@,
{
}

/// The options of each encoder: VA-API has its rate control and one frame in
/// flight, Vulkan the latter, x264 and x265 the fastest preset and no latency.
pub proof fn law_options_keep_latency_low(config: EncodeConfig, encoder: Seq<char>)
    ensures
        vaapi_options(config).len() == 2,
        vaapi_options(config)[0].0 == "rc_mode"@,
        config.rate_control == RateControlMode::Cbr ==> vaapi_options(config)[0].1 == "CBR"@,
        config.rate_control == RateControlMode::Vbr ==> vaapi_options(config)[0].1 == "VBR"@,
        config.rate_control == RateControlMode::Cqp ==> vaapi_options(config)[0].1 == "CQP"@,
        vaapi_options(config)[1] == ("async_depth"@, "1"@),
        vulkan_options().len() == 1,
        vulkan_options()[0] == ("async_depth"@, "1"@),
        encoder != "libx264"@ && encoder != "libx265"@ ==> software_options(encoder).len() == 0,
        encoder == "libx264"@ || encoder == "libx265"@ ==> {
            &&& software_options(encoder).len() == 2
            &&& software_options(encoder)[0] == ("preset"@, "ultrafast"@)
            &&& software_options(encoder)[1] == ("tune"@, "zerolatency"@)
        },
{
}

/// The hardware encodes H.264, and H.265 with or without HDR10. Nothing else.
pub proof fn law_hardware_refusals(config: EncodeConfig)
    ensures
        hardware_refusal(config) is None <==> config.codec == VideoCodec::H265 || (config.codec
            == VideoCodec::H264 && config.dynamic_range == DynamicRange::Sdr),
        config.codec == VideoCodec::Av1 ==> hardware_refusal(config) == Some(
            "FFmpeg backend does not encode "@ + "Av1"@ + " (only H.264/H.265)"@,
        ),
        config.codec == VideoCodec::H264 && config.dynamic_range == DynamicRange::Hdr10
            ==> hardware_refusal(config) == Some("HDR10 encode requires HEVC (Main10)"@),
{
}

/// A hardware interface offers the codecs that it was built with, up to 7680 by
/// 4320, and refuses the others.
pub proof fn law_hardware_offers(name: Seq<char>, label: Seq<char>, h264: bool, h265: bool, config: EncodeConfig)
    ensures
        ({
            let offer = hardware_offer(name, h264, h265);
            let own = match config.codec {
                VideoCodec::H264 => h264,
                VideoCodec::H265 => h265,
                VideoCodec::Av1 => false,
            };
            let small = config.resolution.width <= 7680 && config.resolution.height <= 4320;
            &&& offer.name == name
            &&& offer.supported_codecs.len() == (if h264 {
                1int
            } else {
                0
            }) + (if h265 {
                1int
            } else {
                0
            })
            &&& offer.supported_codecs.contains(config.codec) <==> own
            &&& h264 ==> offer.supported_codecs[0] == VideoCodec::H264
            &&& offer.supports_hdr == h265
            &&& !offer.supports_yuv444
            &&& offer.max_resolution.width == 7680 && offer.max_resolution.height == 4320
            &&& offer.max_framerate == 240
            &&& hardware_refusal(config) is Some ==> offer_refusal(offer, label, config)
                == hardware_refusal(config)
            &&& hardware_refusal(config) is None && own && small ==> offer_refusal(
                offer,
                label,
                config,
            ) is None
            &&& hardware_refusal(config) is None && !own ==> offer_refusal(offer, label, config)
                == Some(
                "FFmpeg build has no "@ + label + " encoder for "@ + if config.codec
                    == VideoCodec::H264 {
                    "H264"@
                } else {
                    "H265"@
                },
            )
            &&& hardware_refusal(config) is None && own && !small ==> offer_refusal(
                offer,
                label,
                config,
            ) == Some(
                "resolution "@ + (decimal(config.resolution.width as nat) + "x"@ + decimal(
                    config.resolution.height as nat,
                )) + " exceeds FFmpeg "@ + label + " maximum "@ + (decimal(7680) + "x"@ + decimal(
                    4320,
                )),
            )
        }),
{
    let both = seq![VideoCodec::H264, VideoCodec::H265];
    let first = seq![VideoCodec::H264];
    let second = seq![VideoCodec::H265];
    assert(both[0] == VideoCodec::H264 && both[1] == VideoCodec::H265);
    assert(first[0] == VideoCodec::H264);
    assert(second[0] == VideoCodec::H265);
    assert(both.contains(VideoCodec::H264) && both.contains(VideoCodec::H265));
    assert(first.contains(VideoCodec::H264) && second.contains(VideoCodec::H265));
}

/// The CPU encodes what it was built with, without HDR10.
pub proof fn law_software_refusals(offer: CapabilitiesView, config: EncodeConfig)
    ensures
        software_refusal(offer, config) is None <==> offer.supported_codecs.contains(config.codec)
            && config.dynamic_range == DynamicRange::Sdr,
        !offer.supported_codecs.contains(config.codec) ==> software_refusal(offer, config) == Some(
            "FFmpeg software backend has no encoder for "@ + match config.codec {
                VideoCodec::H264 => "H264"@,
                VideoCodec::H265 => "H265"@,
                VideoCodec::Av1 => "Av1"@,
            },
        ),
        offer.supported_codecs.contains(config.codec) && config.dynamic_range
            == DynamicRange::Hdr10 ==> software_refusal(offer, config) == Some(
            "HDR10 is not supported by the FFmpeg software fallback"@,
        ),
{
}

/// The devices to try: first the wished one, unless its name is empty; then each
/// render node that exists, by its number from 128 on, and no other.
pub proof fn law_devices_to_try(wish: Option<String>, exists_at: Seq<bool>, count: nat)
    requires
        count <= exists_at.len(),
    ensures
        wish is None ==> wished_device(wish).len() == 0,
        wish matches Some(name) ==> if name@.len() == 0 {
            wished_device(wish).len() == 0
        } else {
            wished_device(wish).len() == 1 && wished_device(wish)[0] == Some(name@)
        },
        existing_nodes(exists_at, 0).len() == 0,
        count > 0 && exists_at[count - 1] ==> existing_nodes(exists_at, count) == existing_nodes(
            exists_at,
            (count - 1) as nat,
        ).push(Some("/dev/dri/renderD"@ + decimal((127 + count) as nat))),
        count > 0 && !exists_at[count - 1] ==> existing_nodes(exists_at, count) == existing_nodes(
            exists_at,
            (count - 1) as nat,
        ),
        forall|i: int|
            0 <= i < count && #[trigger] exists_at[i] ==> existing_nodes(exists_at, count).contains(
                Some("/dev/dri/renderD"@ + decimal((128 + i) as nat)),
            ),
{
    lemma_existing_nodes(exists_at, count);
}

proof fn lemma_existing_nodes(exists_at: Seq<bool>, count: nat)
    requires
        count <= exists_at.len(),
    ensures
        forall|i: int|
            0 <= i < count && #[trigger] exists_at[i] ==> existing_nodes(exists_at, count).contains(
                Some(render_node(128 + i)),
            ),
    decreases count,
{
    if count > 0 {
        lemma_existing_nodes(exists_at, (count - 1) as nat);
        let before = existing_nodes(exists_at, (count - 1) as nat);
        let after = existing_nodes(exists_at, count);
        assert forall|i: int| 0 <= i < count && #[trigger] exists_at[i] implies after.contains(
            Some(render_node(128 + i)),
        ) by {
            let node = Some(render_node(128 + i));
            if i == count - 1 {
                assert(after[before.len() as int] == node);
            } else {
                let at = choose|at: int| 0 <= at < before.len() && before[at] == node;
                assert(after[at] == node);
            }
        }
    }
}

/// Devices are seen by their names, in their order.
pub proof fn law_devices_are_seen(devices: Seq<Option<String>>, i: int)
    requires
        0 <= i < devices.len(),
    ensures
        device_views(devices).len() == devices.len(),
        devices[i] is None ==> device_views(devices)[i] is None,
        devices[i] matches Some(name) ==> device_views(devices)[i] == Some(name@),
{
}

/// A row of a captured frame starts a stride after the one before, or four bytes a
/// pixel after it where the stride is shorter than that.
pub proof fn law_rows_of_packed_frames(frame: CapturedView)
    ensures
        frame.stride >= frame.resolution.width * 4 ==> packed_stride(frame) == frame.stride,
        frame.stride <= frame.resolution.width * 4 ==> packed_stride(frame)
            == frame.resolution.width * 4,
{
}

} // verus!
