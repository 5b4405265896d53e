//! The AMD encoder: what is asked of the runtime for a session, and what each
//! frame needs.

use vstd::prelude::*;

use crate::encode::config::{CapabilitiesView, EncodeConfig, EncoderCapabilities};
use crate::encode::nal::{contains_idr_nalu, holds_idr};
use crate::error::{ErrorView, FluxError};
use crate::frame::{
    CapturedFrame, CapturedView, EncodedPacket, GpuFrameHandle, HandleView, PacketView,
};
use crate::text::{push_signed_decimal, signed_decimal};
use crate::types::{DynamicRange, RateControlMode, Resolution, VideoCodec};

pub mod constants;
pub mod ffi;

use crate::encode::amf::constants::{
    AMF_VIDEO_ENCODER_AV1, AMF_VIDEO_ENCODER_HEVC, AMF_VIDEO_ENCODER_VCE_AVC, AV1_ENFORCE_HRD,
    AV1_FILLER_DATA, AV1_FORCE_PICTURE_TYPE, AV1_FRAMERATE, AV1_FRAMESIZE, AV1_PEAK_BITRATE,
    AV1_PROFILE, AV1_PROFILE_MAIN, AV1_RATE_CONTROL_METHOD, AV1_RC_CBR, AV1_RC_CQP,
    AV1_RC_VBR_LATENCY, AV1_TARGET_BITRATE, AV1_USAGE, AV1_USAGE_ULTRA_LOW_LATENCY,
    AV1_VBV_BUFFER_SIZE, H264_B_PIC_PATTERN, H264_ENFORCE_HRD, H264_FILLER_DATA,
    H264_FORCE_PICTURE_TYPE, H264_FRAMERATE, H264_FRAMESIZE, H264_HEADER_INSERTION_MODE,
    H264_IDR_PERIOD, H264_INSERT_PPS, H264_INSERT_SPS, H264_OUTPUT_DATA_TYPE, H264_PEAK_BITRATE,
    H264_PROFILE, H264_PROFILE_HIGH, H264_RATE_CONTROL_METHOD, H264_RC_CBR, H264_RC_CQP,
    H264_RC_VBR_LATENCY, H264_TARGET_BITRATE, H264_USAGE, H264_USAGE_LOW_LATENCY,
    H264_VBV_BUFFER_SIZE, HEADER_INSERTION_IDR, HEVC_ENFORCE_HRD, HEVC_FILLER_DATA,
    HEVC_FORCE_PICTURE_TYPE, HEVC_FRAMERATE, HEVC_FRAMESIZE, HEVC_GOP_SIZE, HEVC_MAX_NUM_REFRAMES,
    HEVC_OUTPUT_DATA_TYPE, HEVC_PEAK_BITRATE, HEVC_PROFILE, HEVC_PROFILE_MAIN,
    HEVC_PROFILE_MAIN_10, HEVC_RATE_CONTROL_METHOD, HEVC_RC_CBR, HEVC_RC_CQP, HEVC_RC_VBR_LATENCY,
    HEVC_TARGET_BITRATE, HEVC_TIER, HEVC_TIER_HIGH, HEVC_USAGE, HEVC_USAGE_ULTRA_LOW_LATENCY,
    HEVC_VBV_BUFFER_SIZE, OUTPUT_DATA_TYPE_IDR, PICTURE_TYPE_IDR,
};
use crate::encode::amf::ffi::{
    amf_make_full_version, AMFRate, AMFSize, AMFVariantStruct, AMF_INPUT_FULL, AMF_MIN_VERSION, AMF_OK,
    AMF_SURFACE_BGRA, AMF_SURFACE_NV12, AMF_SURFACE_P010, AMF_SURFACE_RGBA,
};

verus! {

/// The value of a property.
#[derive(Debug, Clone, Copy, PartialEq, Eq, Structural)]
pub enum AmfValue {
    Int(i64),
    Bool(bool),
    Size(AMFSize),
    Rate(AMFRate),
}

impl AmfValue {
    /// The value as it crosses the interface.
    pub fn variant(&self) -> (variant: AMFVariantStruct)
        ensures
            match *self {
                AmfValue::Int(v) => variant.type_ == ffi::AMF_VARIANT_INT64 && variant.data@[0] == v as u64,
                AmfValue::Bool(v) => variant.type_ == ffi::AMF_VARIANT_BOOL && variant.data@[0] == if v {
                    1u64
                } else {
                    0
                },
                AmfValue::Size(size) => variant.type_ == ffi::AMF_VARIANT_SIZE && variant.data@[0]
                    == ffi::packed_word(size.width as u32, size.height as u32),
                AmfValue::Rate(rate) => variant.type_ == ffi::AMF_VARIANT_RATE && variant.data@[0]
                    == ffi::packed_word(rate.num, rate.den),
            },
            variant.data@.len() == 2,
            variant.data@[1] == 0,
    {
        match self {
            AmfValue::Int(v) => AMFVariantStruct::from_int64(*v),
            AmfValue::Bool(v) => AMFVariantStruct::from_bool(*v),
            AmfValue::Size(size) => AMFVariantStruct::from_size(*size),
            AmfValue::Rate(rate) => AMFVariantStruct::from_rate(*rate),
        }
    }
}

/// A property to be set.
#[derive(Debug, Clone, Copy)]
pub struct AmfProperty {
    pub name: &'static str,
    pub value: AmfValue,
}

/// Properties by name and value, in the order they are set.
pub open spec fn property_views(properties: Seq<AmfProperty>) -> Seq<(Seq<char>, AmfValue)> {
    Seq::new(properties.len(), |i: int| (properties[i].name@, properties[i].value))
}

/// What is asked of the runtime for a session.
pub struct AmfPlan {
    /// The encoder component.
    pub component: &'static str,
    /// The properties to set before the encoder is initialised.
    pub properties: Vec<AmfProperty>,
    /// The format of the input surfaces.
    pub surface_format: i32,
    /// The size of the input surfaces.
    pub width: i32,
    pub height: i32,
}

/// The bitrate of a session in bits per second.
pub open spec fn bits_per_second(config: EncodeConfig) -> int {
    config.bitrate_kbps * 1000
}

/// The properties of a session, by codec.
pub open spec fn session_properties(config: EncodeConfig) -> Seq<(Seq<char>, AmfValue)> {
    let size = AmfValue::Size(
        AMFSize { width: config.resolution.width as i32, height: config.resolution.height as i32 },
    );
    let rate = AmfValue::Rate(AMFRate { num: config.framerate, den: 1 });
    let target = AmfValue::Int(bits_per_second(config) as i64);
    let peak = AmfValue::Int((bits_per_second(config) * 3 / 2) as i64);
    let vbv = AmfValue::Int((bits_per_second(config) / config.framerate as int) as i64);
    match config.codec {
        VideoCodec::H264 => seq![
            (H264_USAGE@, AmfValue::Int(H264_USAGE_LOW_LATENCY)),
            (H264_FRAMESIZE@, size),
            (H264_FRAMERATE@, rate),
            (H264_PROFILE@, AmfValue::Int(H264_PROFILE_HIGH)),
            (
                H264_RATE_CONTROL_METHOD@,
                AmfValue::Int(
                    match config.rate_control {
                        RateControlMode::Cbr => H264_RC_CBR,
                        RateControlMode::Vbr => H264_RC_VBR_LATENCY,
                        RateControlMode::Cqp => H264_RC_CQP,
                    },
                ),
            ),
            (H264_TARGET_BITRATE@, target),
            (H264_PEAK_BITRATE@, peak),
            (H264_VBV_BUFFER_SIZE@, vbv),
            (H264_FILLER_DATA@, AmfValue::Bool(false)),
            (H264_IDR_PERIOD@, AmfValue::Int(0)),
            (H264_B_PIC_PATTERN@, AmfValue::Int(0)),
            (H264_HEADER_INSERTION_MODE@, AmfValue::Int(HEADER_INSERTION_IDR)),
            (H264_ENFORCE_HRD@, AmfValue::Bool(true)),
        ],
        VideoCodec::H265 => seq![
            (HEVC_USAGE@, AmfValue::Int(HEVC_USAGE_ULTRA_LOW_LATENCY)),
            (HEVC_FRAMESIZE@, size),
            (HEVC_FRAMERATE@, rate),
            (
                HEVC_PROFILE@,
                AmfValue::Int(
                    match config.dynamic_range {
                        DynamicRange::Hdr10 => HEVC_PROFILE_MAIN_10,
                        DynamicRange::Sdr => HEVC_PROFILE_MAIN,
                    },
                ),
            ),
            (HEVC_TIER@, AmfValue::Int(HEVC_TIER_HIGH)),
            (
                HEVC_RATE_CONTROL_METHOD@,
                AmfValue::Int(
                    match config.rate_control {
                        RateControlMode::Cbr => HEVC_RC_CBR,
                        RateControlMode::Vbr => HEVC_RC_VBR_LATENCY,
                        RateControlMode::Cqp => HEVC_RC_CQP,
                    },
                ),
            ),
            (HEVC_TARGET_BITRATE@, target),
            (HEVC_PEAK_BITRATE@, peak),
            (HEVC_VBV_BUFFER_SIZE@, vbv),
            (HEVC_FILLER_DATA@, AmfValue::Bool(false)),
            (HEVC_GOP_SIZE@, AmfValue::Int(config.framerate as i64)),
            (HEVC_MAX_NUM_REFRAMES@, AmfValue::Int(config.max_ref_frames as i64)),
            (HEVC_ENFORCE_HRD@, AmfValue::Bool(true)),
        ],
        VideoCodec::Av1 => seq![
            (AV1_USAGE@, AmfValue::Int(AV1_USAGE_ULTRA_LOW_LATENCY)),
            (AV1_FRAMESIZE@, size),
            (AV1_FRAMERATE@, rate),
            (AV1_PROFILE@, AmfValue::Int(AV1_PROFILE_MAIN)),
            (
                AV1_RATE_CONTROL_METHOD@,
                AmfValue::Int(
                    match config.rate_control {
                        RateControlMode::Cbr => AV1_RC_CBR,
                        RateControlMode::Vbr => AV1_RC_VBR_LATENCY,
                        RateControlMode::Cqp => AV1_RC_CQP,
                    },
                ),
            ),
            (AV1_TARGET_BITRATE@, target),
            (AV1_PEAK_BITRATE@, peak),
            (AV1_VBV_BUFFER_SIZE@, vbv),
            (AV1_FILLER_DATA@, AmfValue::Bool(false)),
            (AV1_ENFORCE_HRD@, AmfValue::Bool(true)),
        ],
    }
}

/// The encoder component of a codec.
pub open spec fn component_name(codec: VideoCodec) -> Seq<char> {
    match codec {
        VideoCodec::H264 => AMF_VIDEO_ENCODER_VCE_AVC@,
        VideoCodec::H265 => AMF_VIDEO_ENCODER_HEVC@,
        VideoCodec::Av1 => AMF_VIDEO_ENCODER_AV1@,
    }
}

/// The format of the input surfaces: what the screen capture delivers, or ten
/// bits for HDR.
pub open spec fn surface_format(config: EncodeConfig) -> i32 {
    match config.dynamic_range {
        DynamicRange::Hdr10 => AMF_SURFACE_P010,
        DynamicRange::Sdr => AMF_SURFACE_BGRA,
    }
}

fn property(name: &'static str, value: AmfValue) -> (property: AmfProperty)
    ensures
        property.name@ == name@,
        property.value == value,
{
    AmfProperty { name, value }
}

/// What to ask of the runtime for a session.
pub fn plan_session(config: &EncodeConfig) -> (plan: AmfPlan)
    requires
        config.framerate > 0,
    ensures
        plan.component@ == component_name(config.codec),
        property_views(plan.properties@) == session_properties(*config),
        plan.surface_format == surface_format(*config),
        plan.width == config.resolution.width as i32,
        plan.height == config.resolution.height as i32,
{
    let width: i32 = config.resolution.width as i32;
    let height: i32 = config.resolution.height as i32;
    let bitrate: i64 = config.bitrate_kbps as i64 * 1000;
    let size = AmfValue::Size(AMFSize::new(width, height));
    let rate = AmfValue::Rate(AMFRate::new(config.framerate, 1));
    let target = AmfValue::Int(bitrate);
    let peak = AmfValue::Int(bitrate * 3 / 2);
    proof {
        lemma_vbv_range(bitrate, config.framerate);
    }
    let vbv = AmfValue::Int(bitrate / config.framerate as i64);
    let properties: Vec<AmfProperty> = match config.codec {
        VideoCodec::H264 => {
            let method: i64 = match config.rate_control {
                RateControlMode::Cbr => H264_RC_CBR,
                RateControlMode::Vbr => H264_RC_VBR_LATENCY,
                RateControlMode::Cqp => H264_RC_CQP,
            };
            vec![
                property(H264_USAGE, AmfValue::Int(H264_USAGE_LOW_LATENCY)),
                property(H264_FRAMESIZE, size),
                property(H264_FRAMERATE, rate),
                property(H264_PROFILE, AmfValue::Int(H264_PROFILE_HIGH)),
                property(H264_RATE_CONTROL_METHOD, AmfValue::Int(method)),
                property(H264_TARGET_BITRATE, target),
                property(H264_PEAK_BITRATE, peak),
                property(H264_VBV_BUFFER_SIZE, vbv),
                property(H264_FILLER_DATA, AmfValue::Bool(false)),
                property(H264_IDR_PERIOD, AmfValue::Int(0)),
                property(H264_B_PIC_PATTERN, AmfValue::Int(0)),
                property(H264_HEADER_INSERTION_MODE, AmfValue::Int(HEADER_INSERTION_IDR)),
                property(H264_ENFORCE_HRD, AmfValue::Bool(true)),
            ]
        },
        VideoCodec::H265 => {
            let profile: i64 = match config.dynamic_range {
                DynamicRange::Hdr10 => HEVC_PROFILE_MAIN_10,
                DynamicRange::Sdr => HEVC_PROFILE_MAIN,
            };
            let method: i64 = match config.rate_control {
                RateControlMode::Cbr => HEVC_RC_CBR,
                RateControlMode::Vbr => HEVC_RC_VBR_LATENCY,
                RateControlMode::Cqp => HEVC_RC_CQP,
            };
            vec![
                property(HEVC_USAGE, AmfValue::Int(HEVC_USAGE_ULTRA_LOW_LATENCY)),
                property(HEVC_FRAMESIZE, size),
                property(HEVC_FRAMERATE, rate),
                property(HEVC_PROFILE, AmfValue::Int(profile)),
                property(HEVC_TIER, AmfValue::Int(HEVC_TIER_HIGH)),
                property(HEVC_RATE_CONTROL_METHOD, AmfValue::Int(method)),
                property(HEVC_TARGET_BITRATE, target),
                property(HEVC_PEAK_BITRATE, peak),
                property(HEVC_VBV_BUFFER_SIZE, vbv),
                property(HEVC_FILLER_DATA, AmfValue::Bool(false)),
                property(HEVC_GOP_SIZE, AmfValue::Int(config.framerate as i64)),
                property(HEVC_MAX_NUM_REFRAMES, AmfValue::Int(config.max_ref_frames as i64)),
                property(HEVC_ENFORCE_HRD, AmfValue::Bool(true)),
            ]
        },
        VideoCodec::Av1 => {
            let method: i64 = match config.rate_control {
                RateControlMode::Cbr => AV1_RC_CBR,
                RateControlMode::Vbr => AV1_RC_VBR_LATENCY,
                RateControlMode::Cqp => AV1_RC_CQP,
            };
            vec![
                property(AV1_USAGE, AmfValue::Int(AV1_USAGE_ULTRA_LOW_LATENCY)),
                property(AV1_FRAMESIZE, size),
                property(AV1_FRAMERATE, rate),
                property(AV1_PROFILE, AmfValue::Int(AV1_PROFILE_MAIN)),
                property(AV1_RATE_CONTROL_METHOD, AmfValue::Int(method)),
                property(AV1_TARGET_BITRATE, target),
                property(AV1_PEAK_BITRATE, peak),
                property(AV1_VBV_BUFFER_SIZE, vbv),
                property(AV1_FILLER_DATA, AmfValue::Bool(false)),
                property(AV1_ENFORCE_HRD, AmfValue::Bool(true)),
            ]
        },
    };
    assert(property_views(properties@) =~= session_properties(*config));
    AmfPlan {
        component: match config.codec {
            VideoCodec::H264 => AMF_VIDEO_ENCODER_VCE_AVC,
            VideoCodec::H265 => AMF_VIDEO_ENCODER_HEVC,
            VideoCodec::Av1 => AMF_VIDEO_ENCODER_AV1,
        },
        properties,
        surface_format: match config.dynamic_range {
            DynamicRange::Hdr10 => AMF_SURFACE_P010,
            DynamicRange::Sdr => AMF_SURFACE_BGRA,
        },
        width,
        height,
    }
}

proof fn lemma_vbv_range(bitrate: i64, framerate: u32)
    requires
        0 <= bitrate,
        framerate > 0,
    ensures
        0 <= bitrate as int / framerate as int <= bitrate,
{
    let (b, f) = (bitrate as int, framerate as int);
    assert(0 <= b / f <= b) by (nonlinear_arith)
        requires
            0 <= b,
            f > 0,
    ;
}

/// The AMD encoder, by the version of its runtime.
pub struct AmfEncoder {
    runtime_version: u64,
}

/// The number of version 1.4.30, the first one with AV1.
pub open spec fn first_av1_version() -> u64 {
    (1u64 << 48) | (4u64 << 32) | (30u64 << 16) | 0u64
}

/// The number of version 1.4.23, the first one with HDR.
pub open spec fn first_hdr_version() -> u64 {
    (1u64 << 48) | (4u64 << 32) | (23u64 << 16) | 0u64
}

impl AmfEncoder {
    /// The version of the runtime.
    pub closed spec fn version(self) -> u64 {
        self.runtime_version
    }

    /// The encoder on a runtime.
    pub fn new(runtime_version: u64) -> (encoder: Self)
        ensures
            encoder.version() == runtime_version,
    {
        Self { runtime_version }
    }

    /// Whether the runtime is older than recommended.
    pub fn is_outdated(&self) -> (outdated: bool)
        ensures
            outdated == (self.version() < AMF_MIN_VERSION),
    {
        self.runtime_version < AMF_MIN_VERSION
    }

    /// Whether the runtime encodes AV1.
    pub fn supports_av1(&self) -> (supported: bool)
        ensures
            supported == (self.version() >= first_av1_version()),
    {
        self.runtime_version >= amf_make_full_version(1, 4, 30, 0)
    }

    /// Whether the runtime encodes HDR.
    pub fn supports_hdr(&self) -> (supported: bool)
        ensures
            supported == (self.version() >= first_hdr_version()),
    {
        self.runtime_version >= amf_make_full_version(1, 4, 23, 0)
    }

    /// The name of the encoder.
    pub fn name(&self) -> (name: &'static str)
        ensures
            name@ == "AMD AMF"@,
    {
        "AMD AMF"
    }

    /// What the encoder offers.
    pub fn capabilities(&self) -> (result: Result<EncoderCapabilities, FluxError>)
        ensures
            result matches Ok(report) && report@ == (CapabilitiesView {
                name: "AMD AMF"@,
                supported_codecs: if self.version() >= first_av1_version() {
                    seq![VideoCodec::H264, VideoCodec::H265, VideoCodec::Av1]
                } else {
                    seq![VideoCodec::H264, VideoCodec::H265]
                },
                supports_hdr: self.version() >= first_hdr_version(),
                supports_yuv444: false,
                max_resolution: Resolution { width: 7680, height: 4320 },
                max_framerate: 240,
            }),
    {
        let mut codecs: Vec<VideoCodec> = vec![VideoCodec::H264, VideoCodec::H265];
        assert(codecs@ =~= seq![VideoCodec::H264, VideoCodec::H265]);
        if self.supports_av1() {
            codecs.push(VideoCodec::Av1);
            assert(codecs@ =~= seq![VideoCodec::H264, VideoCodec::H265, VideoCodec::Av1]);
        }
        Ok(
            EncoderCapabilities {
                name: "AMD AMF",
                supported_codecs: codecs,
                supports_hdr: self.supports_hdr(),
                supports_yuv444: false,
                max_resolution: Resolution::new(7680, 4320),
                max_framerate: 240,
            },
        )
    }

    /// Refuses what the runtime is too old for.
    pub fn validate_config(&self, config: &EncodeConfig) -> (result: Result<(), FluxError>)
        ensures
            if config.codec == VideoCodec::Av1 && self.version() < first_av1_version() {
                result matches Err(e) && e@ == ErrorView::EncoderInit(
                    "AV1 encoding requires AMF >= 1.4.30 (RDNA 3+)"@,
                )
            } else if config.dynamic_range == DynamicRange::Hdr10 && self.version()
                < first_hdr_version() {
                result matches Err(e) && e@ == ErrorView::EncoderInit(
                    "HDR encoding requires AMF >= 1.4.23"@,
                )
            } else {
                result is Ok
            },
    {
        if config.codec == VideoCodec::Av1 && !self.supports_av1() {
            return Err(
                FluxError::EncoderInit("AV1 encoding requires AMF >= 1.4.30 (RDNA 3+)".to_string()),
            );
        }
        if config.dynamic_range == DynamicRange::Hdr10 && !self.supports_hdr() {
            return Err(FluxError::EncoderInit("HDR encoding requires AMF >= 1.4.23".to_string()));
        }
        Ok(())
    }
}

/// Every runtime with AV1 has HDR as well, and the recommended one has both.
pub proof fn law_version_features()
    ensures
        first_hdr_version() < first_av1_version(),
        first_av1_version() == AMF_MIN_VERSION,
{
    assert((1u64 << 48) | (4u64 << 32) | (30u64 << 16) | 0u64 == 0x0001_0004_001E_0000u64) by (bit_vector);
    assert((1u64 << 48) | (4u64 << 32) | (23u64 << 16) | 0u64 == 0x0001_0004_0017_0000u64) by (bit_vector);
}

/// Where the pixels of a frame come from.
#[derive(Debug, Clone, Copy, PartialEq, Eq, Structural)]
pub enum SurfaceSource {
    /// A shared texture, and whether it has to be opened first.
    SharedTexture { handle: u64, open: bool },
    /// Host memory of a given layout.
    HostMemory { format: i32, width: i32, height: i32, h_pitch: i32, v_pitch: i32 },
}

/// What to do with a frame.
pub struct FrameSubmission {
    /// Where its pixels come from.
    pub source: SurfaceSource,
    /// Its presentation time in units of 100 ns.
    pub pts: i64,
    /// The properties to set on its surface.
    pub properties: Vec<AmfProperty>,
    /// Whether it is to be a keyframe.
    pub is_idr: bool,
}

/// What to do once a frame was submitted.
pub enum SubmitStep {
    /// It was taken in: collect the output.
    Accepted,
    /// The input queue is full: collect the output and submit the frame again.
    DrainAndRetry,
    /// It was refused.
    Failed(FluxError),
}

/// A session with the AMD encoder.
pub struct AmfSession {
    config: EncodeConfig,
    frame_index: u64,
    idr_requested: bool,
    surface_format: i32,
    idr_interval: u64,
    cached_shared_texture: Option<u64>,
}

/// Where the pixels of a frame come from: its shared texture, else host memory,
/// if it has either.
pub open spec fn frame_source(frame: CapturedView, config: EncodeConfig, open_texture: Option<u64>) -> Option<
    SurfaceSource,
> {
    match frame.gpu_handle {
        Some(HandleView::DxgiSharedTexture(handle)) => Some(
            SurfaceSource::SharedTexture { handle, open: open_texture != Some(handle) },
        ),
        _ => if frame.data.len() > 0 {
            Some(
                SurfaceSource::HostMemory {
                    format: surface_format(config),
                    width: config.resolution.width as i32,
                    height: config.resolution.height as i32,
                    h_pitch: frame.stride as i32,
                    v_pitch: config.resolution.height as i32,
                },
            )
        } else {
            None
        },
    }
}

/// The properties that make a frame a keyframe; H.264 repeats the parameter sets.
pub open spec fn keyframe_properties(codec: VideoCodec) -> Seq<(Seq<char>, AmfValue)> {
    match codec {
        VideoCodec::H264 => seq![
            (H264_INSERT_SPS@, AmfValue::Int(1)),
            (H264_INSERT_PPS@, AmfValue::Int(1)),
            (H264_FORCE_PICTURE_TYPE@, AmfValue::Int(PICTURE_TYPE_IDR)),
        ],
        VideoCodec::H265 => seq![(HEVC_FORCE_PICTURE_TYPE@, AmfValue::Int(PICTURE_TYPE_IDR))],
        VideoCodec::Av1 => seq![(AV1_FORCE_PICTURE_TYPE@, AmfValue::Int(PICTURE_TYPE_IDR))],
    }
}

/// The properties that change the bitrate of a running session.
pub open spec fn bitrate_properties(codec: VideoCodec, bitrate_kbps: u32) -> Seq<(Seq<char>, AmfValue)> {
    let target = AmfValue::Int((bitrate_kbps * 1000) as i64);
    let peak = AmfValue::Int((bitrate_kbps * 1000 * 3 / 2) as i64);
    match codec {
        VideoCodec::H264 => seq![(H264_TARGET_BITRATE@, target), (H264_PEAK_BITRATE@, peak)],
        VideoCodec::H265 => seq![(HEVC_TARGET_BITRATE@, target), (HEVC_PEAK_BITRATE@, peak)],
        VideoCodec::Av1 => seq![(AV1_TARGET_BITRATE@, target), (AV1_PEAK_BITRATE@, peak)],
    }
}

impl AmfSession {
    /// The parameters of the session.
    pub closed spec fn parameters(self) -> EncodeConfig {
        self.config
    }

    /// The number of frames submitted so far.
    pub closed spec fn frames(self) -> u64 {
        self.frame_index
    }

    /// Whether a keyframe was asked for.
    pub closed spec fn keyframe_requested(self) -> bool {
        self.idr_requested
    }

    /// The number of frames between keyframes that nobody asked for.
    pub closed spec fn keyframe_interval(self) -> u64 {
        self.idr_interval
    }

    /// The shared texture that is open.
    pub closed spec fn open_texture(self) -> Option<u64> {
        self.cached_shared_texture
    }

    /// The interval is ten minutes of frames, the surfaces are those of the
    /// session's parameters.
    pub closed spec fn well_formed(self) -> bool {
        &&& self.idr_interval == self.config.framerate * 600
        &&& self.config.framerate > 0
        &&& self.surface_format == surface_format(self.config)
    }

    /// A session with the given parameters, before its first frame.
    pub fn new(config: EncodeConfig) -> (session: Self)
        requires
            config.framerate > 0,
        ensures
            session.well_formed(),
            session.parameters() == config,
            session.frames() == 0,
            !session.keyframe_requested(),
            session.keyframe_interval() == config.framerate * 600,
            session.open_texture() is None,
    {
        Self {
            config,
            frame_index: 0,
            idr_requested: false,
            surface_format: match config.dynamic_range {
                DynamicRange::Hdr10 => AMF_SURFACE_P010,
                DynamicRange::Sdr => AMF_SURFACE_BGRA,
            },
            idr_interval: config.framerate as u64 * 600,
            cached_shared_texture: None,
        }
    }

    /// Prepares a frame. It is a keyframe where one was asked for, and the first
    /// one of every interval is. A frame without pixels is refused. It uses its
    /// number up, but leaves the keyframe due for the next one.
    pub fn begin_frame(&mut self, frame: &CapturedFrame) -> (result: Result<
        FrameSubmission,
        FluxError,
    >)
        requires
            old(self).well_formed(),
            (old(self).frames() + 1) * 10_000 <= i64::MAX,
        ensures
            final(self).well_formed(),
            final(self).frames() == old(self).frames() + 1,
            final(self).parameters() == old(self).parameters(),
            final(self).keyframe_interval() == old(self).keyframe_interval(),
            final(self).open_texture() == old(self).open_texture(),
            ({
                let number = final(self).frames();
                let config = old(self).parameters();
                let is_idr = old(self).keyframe_requested() || number
                    % old(self).keyframe_interval() == 1;
                let source = frame_source(frame@, config, old(self).open_texture());
                match source {
                    Some(source) => {
                        &&& result matches Ok(submission)
                        &&& !final(self).keyframe_requested()
                        &&& submission.source == source
                        &&& submission.pts == number * 10_000
                        &&& submission.is_idr == is_idr
                        &&& property_views(submission.properties@) == if is_idr {
                            keyframe_properties(config.codec)
                        } else {
                            Seq::empty()
                        }
                    },
                    None => final(self).keyframe_requested() == is_idr && (result matches Err(e)
                        && e@ == (ErrorView::Encode {
                        frame: number,
                        reason: "Frame has no data and no GPU handle"@,
                    })),
                }
            }),
    {
        self.frame_index = self.frame_index + 1;
        if self.frame_index % self.idr_interval == 1 {
            self.idr_requested = true;
        }
        let is_idr: bool = self.idr_requested;
        let source: SurfaceSource = match &frame.gpu_handle {
            Some(GpuFrameHandle::DxgiSharedTexture(handle)) => SurfaceSource::SharedTexture {
                handle: *handle,
                open: match self.cached_shared_texture {
                    Some(cached) => cached != *handle,
                    None => true,
                },
            },
            _ => {
                if frame.data.len() == 0 {
                    return Err(
                        FluxError::Encode {
                            frame: self.frame_index,
                            reason: "Frame has no data and no GPU handle".to_string(),
                        },
                    );
                }
                SurfaceSource::HostMemory {
                    format: self.surface_format,
                    width: self.config.resolution.width as i32,
                    height: self.config.resolution.height as i32,
                    h_pitch: frame.stride as i32,
                    v_pitch: self.config.resolution.height as i32,
                }
            },
        };
        self.idr_requested = false;
        let properties: Vec<AmfProperty> = if is_idr {
            self.keyframe_property_list()
        } else {
            Vec::new()
        };
        assert(!is_idr ==> property_views(properties@) =~= Seq::empty());
        Ok(
            FrameSubmission {
                source,
                pts: self.frame_index as i64 * 10_000,
                properties,
                is_idr,
            },
        )
    }

    fn keyframe_property_list(&self) -> (properties: Vec<AmfProperty>)
        ensures
            property_views(properties@) == keyframe_properties(self.parameters().codec),
    {
        let idr = AmfValue::Int(PICTURE_TYPE_IDR);
        let properties: Vec<AmfProperty> = match self.config.codec {
            VideoCodec::H264 => vec![
                property(H264_INSERT_SPS, AmfValue::Int(1)),
                property(H264_INSERT_PPS, AmfValue::Int(1)),
                property(H264_FORCE_PICTURE_TYPE, idr),
            ],
            VideoCodec::H265 => vec![property(HEVC_FORCE_PICTURE_TYPE, idr)],
            VideoCodec::Av1 => vec![property(AV1_FORCE_PICTURE_TYPE, idr)],
        };
        assert(property_views(properties@) =~= keyframe_properties(self.config.codec));
        properties
    }

    /// Notes that a frame was not encoded after all. The keyframe that it was to be
    /// stays due for the next one.
    pub fn frame_failed(&mut self, is_idr: bool)
        ensures
            final(self).keyframe_requested() == (old(self).keyframe_requested() || is_idr),
            final(self).well_formed() == old(self).well_formed(),
            final(self).frames() == old(self).frames(),
            final(self).parameters() == old(self).parameters(),
            final(self).keyframe_interval() == old(self).keyframe_interval(),
            final(self).open_texture() == old(self).open_texture(),
    {
        self.idr_requested = self.idr_requested || is_idr;
    }

    /// Notes that a shared texture was opened.
    pub fn texture_opened(&mut self, handle: u64)
        ensures
            final(self).open_texture() == Some(handle),
            final(self).well_formed() == old(self).well_formed(),
            final(self).frames() == old(self).frames(),
            final(self).parameters() == old(self).parameters(),
            final(self).keyframe_requested() == old(self).keyframe_requested(),
            final(self).keyframe_interval() == old(self).keyframe_interval(),
    {
        self.cached_shared_texture = Some(handle);
    }

    /// What follows from the result of submitting a frame. A full queue is given
    /// one more try.
    pub fn after_submit(&self, result: i32, retried: bool) -> (step: SubmitStep)
        ensures
            if result == AMF_OK {
                step is Accepted
            } else if result == AMF_INPUT_FULL && !retried {
                step is DrainAndRetry
            } else {
                step matches SubmitStep::Failed(e) && e@ == (ErrorView::Encode {
                    frame: self.frames(),
                    reason: "AMF SubmitInput failed: "@ + signed_decimal(result as int),
                })
            },
    {
        if result == AMF_OK {
            SubmitStep::Accepted
        } else if result == AMF_INPUT_FULL && !retried {
            SubmitStep::DrainAndRetry
        } else {
            let mut reason = "AMF SubmitInput failed: ".to_string();
            push_signed_decimal(&mut reason, result);
            SubmitStep::Failed(FluxError::Encode { frame: self.frame_index, reason })
        }
    }

    /// The property that tells the type of an encoded picture.
    pub fn output_type_property(&self) -> (name: &'static str)
        ensures
            name@ == match self.parameters().codec {
                VideoCodec::H265 => HEVC_OUTPUT_DATA_TYPE@,
                VideoCodec::H264 | VideoCodec::Av1 => H264_OUTPUT_DATA_TYPE@,
            },
    {
        match self.config.codec {
            VideoCodec::H265 => HEVC_OUTPUT_DATA_TYPE,
            VideoCodec::H264 | VideoCodec::Av1 => H264_OUTPUT_DATA_TYPE,
        }
    }

    /// The packet of an encoded picture. Where the runtime does not tell its type,
    /// the bitstream is searched for a keyframe.
    pub fn packet(&self, bitstream: Vec<u8>, output_type: Option<i64>) -> (packet: EncodedPacket)
        ensures
            packet@ == (PacketView {
                frame_index: self.frames(),
                pts: self.frames(),
                is_keyframe: match output_type {
                    Some(output_type) => output_type == OUTPUT_DATA_TYPE_IDR,
                    None => holds_idr(bitstream@, self.parameters().codec),
                },
                data: bitstream@,
            }),
    {
        let is_keyframe: bool = match output_type {
            Some(output_type) => output_type == OUTPUT_DATA_TYPE_IDR,
            None => contains_idr_nalu(bitstream.as_slice(), self.config.codec),
        };
        EncodedPacket {
            frame_index: self.frame_index,
            pts: self.frame_index,
            is_keyframe,
            data: bitstream,
        }
    }

    /// Makes the next frame a keyframe.
    pub fn request_idr(&mut self)
        ensures
            final(self).keyframe_requested(),
            final(self).well_formed() == old(self).well_formed(),
            final(self).frames() == old(self).frames(),
            final(self).parameters() == old(self).parameters(),
            final(self).keyframe_interval() == old(self).keyframe_interval(),
            final(self).open_texture() == old(self).open_texture(),
    {
        self.idr_requested = true;
    }

    /// The properties to set for another bitrate.
    pub fn bitrate_change(&self, bitrate_kbps: u32) -> (properties: Vec<AmfProperty>)
        ensures
            property_views(properties@) == bitrate_properties(self.parameters().codec, bitrate_kbps),
    {
        let bitrate: i64 = bitrate_kbps as i64 * 1000;
        let target = AmfValue::Int(bitrate);
        let peak = AmfValue::Int(bitrate * 3 / 2);
        let properties: Vec<AmfProperty> = match self.config.codec {
            VideoCodec::H264 => vec![
                property(H264_TARGET_BITRATE, target),
                property(H264_PEAK_BITRATE, peak),
            ],
            VideoCodec::H265 => vec![
                property(HEVC_TARGET_BITRATE, target),
                property(HEVC_PEAK_BITRATE, peak),
            ],
            VideoCodec::Av1 => vec![
                property(AV1_TARGET_BITRATE, target),
                property(AV1_PEAK_BITRATE, peak),
            ],
        };
        assert(property_views(properties@) =~= bitrate_properties(self.config.codec, bitrate_kbps));
        properties
    }

    /// Notes another bitrate once its properties were set.
    pub fn bitrate_changed(&mut self, bitrate_kbps: u32)
        ensures
            final(self).parameters() == (EncodeConfig { bitrate_kbps, ..old(self).parameters() }),
            final(self).well_formed() == old(self).well_formed(),
            final(self).frames() == old(self).frames(),
            final(self).keyframe_requested() == old(self).keyframe_requested(),
            final(self).keyframe_interval() == old(self).keyframe_interval(),
            final(self).open_texture() == old(self).open_texture(),
    {
        self.config.bitrate_kbps = bitrate_kbps;
    }
}

/// The name of a surface format.
pub fn surface_format_name(f: i32) -> (name: &'static str)
    ensures
        name@ == if f == AMF_SURFACE_NV12 {
            "NV12"@
        } else if f == AMF_SURFACE_P010 {
            "P010"@
        } else if f == AMF_SURFACE_BGRA {
            "BGRA"@
        } else if f == AMF_SURFACE_RGBA {
            "RGBA"@
        } else {
            "unknown"@
        },
{
    if f == AMF_SURFACE_NV12 {
        "NV12"
    } else if f == AMF_SURFACE_P010 {
        "P010"
    } else if f == AMF_SURFACE_BGRA {
        "BGRA"
    } else if f == AMF_SURFACE_RGBA {
        "RGBA"
    } else {
        "unknown"
    }
}

/// What the H.264 encoder is told, in order, by the names and numbers of the interface: the
/// size and the rate of the frames, the bitrates in bits per second with a peak of half as
/// much again, and a buffer of one frame.
pub proof fn law_h264_properties(config: EncodeConfig)
    requires
        config.codec == VideoCodec::H264,
        config.framerate > 0,
    ensures
        ({
            let told = session_properties(config);
            let size = AMFSize {
                width: config.resolution.width as i32,
                height: config.resolution.height as i32,
            };
            let rate = AMFRate { num: config.framerate, den: 1 };
            let target = (config.bitrate_kbps * 1000) as i64;
            let peak = (config.bitrate_kbps * 1500) as i64;
            let buffer = (config.bitrate_kbps * 1000 / config.framerate as int) as i64;
            let method = match config.rate_control {
                RateControlMode::Cbr => 1i64,
                RateControlMode::Vbr => 3i64,
                RateControlMode::Cqp => 0i64,
            };
            &&& told.len() == 13
            &&& told[0] == ("Usage"@, AmfValue::Int(2))
            &&& told[1] == ("FrameSize"@, AmfValue::Size(size))
            &&& told[2] == ("FrameRate"@, AmfValue::Rate(rate))
            &&& told[3] == ("Profile"@, AmfValue::Int(100))
            &&& told[4] == ("RateControlMethod"@, AmfValue::Int(method))
            &&& told[5] == ("TargetBitrate"@, AmfValue::Int(target))
            &&& told[6] == ("PeakBitrate"@, AmfValue::Int(peak))
            &&& told[7] == ("VBVBufferSize"@, AmfValue::Int(buffer))
            &&& told[8] == ("FillerDataEnable"@, AmfValue::Bool(false))
            &&& told[9] == ("IDRPeriod"@, AmfValue::Int(0))
            &&& told[10] == ("BPicturesPattern"@, AmfValue::Int(0))
            &&& told[11] == ("HeaderInsertionMode"@, AmfValue::Int(2))
            &&& told[12] == ("EnforceHRD"@, AmfValue::Bool(true))
        }),
{
}

/// What the HEVC encoder is told, in order, by the names and numbers of the interface: the
/// size and the rate of the frames, the bitrates in bits per second with a peak of half as
/// much again, and a buffer of one frame.
pub proof fn law_hevc_properties(config: EncodeConfig)
    requires
        config.codec == VideoCodec::H265,
        config.framerate > 0,
    ensures
        ({
            let told = session_properties(config);
            let size = AMFSize {
                width: config.resolution.width as i32,
                height: config.resolution.height as i32,
            };
            let rate = AMFRate { num: config.framerate, den: 1 };
            let target = (config.bitrate_kbps * 1000) as i64;
            let peak = (config.bitrate_kbps * 1500) as i64;
            let buffer = (config.bitrate_kbps * 1000 / config.framerate as int) as i64;
            let profile = if config.dynamic_range == DynamicRange::Hdr10 {
                2i64
            } else {
                1i64
            };
            let method = match config.rate_control {
                RateControlMode::Cbr => 3i64,
                RateControlMode::Vbr => 1i64,
                RateControlMode::Cqp => 0i64,
            };
            &&& told.len() == 13
            &&& told[0] == ("HevcUsage"@, AmfValue::Int(1))
            &&& told[1] == ("HevcFrameSize"@, AmfValue::Size(size))
            &&& told[2] == ("HevcFrameRate"@, AmfValue::Rate(rate))
            &&& told[3] == ("HevcProfile"@, AmfValue::Int(profile))
            &&& told[4] == ("HevcTier"@, AmfValue::Int(1))
            &&& told[5] == ("HevcRateControlMethod"@, AmfValue::Int(method))
            &&& told[6] == ("HevcTargetBitrate"@, AmfValue::Int(target))
            &&& told[7] == ("HevcPeakBitrate"@, AmfValue::Int(peak))
            &&& told[8] == ("HevcVBVBufferSize"@, AmfValue::Int(buffer))
            &&& told[9] == ("HevcFillerDataEnable"@, AmfValue::Bool(false))
            &&& told[10] == ("HevcGOPSize"@, AmfValue::Int(config.framerate as i64))
            &&& told[11] == ("HevcMaxNumRefFrames"@, AmfValue::Int(config.max_ref_frames as i64))
            &&& told[12] == ("HevcEnforceHRD"@, AmfValue::Bool(true))
        }),
{
}

/// What the AV1 encoder is told, in order, by the names and numbers of the interface: the
/// size and the rate of the frames, the bitrates in bits per second with a peak of half as
/// much again, and a buffer of one frame.
pub proof fn law_av1_properties(config: EncodeConfig)
    requires
        config.codec == VideoCodec::Av1,
        config.framerate > 0,
    ensures
        ({
            let told = session_properties(config);
            let size = AMFSize {
                width: config.resolution.width as i32,
                height: config.resolution.height as i32,
            };
            let rate = AMFRate { num: config.framerate, den: 1 };
            let target = (config.bitrate_kbps * 1000) as i64;
            let peak = (config.bitrate_kbps * 1500) as i64;
            let buffer = (config.bitrate_kbps * 1000 / config.framerate as int) as i64;
            let method = match config.rate_control {
                RateControlMode::Cbr => 3i64,
                RateControlMode::Vbr => 1i64,
                RateControlMode::Cqp => 0i64,
            };
            &&& told.len() == 10
            &&& told[0] == ("Av1Usage"@, AmfValue::Int(2))
            &&& told[1] == ("Av1FrameSize"@, AmfValue::Size(size))
            &&& told[2] == ("Av1FrameRate"@, AmfValue::Rate(rate))
            &&& told[3] == ("Av1Profile"@, AmfValue::Int(1))
            &&& told[4] == ("Av1RateControlMethod"@, AmfValue::Int(method))
            &&& told[5] == ("Av1TargetBitrate"@, AmfValue::Int(target))
            &&& told[6] == ("Av1PeakBitrate"@, AmfValue::Int(peak))
            &&& told[7] == ("Av1VBVBufferSize"@, AmfValue::Int(buffer))
            &&& told[8] == ("Av1FillerDataEnable"@, AmfValue::Bool(false))
            &&& told[9] == ("Av1EnforceHRD"@, AmfValue::Bool(true))
        }),
{
}

/// Every codec has its component, and surfaces are BGRA, or P010 for HDR.
pub proof fn law_components_and_surfaces(config: EncodeConfig)
    ensures
        component_name(VideoCodec::H264) == "AMFVideoEncoderVCE_AVC"@,
        component_name(VideoCodec::H265) == "AMFVideoEncoder_HEVC"@,
        component_name(VideoCodec::Av1) == "AMFVideoEncoder_AV1"@,
        config.dynamic_range == DynamicRange::Hdr10 ==> surface_format(config) == 10,
        config.dynamic_range == DynamicRange::Sdr ==> surface_format(config) == 3,
        OUTPUT_DATA_TYPE_IDR == 0,
        H264_OUTPUT_DATA_TYPE@ == "OutputDataType"@,
        HEVC_OUTPUT_DATA_TYPE@ == "OutputDataType"@,
{
}

/// What makes a frame a keyframe: the picture type 2, and for H.264 the parameter sets
/// with it.
pub proof fn law_keyframes_are_forced()
    ensures
        keyframe_properties(VideoCodec::H264) == seq![
            ("InsertSPS"@, AmfValue::Int(1)),
            ("InsertPPS"@, AmfValue::Int(1)),
            ("ForcePictureType"@, AmfValue::Int(2)),
        ],
        keyframe_properties(VideoCodec::H265) == seq![("HevcForcePictureType"@, AmfValue::Int(2))],
        keyframe_properties(VideoCodec::Av1) == seq![("Av1ForcePictureType"@, AmfValue::Int(2))],
{
}

/// A change of the bitrate tells the target in bits per second and a peak of half as much
/// again, by the names that the session was told them by.
pub proof fn law_bitrate_changes(codec: VideoCodec, bitrate_kbps: u32)
    ensures
        ({
            let told = bitrate_properties(codec, bitrate_kbps);
            &&& told.len() == 2
            &&& told[0].1 == AmfValue::Int((bitrate_kbps * 1000) as i64)
            &&& told[1].1 == AmfValue::Int((bitrate_kbps * 1500) as i64)
            &&& codec == VideoCodec::H264 ==> told[0].0 == "TargetBitrate"@ && told[1].0
                == "PeakBitrate"@
            &&& codec == VideoCodec::H265 ==> told[0].0 == "HevcTargetBitrate"@ && told[1].0
                == "HevcPeakBitrate"@
            &&& codec == VideoCodec::Av1 ==> told[0].0 == "Av1TargetBitrate"@ && told[1].0
                == "Av1PeakBitrate"@
        }),
{
}

/// The pixels of a frame come from its shared texture where it has one, which is opened
/// where it is not open; else from its bytes, in rows of its stride; else from nowhere.
pub proof fn law_frame_sources(
    frame: CapturedView,
    config: EncodeConfig,
    open_texture: Option<u64>,
)
    ensures
        match frame.gpu_handle {
            Some(HandleView::DxgiSharedTexture(handle)) => frame_source(frame, config, open_texture)
                == Some(
                SurfaceSource::SharedTexture {
                    handle,
                    open: !(open_texture is Some && open_texture->0 == handle),
                },
            ),
            _ => {
                &&& frame_source(frame, config, open_texture) is Some <==> frame.data.len() > 0
                &&& frame.data.len() > 0 ==> frame_source(frame, config, open_texture) == Some(
                    SurfaceSource::HostMemory {
                        format: surface_format(config),
                        width: config.resolution.width as i32,
                        height: config.resolution.height as i32,
                        h_pitch: frame.stride as i32,
                        v_pitch: config.resolution.height as i32,
                    },
                )
            },
        },
{
}

/// AV1 comes with version 1.4.30, and HDR with version 1.4.23.
pub proof fn law_first_versions()
    ensures
        first_av1_version() == 0x1_0000_0000_0000 + 4 * 0x1_0000_0000 + 30 * 0x1_0000,
        first_hdr_version() == 0x1_0000_0000_0000 + 4 * 0x1_0000_0000 + 23 * 0x1_0000,
        AMF_MIN_VERSION == first_av1_version(),
{
    law_version_features();
    ffi::law_version_fields(1, 4, 30, 0);
    ffi::law_version_fields(1, 4, 23, 0);
}

/// Properties are seen by their names and values, in order.
pub proof fn law_properties_are_seen(properties: Seq<AmfProperty>, i: int)
    requires
        0 <= i < properties.len(),
    ensures
        property_views(properties).len() == properties.len(),
        property_views(properties)[i].0 == properties[i].name@,
        property_views(properties)[i].1 == properties[i].value,
{
}

} // verus!
