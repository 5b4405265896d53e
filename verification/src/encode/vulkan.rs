//! The Vulkan Video encoder: the choice of a device, the resources of a session,
//! and what each frame asks of the driver.

use vstd::prelude::*;
use vstd::slice::slice_subrange;

use crate::encode::config::{CapabilitiesView, EncodeConfig, EncoderCapabilities};
use crate::encode::h264::{
    build_picture_info, build_pps, build_reference_info, build_reference_lists, build_slice_header,
    build_sps, codable, kind_of_slice, macroblocks, mb_count, picture_parameters, reference_of,
    refers_to, sequence_parameters, FrameState, PictureInfo, PictureParameterSet, ReferenceInfo,
    SequenceParameterSet, SliceHeader, MAX_FRAME_NUM, MB_SIZE,
};
use crate::encode::nv12::{conversion_fits, conversion_refusal, frame_to_nv12, nv12_image};
use crate::error::{ErrorView, FluxError};
use crate::frame::{CapturedFrame, EncodedPacket, PacketView};
use crate::text::decimal;
use crate::types::{
    codec_text, push_resolution, resolution_text, RateControlMode, Resolution, VideoCodec,
};

verus! {

/// Frames between keyframes where none are asked for, so that a stream recovers
/// from losses by itself.
pub const INFINITE_GOP_IDR_INTERVAL: u64 = 2048;

/// The constant quantizer.
pub const CONSTANT_QP: i32 = 23;

/// The least size of the bitstream buffer.
pub const MIN_BITSTREAM_BUFFER_SIZE: u64 = 4_194_304;

/// The Vulkan version that a device needs, 1.3.
pub const REQUIRED_API_VERSION: u32 = 0x0040_3000;

/// What a queue family can do.
#[derive(Debug, Clone, Copy, PartialEq, Eq, Structural)]
pub struct QueueFamily {
    pub video_encode: bool,
    pub encodes_h264: bool,
    /// Whether it copies: by graphics, compute or transfer.
    pub copies: bool,
}

/// Whether a family encodes H.264.
pub open spec fn encodes(family: QueueFamily) -> bool {
    family.video_encode && family.encodes_h264
}

/// Whether a family copies while another one encodes.
pub open spec fn copies_beside(family: QueueFamily) -> bool {
    family.copies && !family.video_encode
}

/// Whether `found` is the first index that satisfies a condition, or there is none.
pub open spec fn is_first<T>(items: Seq<T>, condition: spec_fn(T) -> bool, found: Option<u32>) -> bool {
    match found {
        Some(at) => at < items.len() && condition(items[at as int]) && forall|i: int|
            0 <= i < at ==> !condition(#[trigger] items[i]),
        None => forall|i: int| 0 <= i < items.len() ==> !condition(#[trigger] items[i]),
    }
}

/// The families to encode and to copy with: the first that encodes H.264, and
/// the first that copies without encoding. Where no such family copies, the
/// encoding one does.
pub fn find_queue_families(families: &Vec<QueueFamily>) -> (found: Option<(u32, u32)>)
    requires
        families@.len() <= u32::MAX,
    ensures
        match found {
            Some((encode, transfer)) => {
                &&& is_first(families@, |f: QueueFamily| encodes(f), Some(encode))
                &&& is_first(families@, |f: QueueFamily| copies_beside(f), Some(transfer)) || (is_first(
                    families@,
                    |f: QueueFamily| copies_beside(f),
                    None,
                ) && transfer == encode)
            },
            None => is_first(families@, |f: QueueFamily| encodes(f), None),
        },
{
    let mut encode: Option<u32> = None;
    let mut transfer: Option<u32> = None;
    for i in 0..families.len()
        invariant
            families@.len() <= u32::MAX,
            is_first(families@.take(i as int), |f: QueueFamily| encodes(f), encode),
            is_first(families@.take(i as int), |f: QueueFamily| copies_beside(f), transfer),
    {
        let family: QueueFamily = families[i];
        let ghost upto = families@.take(i + 1);
        let ghost before = families@.take(i as int);
        assert(forall|j: int| 0 <= j < i ==> #[trigger] upto[j] == before[j]);
        assert(upto[i as int] == family);
        if encode.is_none() && family.video_encode && family.encodes_h264 {
            encode = Some(i as u32);
        }
        if transfer.is_none() && family.copies && !family.video_encode {
            transfer = Some(i as u32);
        }
    }
    assert(families@.take(families@.len() as int) =~= families@);
    match encode {
        Some(encode) => Some(
            (
                encode,
                match transfer {
                    Some(transfer) => transfer,
                    None => encode,
                },
            ),
        ),
        None => None,
    }
}

/// What is known of a device.
pub struct DeviceCandidate {
    pub api_version: u32,
    /// Whether it has the video queue, the encode queue and the H.264 extension.
    pub has_extensions: bool,
    pub families: Vec<QueueFamily>,
    /// Whether it reported its H.264 limits, and encodes from NV12.
    pub has_h264_caps: bool,
}

/// Whether a device can encode.
pub open spec fn suitable(device: DeviceCandidate) -> bool {
    &&& device.api_version >= REQUIRED_API_VERSION
    &&& device.has_extensions
    &&& device.has_h264_caps
    &&& exists|i: int| 0 <= i < device.families@.len() && encodes(#[trigger] device.families@[i])
}

/// The first device that can encode.
pub fn select_device(devices: &Vec<DeviceCandidate>) -> (result: Result<usize, FluxError>)
    requires
        forall|i: int| 0 <= i < devices@.len() ==> (#[trigger] devices@[i]).families@.len() <= u32::MAX,
    ensures
        match result {
            Ok(at) => at < devices@.len() && suitable(devices@[at as int]) && forall|i: int|
                0 <= i < at ==> !suitable(#[trigger] devices@[i]),
            Err(e) => (forall|i: int| 0 <= i < devices@.len() ==> !suitable(#[trigger] devices@[i]))
                && e@ == ErrorView::EncoderInit("no Vulkan device with H.264 video encode support found"@),
        },
{
    for at in 0..devices.len()
        invariant
            forall|i: int|
                0 <= i < devices@.len() ==> (#[trigger] devices@[i]).families@.len() <= u32::MAX,
            forall|i: int| 0 <= i < at ==> !suitable(#[trigger] devices@[i]),
    {
        let device: &DeviceCandidate = &devices[at];
        if device.api_version >= REQUIRED_API_VERSION && device.has_extensions
            && device.has_h264_caps {
            if let Some((encode, _)) = find_queue_families(&device.families) {
                assert(encodes(device.families@[encode as int]));
                return Ok(at);
            }
        }
    }
    Err(
        FluxError::EncoderInit(
            "no Vulkan device with H.264 video encode support found".to_string(),
        ),
    )
}

/// Whether a memory type is allowed by a mask and has all of some properties.
pub open spec fn memory_fits(types: Seq<u32>, type_bits: u32, flags: u32, index: int) -> bool {
    type_bits & (1u32 << (index as u32)) != 0 && types[index] & flags == flags
}

/// Whether `found` is the first memory type that fits, or there is none.
pub open spec fn is_first_memory(types: Seq<u32>, type_bits: u32, flags: u32, found: Option<u32>) -> bool {
    match found {
        Some(at) => at < types.len() && memory_fits(types, type_bits, flags, at as int) && forall|
            i: int,
        |
            0 <= i < at ==> !(#[trigger] memory_fits(types, type_bits, flags, i)),
        None => forall|i: int|
            0 <= i < types.len() ==> !(#[trigger] memory_fits(types, type_bits, flags, i)),
    }
}

/// The first memory type that a mask allows and that has all of some properties.
pub fn find_memory_type(types: &Vec<u32>, type_bits: u32, flags: u32) -> (found: Option<u32>)
    requires
        types@.len() <= 32,
    ensures
        is_first_memory(types@, type_bits, flags, found),
{
    for at in 0..types.len()
        invariant
            types@.len() <= 32,
            forall|i: int| 0 <= i < at ==> !(#[trigger] memory_fits(types@, type_bits, flags, i)),
    {
        if type_bits & (1u32 << (at as u32)) != 0 && types[at] & flags == flags {
            assert(memory_fits(types@, type_bits, flags, at as int));
            return Some(at as u32);
        }
    }
    None
}

/// The memory type of a session: the first with the wanted properties, or else
/// the first that is allowed.
pub fn find_session_memory_type(types: &Vec<u32>, type_bits: u32, wanted: u32) -> (found: Option<u32>)
    requires
        types@.len() <= 32,
    ensures
        if is_first_memory(types@, type_bits, wanted, None) {
            is_first_memory(types@, type_bits, 0, found)
        } else {
            found is Some && is_first_memory(types@, type_bits, wanted, found)
        },
{
    let preferred = find_memory_type(types, type_bits, wanted);
    if preferred.is_some() {
        return preferred;
    }
    find_memory_type(types, type_bits, 0)
}

/// Limits of a device.
#[derive(Debug, Clone, Copy, PartialEq, Eq, Structural)]
pub struct H264Caps {
    pub max_coded_extent: Resolution,
    pub min_bitstream_size_align: u64,
    pub max_dpb_slots: u32,
    pub max_active_refs: u32,
    pub supports_cbr: bool,
    pub supports_vbr: bool,
    pub supports_disabled: bool,
    pub min_qp: i32,
    pub max_qp: i32,
    pub cabac: bool,
}

/// The name of a rate control mode.
pub open spec fn rate_control_text(mode: RateControlMode) -> Seq<char> {
    match mode {
        RateControlMode::Cbr => "Cbr"@,
        RateControlMode::Vbr => "Vbr"@,
        RateControlMode::Cqp => "Cqp"@,
    }
}

/// Whether a device has a rate control mode.
pub open spec fn has_rate_control(caps: H264Caps, mode: RateControlMode) -> bool {
    match mode {
        RateControlMode::Cbr => caps.supports_cbr,
        RateControlMode::Vbr => caps.supports_vbr,
        RateControlMode::Cqp => caps.supports_disabled,
    }
}

/// Why a device cannot encode with some parameters, if it cannot.
pub open spec fn config_refusal(caps: H264Caps, config: EncodeConfig) -> Option<Seq<char>> {
    if config.codec != VideoCodec::H264 {
        Some(
            "Vulkan Video backend currently encodes H.264 only (requested "@ + codec_text(config.codec)
                + "); H.265/AV1 land in a later phase"@,
        )
    } else if config.resolution.width > caps.max_coded_extent.width || config.resolution.height
        > caps.max_coded_extent.height {
        Some(
            "resolution "@ + resolution_text(config.resolution) + " exceeds Vulkan Video maximum "@
                + resolution_text(caps.max_coded_extent),
        )
    } else if caps.max_dpb_slots < 2 || caps.max_active_refs < 1 {
        Some("Vulkan Video: driver DPB too small for IPPP encoding"@)
    } else if !has_rate_control(caps, config.rate_control) {
        Some(
            "Vulkan Video: driver does not support "@ + rate_control_text(config.rate_control)
                + " rate control"@,
        )
    } else {
        None
    }
}

/// The Vulkan Video encoder on a device.
pub struct VulkanVideoEncoder {
    caps: H264Caps,
    device_name: String,
}

impl VulkanVideoEncoder {
    /// The limits of the device.
    pub closed spec fn limits(self) -> H264Caps {
        self.caps
    }

    /// The name of the device.
    pub closed spec fn device(self) -> Seq<char> {
        self.device_name@
    }

    /// The encoder on a device.
    pub fn new(caps: H264Caps, device_name: String) -> (encoder: Self)
        ensures
            encoder.limits() == caps,
            encoder.device() == device_name@,
    {
        Self { caps, device_name }
    }

    /// The name of the device.
    pub fn device_name(&self) -> (name: &str)
        ensures
            name@ == self.device(),
    {
        self.device_name.as_str()
    }

    /// The name of the encoder.
    pub fn name(&self) -> (name: &'static str)
        ensures
            name@ == "Vulkan Video"@,
    {
        "Vulkan Video"
    }

    /// What the encoder offers.
    pub fn capabilities(&self) -> (result: Result<EncoderCapabilities, FluxError>)
        ensures
            result matches Ok(report) && report@ == (CapabilitiesView {
                name: "Vulkan Video"@,
                supported_codecs: seq![VideoCodec::H264],
                supports_hdr: false,
                supports_yuv444: false,
                max_resolution: self.limits().max_coded_extent,
                max_framerate: 240,
            }),
    {
        let codecs: Vec<VideoCodec> = vec![VideoCodec::H264];
        assert(codecs@ =~= seq![VideoCodec::H264]);
        Ok(
            EncoderCapabilities {
                name: "Vulkan Video",
                supported_codecs: codecs,
                supports_hdr: false,
                supports_yuv444: false,
                max_resolution: self.caps.max_coded_extent,
                max_framerate: 240,
            },
        )
    }

    /// Refuses what the device cannot encode.
    pub fn validate_config(&self, config: &EncodeConfig) -> (result: Result<(), FluxError>)
        ensures
            match config_refusal(self.limits(), *config) {
                Some(reason) => result matches Err(e) && e@ == ErrorView::EncoderInit(reason),
                None => result is Ok,
            },
    {
        if config.codec != VideoCodec::H264 {
            let mut text = "Vulkan Video backend currently encodes H.264 only (requested ".to_string();
            text.append(config.codec.name());
            text.append("); H.265/AV1 land in a later phase");
            return Err(FluxError::EncoderInit(text));
        }
        let max: Resolution = self.caps.max_coded_extent;
        if config.resolution.width > max.width || config.resolution.height > max.height {
            let mut text = "resolution ".to_string();
            push_resolution(&mut text, config.resolution);
            text.append(" exceeds Vulkan Video maximum ");
            push_resolution(&mut text, max);
            return Err(FluxError::EncoderInit(text));
        }
        if self.caps.max_dpb_slots < 2 || self.caps.max_active_refs < 1 {
            return Err(
                FluxError::EncoderInit(
                    "Vulkan Video: driver DPB too small for IPPP encoding".to_string(),
                ),
            );
        }
        let supported: bool = match config.rate_control {
            RateControlMode::Cbr => self.caps.supports_cbr,
            RateControlMode::Vbr => self.caps.supports_vbr,
            RateControlMode::Cqp => self.caps.supports_disabled,
        };
        if !supported {
            let mut text = "Vulkan Video: driver does not support ".to_string();
            text.append(
                match config.rate_control {
                    RateControlMode::Cbr => "Cbr",
                    RateControlMode::Vbr => "Vbr",
                    RateControlMode::Cqp => "Cqp",
                },
            );
            text.append(" rate control");
            return Err(FluxError::EncoderInit(text));
        }
        Ok(())
    }
}

/// Whether `aligned` is the least multiple of `align` that is not below `v`.
pub open spec fn is_aligned_up(v: int, align: int, aligned: int) -> bool {
    aligned % align == 0 && v <= aligned < v + align
}

/// The least multiple of an alignment that is not below a number.
pub fn align_up(v: u64, align: u64) -> (aligned: u64)
    requires
        align > 0,
        v + align - 1 <= u64::MAX,
    ensures
        is_aligned_up(v as int, align as int, aligned as int),
{
    let units: u64 = if v % align == 0 {
        v / align
    } else {
        v / align + 1
    };
    proof {
        let (value, unit, count) = (v as int, align as int, units as int);
        let quotient = value / unit;
        let rest = value % unit;
        assert(value == unit * quotient + rest && 0 <= rest < unit) by (nonlinear_arith)
            requires
                unit > 0,
                quotient == value / unit,
                rest == value % unit,
        ;
        assert(unit * (quotient + 1) == unit * quotient + unit) by (nonlinear_arith);
        assert(count * unit == unit * count) by (nonlinear_arith);
        assert((count * unit) % unit == 0) by (nonlinear_arith)
            requires
                unit > 0,
        ;
    }
    units * align
}

/// Which plane of an image a copy fills, from where in the staging buffer, and
/// how large the plane is.
#[derive(Debug, Clone, Copy, PartialEq, Eq, Structural)]
pub struct CopyRegion {
    pub plane: u32,
    pub buffer_offset: u64,
    pub width: u32,
    pub height: u32,
}

/// The resources of a session.
pub struct SessionPlan {
    /// The size of the images, in whole macroblocks.
    pub aligned_extent: Resolution,
    pub sps: SequenceParameterSet,
    pub pps: PictureParameterSet,
    /// Whether the input image is shared between two queue families.
    pub concurrent: bool,
    /// The size of the buffer that frames are uploaded from.
    pub staging_size: u64,
    /// The size of the buffer that the bitstream is written to.
    pub bitstream_size: u64,
    /// How an uploaded frame is copied into the input image.
    pub upload: [CopyRegion; 2],
}

/// The larger of a buffer size and the least one.
pub open spec fn bitstream_need(staging_size: int) -> int {
    if staging_size > MIN_BITSTREAM_BUFFER_SIZE {
        staging_size
    } else {
        MIN_BITSTREAM_BUFFER_SIZE as int
    }
}

/// An alignment, at least one.
pub open spec fn effective_alignment(caps: H264Caps) -> int {
    if caps.min_bitstream_size_align < 1 {
        1
    } else {
        caps.min_bitstream_size_align as int
    }
}

/// The resources of a session on a device.
pub fn plan_session(caps: &H264Caps, config: &EncodeConfig, encode_family: u32, transfer_family: u32) -> (plan:
    SessionPlan)
    requires
        codable(config.resolution.width, config.resolution.height),
        config.resolution.width * config.resolution.height * 3 <= u64::MAX,
        bitstream_need(config.resolution.width * config.resolution.height * 3 / 2) + effective_alignment(
            *caps,
        ) - 1 <= u64::MAX,
    ensures
        plan.aligned_extent == (Resolution {
            width: (macroblocks(config.resolution.width as int) * 16) as u32,
            height: (macroblocks(config.resolution.height as int) * 16) as u32,
        }),
        plan.sps == sequence_parameters(
            config.resolution.width,
            config.resolution.height,
            config.framerate,
        ),
        plan.pps == (PictureParameterSet {
            entropy_coding_mode_flag: caps.cabac,
            deblocking_filter_control_present_flag: true,
        }),
        plan.concurrent == (encode_family != transfer_family),
        plan.staging_size == config.resolution.width * config.resolution.height * 3 / 2,
        is_aligned_up(
            bitstream_need(plan.staging_size as int),
            effective_alignment(*caps),
            plan.bitstream_size as int,
        ),
        plan.upload@ == seq![
            CopyRegion {
                plane: 0,
                buffer_offset: 0,
                width: config.resolution.width,
                height: config.resolution.height,
            },
            CopyRegion {
                plane: 1,
                buffer_offset: (config.resolution.width * config.resolution.height) as u64,
                width: config.resolution.width / 2,
                height: config.resolution.height / 2,
            },
        ],
{
    let width: u32 = config.resolution.width;
    let height: u32 = config.resolution.height;
    assert(0 <= width * height) by (nonlinear_arith)
        requires
            0 <= width,
            0 <= height,
    ;
    let luma: u64 = width as u64 * height as u64;
    let staging_size: u64 = luma * 3 / 2;
    let need: u64 = if staging_size > MIN_BITSTREAM_BUFFER_SIZE {
        staging_size
    } else {
        MIN_BITSTREAM_BUFFER_SIZE
    };
    let alignment: u64 = if caps.min_bitstream_size_align < 1 {
        1
    } else {
        caps.min_bitstream_size_align
    };
    let upload: [CopyRegion; 2] = [
        CopyRegion { plane: 0, buffer_offset: 0, width, height },
        CopyRegion { plane: 1, buffer_offset: luma, width: width / 2, height: height / 2 },
    ];
    assert(upload@ =~= seq![upload@[0], upload@[1]]);
    SessionPlan {
        aligned_extent: Resolution::new(mb_count(width) * MB_SIZE, mb_count(height) * MB_SIZE),
        sps: build_sps(width, height, config.framerate),
        pps: build_pps(caps.cabac),
        concurrent: encode_family != transfer_family,
        staging_size,
        bitstream_size: align_up(need, alignment),
        upload,
    }
}

/// The NV12 image of a frame fits the staging buffer, and the chroma plane lies
/// behind the luma plane in it.
pub proof fn law_image_fits_staging(width: u32, height: u32)
    ensures
        width * height + width * (height / 2) <= width * height * 3 / 2,
{
    let (w, h) = (width as int, height as int);
    let half = h / 2;
    assert(2 * (w * half) <= w * h) by (nonlinear_arith)
        requires
            w >= 0,
            2 * half <= h,
    ;
}

/// Rate control for the driver.
#[derive(Debug, Clone, Copy, PartialEq, Eq, Structural)]
pub struct RateControl {
    pub mode: RateControlMode,
    /// Frames of a group of pictures, and between IDR frames.
    pub gop: u32,
    pub average_bitrate: u64,
    pub max_bitrate: u64,
    pub framerate: u32,
    /// Whether the bitrates apply: not with a constant quantizer.
    pub has_layer: bool,
    /// Whether the session is reset first.
    pub reset: bool,
}

/// Rate control for the driver: the peak of a variable bitrate is half as much
/// again.
pub open spec fn rate_control_of(config: EncodeConfig, idr_interval: u64, reset: bool) -> RateControl {
    let average = config.bitrate_kbps * 1000;
    RateControl {
        mode: config.rate_control,
        gop: if idr_interval > u32::MAX {
            u32::MAX
        } else {
            idr_interval as u32
        },
        average_bitrate: average as u64,
        max_bitrate: if config.rate_control == RateControlMode::Vbr {
            (average * 3 / 2) as u64
        } else {
            average as u64
        },
        framerate: if config.framerate < 1 {
            1
        } else {
            config.framerate
        },
        has_layer: config.rate_control != RateControlMode::Cqp,
        reset,
    }
}

/// What a frame asks of the driver.
pub struct FramePlan {
    pub state: FrameState,
    /// The slot that the picture is written to.
    pub setup_slot: usize,
    /// The slot that the previous picture lies in.
    pub ref_slot: usize,
    /// Whether the picture buffers have to be brought into their layout first.
    pub prepare_slots: bool,
    /// Rate control, where it has to be set.
    pub rate_control: Option<RateControl>,
    /// The picture as a reference.
    pub setup_reference: ReferenceInfo,
    /// The previous picture, where this one refers to it.
    pub reference: Option<ReferenceInfo>,
    pub picture: PictureInfo,
    pub slice: SliceHeader,
    pub constant_qp: i32,
}

/// A session with the Vulkan Video encoder.
pub struct VulkanVideoSession {
    caps: H264Caps,
    config: EncodeConfig,
    sps_pps: Vec<u8>,
    frame_counter: u64,
    frame_num: u32,
    idr_pic_id: u16,
    idr_interval: u64,
    idr_requested: bool,
    rc_dirty: bool,
    first_op: bool,
    setup_slot: usize,
    prev_frame: Option<FrameState>,
}

/// The state of a session.
#[verifier::ext_equal]
pub struct SessionView {
    pub caps: H264Caps,
    pub config: EncodeConfig,
    /// The parameter sets that go in front of IDR frames.
    pub sps_pps: Seq<u8>,
    /// The number of frames encoded.
    pub frame_counter: u64,
    /// The number of the next frame.
    pub frame_num: u32,
    /// The number of the next IDR frame.
    pub idr_pic_id: u16,
    /// Frames between IDR frames that nobody asked for.
    pub idr_interval: u64,
    pub idr_requested: bool,
    /// Whether rate control has to be set.
    pub rc_dirty: bool,
    /// Whether nothing was encoded yet.
    pub first_op: bool,
    /// The slot of the next picture.
    pub setup_slot: int,
    /// The previous frame.
    pub prev_frame: Option<FrameState>,
}

/// A number brought into a range.
pub open spec fn clamped_qp(caps: H264Caps) -> int {
    if CONSTANT_QP < caps.min_qp {
        caps.min_qp as int
    } else if CONSTANT_QP > caps.max_qp {
        caps.max_qp as int
    } else {
        CONSTANT_QP as int
    }
}

/// Whether the next frame is an IDR frame: on request, the first one, and the
/// first of every interval.
pub open spec fn idr_due(session: SessionView) -> bool {
    session.idr_requested || session.prev_frame is None || session.frame_counter
        % session.idr_interval == 0
}

/// The codec state of the next frame.
pub open spec fn next_state(session: SessionView) -> FrameState {
    let frame_num = if idr_due(session) {
        0
    } else {
        session.frame_num
    };
    FrameState {
        is_idr: idr_due(session),
        frame_num,
        pic_order_cnt: (2 * frame_num) as i32,
        idr_pic_id: session.idr_pic_id,
    }
}

/// The session once a frame was encoded.
pub open spec fn advanced(session: SessionView, state: FrameState) -> SessionView {
    SessionView {
        frame_counter: (session.frame_counter + 1) as u64,
        frame_num: ((state.frame_num + 1) % 0x1_0000) as u32,
        idr_pic_id: if state.is_idr {
            ((session.idr_pic_id + 1) % 0x1_0000) as u16
        } else {
            session.idr_pic_id
        },
        idr_requested: false,
        rc_dirty: false,
        first_op: false,
        setup_slot: 1 - session.setup_slot,
        prev_frame: Some(state),
        ..session
    }
}

/// What holds of a session at all times. Frame numbers stay below their limit,
/// there is a previous frame once one was encoded, and the next frame follows
/// it in number unless it starts over.
pub open spec fn consistent(session: SessionView) -> bool {
    &&& session.idr_interval > 0
    &&& session.frame_num < MAX_FRAME_NUM
    &&& 0 <= session.setup_slot < 2
    &&& session.prev_frame is None <==> session.first_op
    &&& session.first_op ==> session.frame_counter == 0
    &&& session.prev_frame matches Some(previous) ==> {
        ||| session.frame_num == (previous.frame_num + 1) % 0x1_0000
        ||| session.frame_num == 0 && idr_due(session)
    }
    &&& session.prev_frame matches Some(previous) ==> previous.frame_num < MAX_FRAME_NUM
        && previous.pic_order_cnt == 2 * previous.frame_num
}

impl View for VulkanVideoSession {
    type V = SessionView;

    closed spec fn view(&self) -> SessionView {
        SessionView {
            caps: self.caps,
            config: self.config,
            sps_pps: self.sps_pps@,
            frame_counter: self.frame_counter,
            frame_num: self.frame_num,
            idr_pic_id: self.idr_pic_id,
            idr_interval: self.idr_interval,
            idr_requested: self.idr_requested,
            rc_dirty: self.rc_dirty,
            first_op: self.first_op,
            setup_slot: self.setup_slot as int,
            prev_frame: self.prev_frame,
        }
    }
}

/// A session before its first frame.
pub open spec fn fresh_session(caps: H264Caps, config: EncodeConfig, sps_pps: Seq<u8>) -> SessionView {
    SessionView {
        caps,
        config,
        sps_pps,
        frame_counter: 0,
        frame_num: 0,
        idr_pic_id: 0,
        idr_interval: if config.gop_size == 0 {
            INFINITE_GOP_IDR_INTERVAL
        } else {
            config.gop_size as u64
        },
        idr_requested: true,
        rc_dirty: true,
        first_op: true,
        setup_slot: 0,
        prev_frame: None,
    }
}

impl VulkanVideoSession {
    /// A session with the given parameters and the parameter sets that the driver
    /// wrote.
    pub fn new(caps: H264Caps, config: EncodeConfig, sps_pps: Vec<u8>) -> (session: Self)
        ensures
            session@ == fresh_session(caps, config, sps_pps@),
            consistent(session@),
    {
        Self {
            caps,
            config,
            sps_pps,
            frame_counter: 0,
            frame_num: 0,
            idr_pic_id: 0,
            idr_interval: match config.gop_size {
                0 => INFINITE_GOP_IDR_INTERVAL,
                n => n as u64,
            },
            idr_requested: true,
            rc_dirty: true,
            first_op: true,
            setup_slot: 0,
            prev_frame: None,
        }
    }

    fn quantizer(&self) -> (qp: i32)
        requires
            self@.caps.min_qp <= self@.caps.max_qp,
        ensures
            qp == clamped_qp(self@.caps),
    {
        if CONSTANT_QP < self.caps.min_qp {
            self.caps.min_qp
        } else if CONSTANT_QP > self.caps.max_qp {
            self.caps.max_qp
        } else {
            CONSTANT_QP
        }
    }

    fn rate_control(&self) -> (rate_control: RateControl)
        ensures
            rate_control == rate_control_of(self@.config, self@.idr_interval, self@.first_op),
    {
        let average: u64 = self.config.bitrate_kbps as u64 * 1000;
        RateControl {
            mode: self.config.rate_control,
            gop: if self.idr_interval > u32::MAX as u64 {
                u32::MAX
            } else {
                self.idr_interval as u32
            },
            average_bitrate: average,
            max_bitrate: if self.config.rate_control == RateControlMode::Vbr {
                average * 3 / 2
            } else {
                average
            },
            framerate: if self.config.framerate < 1 {
                1
            } else {
                self.config.framerate
            },
            has_layer: self.config.rate_control != RateControlMode::Cqp,
            reset: self.first_op,
        }
    }

    /// Prepares a frame: its NV12 image, and what it asks of the driver. The
    /// session does not move on before the frame is encoded, but an IDR frame
    /// starts the frame numbers over at once.
    pub fn begin_frame(&mut self, frame: &CapturedFrame) -> (result: Result<
        (Vec<u8>, FramePlan),
        FluxError,
    >)
        requires
            consistent(old(self)@),
            frame.data@.len() > 0 && frame.resolution == old(self)@.config.resolution ==> conversion_fits(
                frame@,
            ),
            old(self)@.caps.min_qp <= old(self)@.caps.max_qp,
            clamped_qp(old(self)@.caps) >= i32::MIN + 26,
        ensures
            ({
                let before = old(self)@;
                let size = before.config.resolution;
                let state = next_state(before);
                let cqp = before.config.rate_control == RateControlMode::Cqp;
                match conversion_refusal(
                    frame@,
                    size.width,
                    size.height,
                    "CPU upload path needs CPU pixel data; DMA-BUF import not yet wired"@,
                ) {
                    Some(reason) => {
                        &&& result matches Err(e)
                        &&& e@ == (ErrorView::Encode { frame: frame.sequence, reason })
                        &&& final(self)@ == before
                    },
                    None => {
                        &&& result matches Ok((nv12, plan))
                        &&& nv12@ == nv12_image(frame@)
                        &&& plan.state == state
                        &&& plan.setup_slot == before.setup_slot
                        &&& plan.ref_slot == 1 - before.setup_slot
                        &&& plan.prepare_slots == before.first_op
                        &&& plan.rate_control == if before.first_op || before.rc_dirty {
                            Some(rate_control_of(before.config, before.idr_interval, before.first_op))
                        } else {
                            None
                        }
                        &&& plan.setup_reference == reference_of(state)
                        &&& plan.reference == if state.is_idr {
                            None
                        } else {
                            Some(reference_of(before.prev_frame->0))
                        }
                        &&& plan.picture == picture_parameters(state, plan.picture.ref_lists)
                        &&& match plan.picture.ref_lists {
                            Some(lists) => !state.is_idr && refers_to(lists, plan.ref_slot as u8),
                            None => state.is_idr,
                        }
                        &&& plan.slice == (SliceHeader {
                            slice_type: kind_of_slice(state.is_idr),
                            slice_qp_delta: if cqp {
                                (clamped_qp(before.caps) - 26) as i8
                            } else {
                                0
                            },
                        })
                        &&& plan.constant_qp == if cqp {
                            clamped_qp(before.caps)
                        } else {
                            0
                        }
                        &&& final(self)@ == (SessionView { frame_num: state.frame_num, ..before })
                    },
                }
            }),
            consistent(final(self)@),
    {
        let nv12: Vec<u8> = frame_to_nv12(
            frame,
            self.config.resolution.width,
            self.config.resolution.height,
        )?;
        let is_idr: bool = self.idr_requested || self.prev_frame.is_none() || self.frame_counter
            % self.idr_interval == 0;
        if is_idr {
            self.frame_num = 0;
        }
        let state = FrameState {
            is_idr,
            frame_num: self.frame_num,
            pic_order_cnt: self.frame_num as i32 * 2,
            idr_pic_id: self.idr_pic_id,
        };
        let ref_slot: usize = 1 - self.setup_slot;
        let reference: Option<ReferenceInfo> = if is_idr {
            None
        } else {
            match &self.prev_frame {
                Some(previous) => Some(build_reference_info(previous)),
                None => None,
            }
        };
        let picture: PictureInfo = if is_idr {
            build_picture_info(&state, None)
        } else {
            build_picture_info(&state, Some(build_reference_lists(ref_slot as u8)))
        };
        let qp: i32 = self.quantizer();
        let qp_delta: i8 = (qp - 26) as i8;
        let cqp: bool = self.config.rate_control == RateControlMode::Cqp;
        let plan = FramePlan {
            state,
            setup_slot: self.setup_slot,
            ref_slot,
            prepare_slots: self.first_op,
            rate_control: if self.first_op || self.rc_dirty {
                Some(self.rate_control())
            } else {
                None
            },
            setup_reference: build_reference_info(&state),
            reference,
            picture,
            slice: build_slice_header(
                is_idr,
                if cqp {
                    qp_delta
                } else {
                    0
                },
            ),
            constant_qp: if cqp {
                qp
            } else {
                0
            },
        };
        Ok((nv12, plan))
    }

    /// Moves on once a frame was encoded, and makes its packet: the parameter sets
    /// in front of an IDR frame, then the bytes that the driver wrote.
    pub fn finish_frame(
        &mut self,
        state: FrameState,
        sequence: u64,
        written: &[u8],
        offset: usize,
        bytes: usize,
    ) -> (packet: EncodedPacket)
        requires
            consistent(old(self)@),
            state == next_state(old(self)@),
            old(self)@.frame_num == state.frame_num,
            old(self)@.frame_counter < u64::MAX,
            offset + bytes <= written@.len(),
        ensures
            final(self)@ == advanced(old(self)@, state),
            consistent(final(self)@),
            packet@ == (PacketView {
                frame_index: final(self)@.frame_counter,
                pts: sequence,
                is_keyframe: state.is_idr,
                data: if state.is_idr {
                    old(self)@.sps_pps + written@.subrange(offset as int, offset + bytes)
                } else {
                    written@.subrange(offset as int, offset + bytes)
                },
            }),
    {
        let mut data: Vec<u8> = Vec::new();
        if state.is_idr {
            data.extend_from_slice(self.sps_pps.as_slice());
            assert(data@ =~= self.sps_pps@);
        }
        let ghost before = data@;
        assert(written@.len() == written.len());
        data.extend_from_slice(slice_subrange(written, offset, offset + bytes));
        assert(data@ =~= before + written@.subrange(offset as int, offset + bytes));
        assert(!state.is_idr ==> data@ =~= written@.subrange(offset as int, offset + bytes));
        self.frame_counter = self.frame_counter + 1;
        self.frame_num = (self.frame_num + 1) % MAX_FRAME_NUM;
        if state.is_idr {
            self.idr_pic_id = self.idr_pic_id.wrapping_add(1);
        }
        self.idr_requested = false;
        self.rc_dirty = false;
        self.first_op = false;
        self.setup_slot = 1 - self.setup_slot;
        self.prev_frame = Some(state);
        EncodedPacket {
            frame_index: self.frame_counter,
            pts: sequence,
            is_keyframe: state.is_idr,
            data,
        }
    }

    /// Makes the next frame an IDR frame.
    pub fn request_idr(&mut self)
        ensures
            final(self)@ == (SessionView { idr_requested: true, ..old(self)@ }),
            consistent(old(self)@) ==> consistent(final(self)@),
    {
        self.idr_requested = true;
    }

    /// Changes the target bitrate from the next frame on.
    pub fn set_bitrate(&mut self, bitrate_kbps: u32)
        ensures
            final(self)@ == (SessionView {
                config: EncodeConfig { bitrate_kbps, ..old(self)@.config },
                rc_dirty: true,
                ..old(self)@
            }),
            consistent(old(self)@) ==> consistent(final(self)@),
    {
        self.config.bitrate_kbps = bitrate_kbps;
        self.rc_dirty = true;
    }
}

/// The first frame of a session is an IDR frame with number zero.
pub proof fn law_first_frame_is_idr(caps: H264Caps, config: EncodeConfig, sps_pps: Seq<u8>)
    ensures
        next_state(fresh_session(caps, config, sps_pps)) == (FrameState {
            is_idr: true,
            frame_num: 0,
            pic_order_cnt: 0,
            idr_pic_id: 0,
        }),
{
}

/// A frame that is not an IDR frame follows the previous one: its number is the
/// next, and its place in the output order is twice that.
pub proof fn law_predicted_frame_follows(session: SessionView)
    requires
        consistent(session),
        !next_state(session).is_idr,
    ensures
        session.prev_frame is Some,
        next_state(session).frame_num == (session.prev_frame->0.frame_num + 1) % 0x1_0000,
        next_state(session).pic_order_cnt == 2 * next_state(session).frame_num,
{
}

/// An IDR frame starts the numbers over, and a frame behind it refers to it by
/// number zero; the slots change places with every frame.
pub proof fn law_idr_starts_over(session: SessionView)
    requires
        consistent(session),
        idr_due(session),
        session.frame_counter < u64::MAX,
    ensures
        next_state(session).frame_num == 0,
        advanced(session, next_state(session)).frame_num == 1,
        advanced(session, next_state(session)).prev_frame == Some(next_state(session)),
        advanced(session, next_state(session)).setup_slot == 1 - session.setup_slot,
        advanced(session, next_state(session)).idr_pic_id == (session.idr_pic_id + 1) % 0x1_0000,
{
}

/// Frames after some number of frames, none of them asked to be an IDR frame.
pub open spec fn after_frames(session: SessionView, count: nat) -> SessionView
    decreases count,
{
    if count == 0 {
        session
    } else {
        let before = after_frames(session, (count - 1) as nat);
        advanced(before, next_state(before))
    }
}

/// Without any request, an IDR frame comes at least once in every interval.
pub proof fn law_idr_in_every_interval(session: SessionView)
    requires
        consistent(session),
        session.frame_counter + session.idr_interval <= u64::MAX,
    ensures
        exists|k: nat| k < session.idr_interval && idr_due(#[trigger] after_frames(session, k)),
{
    let interval = session.idr_interval as int;
    let rest = session.frame_counter as int % interval;
    let k: nat = if rest == 0 {
        0
    } else {
        (interval - rest) as nat
    };
    lemma_counter(session, k);
    assert((session.frame_counter + k) % interval == 0) by (nonlinear_arith)
        requires
            interval > 0,
            rest == session.frame_counter as int % interval,
            k as int == if rest == 0 {
                0
            } else {
                interval - rest
            },
    ;
    assert(idr_due(after_frames(session, k)));
}

proof fn lemma_counter(session: SessionView, k: nat)
    requires
        session.frame_counter + k <= u64::MAX,
    ensures
        after_frames(session, k).frame_counter == session.frame_counter + k,
        after_frames(session, k).idr_interval == session.idr_interval,
    decreases k,
{
    if k > 0 {
        lemma_counter(session, (k - 1) as nat);
    }
}

/// What can happen to a session.
pub enum SessionEvent {
    /// An IDR frame is asked for.
    IdrRequested,
    /// The target bitrate changes.
    BitrateSet(u32),
    /// A frame is refused before anything is asked of the driver.
    FrameRefused,
    /// A frame is begun, and fails in the driver.
    FrameFailed,
    /// A frame is begun and encoded.
    FrameEncoded,
}

/// The session after an event.
pub open spec fn after_event(session: SessionView, event: SessionEvent) -> SessionView {
    let state = next_state(session);
    match event {
        SessionEvent::IdrRequested => SessionView { idr_requested: true, ..session },
        SessionEvent::BitrateSet(bitrate_kbps) => SessionView {
            config: EncodeConfig { bitrate_kbps, ..session.config },
            rc_dirty: true,
            ..session
        },
        SessionEvent::FrameRefused => session,
        SessionEvent::FrameFailed => SessionView { frame_num: state.frame_num, ..session },
        SessionEvent::FrameEncoded => advanced(
            SessionView { frame_num: state.frame_num, ..session },
            state,
        ),
    }
}

/// The session after a run of events.
pub open spec fn after_run(session: SessionView, events: Seq<SessionEvent>) -> SessionView
    decreases events.len(),
{
    if events.len() == 0 {
        session
    } else {
        after_event(after_run(session, events.drop_last()), events.last())
    }
}

/// The number of frames that a run encodes.
pub open spec fn encoded_frames(events: Seq<SessionEvent>) -> nat
    decreases events.len(),
{
    if events.len() == 0 {
        0
    } else {
        encoded_frames(events.drop_last()) + if events.last() is FrameEncoded {
            1nat
        } else {
            0
        }
    }
}

/// Whether an IDR frame was asked for since the last frame that was encoded.
pub open spec fn request_stands(events: Seq<SessionEvent>) -> bool
    decreases events.len(),
{
    if events.len() == 0 {
        false
    } else {
        match events.last() {
            SessionEvent::IdrRequested => true,
            SessionEvent::FrameEncoded => false,
            _ => request_stands(events.drop_last()),
        }
    }
}

/// Whatever happened to a session, the next frame is an IDR frame exactly where the
/// number of frames encoded is a multiple of the interval, or where one was asked for
/// since the last frame that was encoded: a frame that fails does not use up the
/// request. The interval is the GOP size, or a fixed one where that is zero. The
/// packet of the frame has the next number, and an IDR frame begins with the
/// parameter sets.
pub proof fn law_idr_frames_over_a_run(
    caps: H264Caps,
    config: EncodeConfig,
    sps_pps: Seq<u8>,
    events: Seq<SessionEvent>,
)
    requires
        encoded_frames(events) < u64::MAX,
    ensures
        ({
            let session = after_run(fresh_session(caps, config, sps_pps), events);
            let count = encoded_frames(events);
            let interval: int = if config.gop_size == 0 {
                INFINITE_GOP_IDR_INTERVAL as int
            } else {
                config.gop_size as int
            };
            &&& consistent(session)
            &&& session.frame_counter == count
            &&& session.sps_pps == sps_pps
            &&& next_state(session).is_idr <==> (count as int % interval == 0 || request_stands(
                events,
            ))
            &&& after_event(session, SessionEvent::FrameEncoded).frame_counter == count + 1
        }),
{
    lemma_run(caps, config, sps_pps, events);
}

proof fn lemma_run(
    caps: H264Caps,
    config: EncodeConfig,
    sps_pps: Seq<u8>,
    events: Seq<SessionEvent>,
)
    requires
        encoded_frames(events) < u64::MAX,
    ensures
        ({
            let fresh = fresh_session(caps, config, sps_pps);
            let session = after_run(fresh, events);
            let count = encoded_frames(events);
            &&& consistent(session)
            &&& session.frame_counter == count
            &&& session.sps_pps == sps_pps
            &&& session.idr_interval == fresh.idr_interval
            &&& session.idr_requested == (count == 0 || request_stands(events))
            &&& session.prev_frame is None == (count == 0)
        }),
    decreases events.len(),
{
    if events.len() > 0 {
        lemma_run(caps, config, sps_pps, events.drop_last());
    }
}

/// A device is suitable exactly where it has Vulkan 1.3 or later, the extensions, the
/// limits of H.264, and a queue family that encodes video, and H.264 among it. A family
/// copies beside it where it copies and does not encode video.
pub proof fn law_suitable_devices(device: DeviceCandidate, family: QueueFamily)
    ensures
        suitable(device) <==> {
            &&& device.api_version >= 0x40_0000 + 3 * 0x1000
            &&& device.has_extensions && device.has_h264_caps
            &&& exists|i: int|
                0 <= i < device.families@.len() && (#[trigger] device.families@[i]).video_encode
                    && device.families@[i].encodes_h264
        },
        encodes(family) <==> family.video_encode && family.encodes_h264,
        copies_beside(family) <==> family.copies && !family.video_encode,
{
    if suitable(device) {
        let i = choose|i: int|
            0 <= i < device.families@.len() && encodes(#[trigger] device.families@[i]);
        assert(device.families@[i].video_encode);
    }
    if exists|i: int|
        0 <= i < device.families@.len() && (#[trigger] device.families@[i]).video_encode
            && device.families@[i].encodes_h264 {
        let i = choose|i: int|
            0 <= i < device.families@.len() && (#[trigger] device.families@[i]).video_encode
                && device.families@[i].encodes_h264;
        assert(encodes(device.families@[i]));
    }
}

/// What is found first satisfies the condition, nothing in front of it does, and where
/// nothing is found nothing does.
pub proof fn law_the_first_is_found<T>(
    items: Seq<T>,
    condition: spec_fn(T) -> bool,
    found: Option<u32>,
    i: int,
)
    requires
        is_first(items, condition, found),
        0 <= i < items.len(),
    ensures
        found matches Some(at) ==> at < items.len() && condition(items[at as int]) && (i < at
            ==> !condition(items[i])),
        found is None ==> !condition(items[i]),
{
}

/// A memory type that is found first is allowed by its bit and has every property that is
/// asked for, and none in front of it is so.
pub proof fn law_the_first_memory_is_found(
    types: Seq<u32>,
    type_bits: u32,
    flags: u32,
    found: Option<u32>,
    i: int,
)
    requires
        is_first_memory(types, type_bits, flags, found),
        0 <= i < types.len(),
    ensures
        ({
            let fits = |k: int| type_bits & (1u32 << (k as u32)) != 0 && types[k] & flags == flags;
            &&& found matches Some(at) ==> at < types.len() && fits(at as int) && (i < at ==> !fits(i))
            &&& found is None ==> !fits(i)
        }),
{
    assert(memory_fits(types, type_bits, flags, i) <==> type_bits & (1u32 << (i as u32)) != 0
        && types[i] & flags == flags);
    if let Some(at) = found {
        let at = at as int;
        assert(memory_fits(types, type_bits, flags, at) <==> type_bits & (1u32 << (at as u32)) != 0
            && types[at] & flags == flags);
    }
}

/// A device takes some parameters exactly where they ask for H.264 at a size within its
/// limits, with a kind of rate control that it has, and it has room for two pictures of
/// which one is referred to.
pub proof fn law_devices_refuse_what_they_lack(caps: H264Caps, config: EncodeConfig)
    ensures
        config_refusal(caps, config) is None <==> {
            &&& config.codec == VideoCodec::H264
            &&& config.resolution.width <= caps.max_coded_extent.width
            &&& config.resolution.height <= caps.max_coded_extent.height
            &&& caps.max_dpb_slots >= 2 && caps.max_active_refs >= 1
            &&& config.rate_control == RateControlMode::Cbr ==> caps.supports_cbr
            &&& config.rate_control == RateControlMode::Vbr ==> caps.supports_vbr
            &&& config.rate_control == RateControlMode::Cqp ==> caps.supports_disabled
        },
{
}

/// A number is aligned up to the next multiple, and to itself where it is one. The buffer
/// of the bitstream has four mebibytes or what a frame takes, whichever is more.
pub proof fn law_sizes_are_rounded_up(v: int, align: int, aligned: int, caps: H264Caps)
    requires
        align > 0,
        is_aligned_up(v, align, aligned),
    ensures
        aligned >= v,
        aligned - v < align,
        aligned % align == 0,
        v % align == 0 ==> aligned == v,
        bitstream_need(v) >= v,
        bitstream_need(v) >= 4 * 1024 * 1024,
        bitstream_need(v) == v || bitstream_need(v) == 4 * 1024 * 1024,
        effective_alignment(caps) >= 1,
        caps.min_bitstream_size_align > 0 ==> effective_alignment(caps)
            == caps.min_bitstream_size_align,
{
    if v % align == 0 {
        assert(aligned == v) by (nonlinear_arith)
            requires
                align > 0,
                v % align == 0,
                aligned % align == 0,
                v <= aligned < v + align,
        ;
    }
}

/// What the driver is told of the rate: the mode and the rate that were asked for, in
/// bits per second, half as much again at the peak of a variable rate and no more at any
/// other, a framerate of at least one, and no bitrate for a constant quantizer. The group
/// of pictures is the interval of keyframes.
pub proof fn law_rate_control_follows_the_parameters(
    config: EncodeConfig,
    idr_interval: u64,
    reset: bool,
)
    ensures
        ({
            let control = rate_control_of(config, idr_interval, reset);
            &&& control.mode == config.rate_control
            &&& control.average_bitrate == config.bitrate_kbps * 1000
            &&& config.rate_control == RateControlMode::Vbr ==> 2 * control.max_bitrate == 3
                * control.average_bitrate
            &&& config.rate_control != RateControlMode::Vbr ==> control.max_bitrate
                == control.average_bitrate
            &&& control.has_layer <==> config.rate_control != RateControlMode::Cqp
            &&& control.framerate >= 1
            &&& config.framerate >= 1 ==> control.framerate == config.framerate
            &&& control.reset == reset
            &&& idr_interval <= u32::MAX ==> control.gop == idr_interval
            &&& idr_interval > u32::MAX ==> control.gop == u32::MAX
        }),
{
}

/// How a session goes on from a frame that was encoded: it counts the frame, refers to it
/// next, uses the other slot, and has neither a request nor a rate left to see to. The
/// numbers of frames go on by one within sixteen bits, from zero at an IDR frame, and
/// those of IDR frames by one at each of them. Nothing else changes.
pub proof fn law_sessions_go_on(session: SessionView)
    requires
        consistent(session),
        session.frame_counter < u64::MAX,
    ensures
        ({
            let state = next_state(session);
            let after = advanced(session, state);
            let first = session.prev_frame is None;
            &&& state.is_idr <==> session.idr_requested || first || session.frame_counter as int
                % session.idr_interval as int == 0
            &&& state.is_idr ==> state.frame_num == 0
            &&& !state.is_idr ==> state.frame_num == session.frame_num
            &&& state.pic_order_cnt == 2 * state.frame_num
            &&& state.idr_pic_id == session.idr_pic_id
            &&& after.frame_counter == session.frame_counter + 1
            &&& after.frame_num == (state.frame_num + 1) % 65536
            &&& after.prev_frame == Some(state)
            &&& after.setup_slot + session.setup_slot == 1
            &&& !after.idr_requested && !after.rc_dirty && !after.first_op
            &&& after.idr_pic_id == (session.idr_pic_id + if state.is_idr {
                1int
            } else {
                0
            }) % 65536
            &&& after.caps == session.caps && after.config == session.config && after.sps_pps
                == session.sps_pps && after.idr_interval == session.idr_interval
        }),
{
}

/// A new session starts with an IDR frame in the first slot, sets the rate first, and has
/// an IDR frame at each group of pictures, or every 2048 frames where there is none.
pub proof fn law_new_sessions(caps: H264Caps, config: EncodeConfig, sps_pps: Seq<u8>)
    ensures
        ({
            let session = fresh_session(caps, config, sps_pps);
            &&& consistent(session)
            &&& session.caps == caps && session.config == config && session.sps_pps == sps_pps
            &&& session.frame_counter == 0 && session.idr_requested && session.rc_dirty
                && session.first_op && session.setup_slot == 0
            &&& session.idr_interval == if config.gop_size == 0 {
                2048int
            } else {
                config.gop_size as int
            }
        }),
{
}

/// The constant quantizer is 23, or the limit of the device that is nearest to it.
pub proof fn law_the_quantizer_stays_within_limits(caps: H264Caps)
    requires
        caps.min_qp <= caps.max_qp,
    ensures
        caps.min_qp <= clamped_qp(caps) <= caps.max_qp,
        caps.min_qp <= 23 <= caps.max_qp ==> clamped_qp(caps) == 23,
        caps.min_qp > 23 ==> clamped_qp(caps) == caps.min_qp,
        caps.max_qp < 23 ==> clamped_qp(caps) == caps.max_qp,
{
}

/// The fixed numbers of the encoder.
pub proof fn law_fixed_numbers()
    ensures
        INFINITE_GOP_IDR_INTERVAL == 2048,
        CONSTANT_QP == 23,
        MIN_BITSTREAM_BUFFER_SIZE == 4 * 1024 * 1024,
        REQUIRED_API_VERSION == 1 * 0x40_0000 + 3 * 0x1000,
{
}

/// Why a device does not encode with some parameters.
pub proof fn law_devices_tell_what_they_lack(caps: H264Caps, config: EncodeConfig)
    ensures
        ({
            let refusal = config_refusal(caps, config);
            let size = |resolution: Resolution|
                decimal(resolution.width as nat) + "x"@ + decimal(resolution.height as nat);
            let h264 = config.codec == VideoCodec::H264;
            let small = config.resolution.width <= caps.max_coded_extent.width
                && config.resolution.height <= caps.max_coded_extent.height;
            let slots = caps.max_dpb_slots >= 2 && caps.max_active_refs >= 1;
            &&& config.codec == VideoCodec::H265 ==> refusal == Some(
                "Vulkan Video backend currently encodes H.264 only (requested "@ + "H265"@
                    + "); H.265/AV1 land in a later phase"@,
            )
            &&& config.codec == VideoCodec::Av1 ==> refusal == Some(
                "Vulkan Video backend currently encodes H.264 only (requested "@ + "Av1"@
                    + "); H.265/AV1 land in a later phase"@,
            )
            &&& h264 && !small ==> refusal == Some(
                "resolution "@ + size(config.resolution) + " exceeds Vulkan Video maximum "@ + size(
                    caps.max_coded_extent,
                ),
            )
            &&& h264 && small && !slots ==> refusal == Some(
                "Vulkan Video: driver DPB too small for IPPP encoding"@,
            )
            &&& h264 && small && slots && config.rate_control == RateControlMode::Cbr
                && !caps.supports_cbr ==> refusal == Some(
                "Vulkan Video: driver does not support "@ + "Cbr"@ + " rate control"@,
            )
            &&& h264 && small && slots && config.rate_control == RateControlMode::Vbr
                && !caps.supports_vbr ==> refusal == Some(
                "Vulkan Video: driver does not support "@ + "Vbr"@ + " rate control"@,
            )
            &&& h264 && small && slots && config.rate_control == RateControlMode::Cqp
                && !caps.supports_disabled ==> refusal == Some(
                "Vulkan Video: driver does not support "@ + "Cqp"@ + " rate control"@,
            )
        }),
{
}

/// What holds of every session between two frames.
pub proof fn law_consistent_sessions(session: SessionView)
    ensures
        consistent(session) <==> {
            let due = session.idr_requested || session.prev_frame is None
                || session.frame_counter % session.idr_interval == 0;
            &&& session.idr_interval > 0
            &&& session.frame_num < 65536
            &&& session.setup_slot == 0 || session.setup_slot == 1
            &&& session.prev_frame is None <==> session.first_op
            &&& session.first_op ==> session.frame_counter == 0
            &&& session.prev_frame matches Some(previous) ==> {
                &&& session.frame_num == (previous.frame_num + 1) % 65536 || (session.frame_num == 0
                    && due)
                &&& previous.frame_num < 65536
                &&& previous.pic_order_cnt == 2 * previous.frame_num
            }
        },
{
}

} // verus!
