//! The VA-API encoder: what its driver offers, and how frames reach it.

use vstd::prelude::*;

use crate::encode::config::{
    has_codec, CapabilitiesView, EncodeConfig, EncoderCapabilities,
};
use crate::encode::nal::{bitstream_has_idr, holds_idr};
use crate::encode::nv12::{conversion_fits, conversion_refusal, convert_frame, nv12_image};
use crate::encode::planes::{law_rows_keep_their_place, with_rows, write_rows};
use crate::error::{ErrorView, FluxError};
use crate::frame::{CapturedFrame, EncodedPacket, PacketView};
use crate::text::decimal;
use crate::types::{codec_text, push_resolution, resolution_text, Resolution, VideoCodec};

verus! {

/// Input surfaces that an encoder keeps.
pub const SURFACE_POOL_SIZE: usize = 16;

/// The encode entrypoints of a profile; a profile that the driver does not know
/// has neither.
#[derive(Debug, Clone, Copy, PartialEq, Eq, Structural)]
pub struct Entrypoints {
    pub enc_slice: bool,
    pub enc_slice_lp: bool,
}

/// The H.264 profiles of a driver, best first.
#[derive(Debug, Clone, Copy, PartialEq, Eq, Structural)]
pub struct H264Profiles {
    pub high: Entrypoints,
    pub main: Entrypoints,
    pub constrained_baseline: Entrypoints,
}

/// Whether a profile encodes.
pub open spec fn encodes(entrypoints: Entrypoints) -> bool {
    entrypoints.enc_slice || entrypoints.enc_slice_lp
}

/// Whether a profile encodes.
pub fn profile_has_enc(entrypoints: Entrypoints) -> (found: bool)
    ensures
        found == encodes(entrypoints),
{
    entrypoints.enc_slice || entrypoints.enc_slice_lp
}

/// Whether any profile encodes.
pub open spec fn any_encodes(profiles: H264Profiles) -> bool {
    encodes(profiles.high) || encodes(profiles.main) || encodes(profiles.constrained_baseline)
}

/// What a driver offers, as far as this encoder drives it.
pub open spec fn driver_capabilities(profiles: H264Profiles) -> CapabilitiesView {
    CapabilitiesView {
        name: "VA-API"@,
        supported_codecs: if any_encodes(profiles) {
            seq![VideoCodec::H264]
        } else {
            Seq::empty()
        },
        supports_hdr: false,
        supports_yuv444: false,
        max_resolution: Resolution { width: 7680, height: 4320 },
        max_framerate: 240,
    }
}

/// What a driver offers, as far as this encoder drives it.
pub fn probe_capabilities(profiles: &H264Profiles) -> (report: EncoderCapabilities)
    ensures
        report@ == driver_capabilities(*profiles),
{
    let mut codecs: Vec<VideoCodec> = Vec::new();
    if profile_has_enc(profiles.high) || profile_has_enc(profiles.main) || profile_has_enc(
        profiles.constrained_baseline,
    ) {
        codecs.push(VideoCodec::H264);
        assert(codecs@ =~= seq![VideoCodec::H264]);
    }
    EncoderCapabilities {
        name: "VA-API",
        supported_codecs: codecs,
        supports_hdr: false,
        supports_yuv444: false,
        max_resolution: Resolution::new(7680, 4320),
        max_framerate: 240,
    }
}

/// The low-power choice of one profile: full-feature encoding first.
pub open spec fn low_power_of(entrypoints: Entrypoints) -> Option<bool> {
    if entrypoints.enc_slice {
        Some(false)
    } else if entrypoints.enc_slice_lp {
        Some(true)
    } else {
        None
    }
}

/// Whether to encode in the low-power mode: what the best profile that encodes
/// has. A driver without any is refused.
pub fn pick_h264_low_power(profiles: &H264Profiles) -> (result: Result<bool, FluxError>)
    ensures
        match low_power_of(profiles.high) {
            Some(choice) => result matches Ok(low_power) && low_power == choice,
            None => match low_power_of(profiles.main) {
                Some(choice) => result matches Ok(low_power) && low_power == choice,
                None => match low_power_of(profiles.constrained_baseline) {
                    Some(choice) => result matches Ok(low_power) && low_power == choice,
                    None => result matches Err(e) && e@ == ErrorView::EncoderInit(
                        "VA-API driver exposes no H.264 encode entrypoint"@,
                    ),
                },
            },
        },
{
    if profiles.high.enc_slice {
        return Ok(false);
    }
    if profiles.high.enc_slice_lp {
        return Ok(true);
    }
    if profiles.main.enc_slice {
        return Ok(false);
    }
    if profiles.main.enc_slice_lp {
        return Ok(true);
    }
    if profiles.constrained_baseline.enc_slice {
        return Ok(false);
    }
    if profiles.constrained_baseline.enc_slice_lp {
        return Ok(true);
    }
    Err(FluxError::EncoderInit("VA-API driver exposes no H.264 encode entrypoint".to_string()))
}

/// The VA-API encoder on a driver.
pub struct VaapiEncoder {
    capabilities: EncoderCapabilities,
    driver: String,
}

/// Why a driver cannot encode with some parameters, if it cannot.
pub open spec fn config_refusal(offer: CapabilitiesView, config: EncodeConfig) -> Option<Seq<char>> {
    if config.codec != VideoCodec::H264 {
        Some(
            "VA-API backend currently encodes H.264 only (requested "@ + codec_text(config.codec)
                + "); H.265/AV1 land in a later phase"@,
        )
    } else if !offer.supported_codecs.contains(VideoCodec::H264) {
        Some("VA-API driver does not expose an H.264 encode entrypoint"@)
    } else if config.resolution.width > offer.max_resolution.width || config.resolution.height
        > offer.max_resolution.height {
        Some(
            "resolution "@ + resolution_text(config.resolution) + " exceeds VA-API maximum "@
                + resolution_text(offer.max_resolution),
        )
    } else {
        None
    }
}

impl VaapiEncoder {
    /// What the encoder offers.
    pub closed spec fn offer(self) -> CapabilitiesView {
        self.capabilities@
    }

    /// What the driver calls itself.
    pub closed spec fn driver_name(self) -> Seq<char> {
        self.driver@
    }

    /// The encoder on a driver.
    pub fn new(profiles: &H264Profiles, driver: String) -> (encoder: Self)
        ensures
            encoder.offer() == driver_capabilities(*profiles),
            encoder.driver_name() == driver@,
    {
        Self { capabilities: probe_capabilities(profiles), driver }
    }

    /// What the driver calls itself.
    pub fn driver(&self) -> (name: &str)
        ensures
            name@ == self.driver_name(),
    {
        self.driver.as_str()
    }

    /// What the encoder offers.
    pub fn capabilities(&self) -> (result: Result<EncoderCapabilities, FluxError>)
        ensures
            result matches Ok(report) && report@ == self.offer(),
    {
        Ok(self.capabilities.duplicate())
    }

    /// Refuses what the driver cannot encode.
    pub fn validate_config(&self, config: &EncodeConfig) -> (result: Result<(), FluxError>)
        ensures
            match config_refusal(self.offer(), *config) {
                Some(reason) => result matches Err(e) && e@ == ErrorView::EncoderInit(reason),
                None => result is Ok,
            },
    {
        if config.codec != VideoCodec::H264 {
            let mut text = "VA-API backend currently encodes H.264 only (requested ".to_string();
            text.append(config.codec.name());
            text.append("); H.265/AV1 land in a later phase");
            return Err(FluxError::EncoderInit(text));
        }
        if !has_codec(&self.capabilities.supported_codecs, VideoCodec::H264) {
            return Err(
                FluxError::EncoderInit(
                    "VA-API driver does not expose an H.264 encode entrypoint".to_string(),
                ),
            );
        }
        let max: Resolution = self.capabilities.max_resolution;
        if config.resolution.width > max.width || config.resolution.height > max.height {
            let mut text = "resolution ".to_string();
            push_resolution(&mut text, config.resolution);
            text.append(" exceeds VA-API maximum ");
            push_resolution(&mut text, max);
            return Err(FluxError::EncoderInit(text));
        }
        Ok(())
    }
}

/// Bits per second of a bitrate in kilobits.
pub fn bits_per_sec(kbps: u32) -> (bits: u64)
    ensures
        bits == kbps * 1000,
{
    kbps as u64 * 1000
}

/// The keyframe interval for the driver: keyframes on request only become a
/// large interval.
pub open spec fn interval_limit(gop_size: u32) -> u16 {
    if gop_size == 0 {
        2048
    } else if gop_size > u16::MAX {
        u16::MAX
    } else {
        gop_size as u16
    }
}

/// The keyframe interval for the driver.
pub fn gop_limit(gop_size: u32) -> (limit: u16)
    ensures
        limit == interval_limit(gop_size),
{
    if gop_size == 0 {
        2048
    } else if gop_size > u16::MAX as u32 {
        u16::MAX
    } else {
        gop_size as u16
    }
}

/// Parameters of a running encoder: a constant bitrate, and the full range of
/// qualities.
#[derive(Debug, Clone, Copy, PartialEq, Eq, Structural)]
pub struct Tunings {
    pub constant_bitrate: u64,
    pub framerate: u32,
    pub min_quality: u32,
    pub max_quality: u32,
}

/// The parameters that a session starts with.
pub open spec fn initial_tunings(config: EncodeConfig) -> Tunings {
    Tunings {
        constant_bitrate: (config.bitrate_kbps * 1000) as u64,
        framerate: if config.framerate < 1 {
            1
        } else {
            config.framerate
        },
        min_quality: 0,
        max_quality: u32::MAX,
    }
}

/// The parameters that a session starts with.
pub fn low_latency_tunings(config: &EncodeConfig) -> (tunings: Tunings)
    ensures
        tunings == initial_tunings(*config),
{
    Tunings {
        constant_bitrate: bits_per_sec(config.bitrate_kbps),
        framerate: if config.framerate < 1 {
            1
        } else {
            config.framerate
        },
        min_quality: 0,
        max_quality: u32::MAX,
    }
}

/// Where the two planes of an NV12 surface lie in its memory.
#[derive(Debug, Clone, Copy, PartialEq, Eq, Structural)]
pub struct SurfaceLayout {
    pub luma_offset: u32,
    pub luma_pitch: u32,
    pub chroma_offset: u32,
    pub chroma_pitch: u32,
}

/// The layout of a plane as the encoder is told.
#[derive(Debug, Clone, Copy, PartialEq, Eq, Structural)]
pub struct PlaneLayout {
    pub offset: usize,
    pub stride: usize,
}

/// The memory of a surface after an NV12 image was written into it: the luma
/// rows, then the chroma rows.
pub open spec fn uploaded(dest: Seq<u8>, layout: SurfaceLayout, nv12: Seq<u8>, w: int, h: int) -> Seq<u8> {
    with_rows(
        with_rows(dest, layout.luma_offset as int, layout.luma_pitch as int, nv12, 0, w, w, h as nat),
        layout.chroma_offset as int,
        layout.chroma_pitch as int,
        nv12,
        w * h,
        w,
        w,
        (h / 2) as nat,
    )
}

/// Whether the rows of a plane lie inside a buffer.
pub open spec fn plane_fits(len: int, offset: int, pitch: int, w: int, rows: int) -> bool {
    offset + pitch * rows <= len && (rows > 0 ==> offset + pitch * (rows - 1) + w <= len)
}

/// Writes an NV12 image into the memory of a surface, and gives the layout of
/// its planes.
pub fn upload_nv12(dest: &mut [u8], layout: &SurfaceLayout, width: u32, height: u32, nv12: &[u8]) -> (planes: [PlaneLayout; 2])
    requires
        width * height + width * (height / 2) <= nv12@.len(),
        plane_fits(
            old(dest)@.len() as int,
            layout.luma_offset as int,
            layout.luma_pitch as int,
            width as int,
            height as int,
        ),
        plane_fits(
            old(dest)@.len() as int,
            layout.chroma_offset as int,
            layout.chroma_pitch as int,
            width as int,
            (height / 2) as int,
        ),
        layout.luma_offset <= usize::MAX,
        layout.chroma_offset <= usize::MAX,
        layout.luma_pitch <= usize::MAX,
        layout.chroma_pitch <= usize::MAX,
        width <= usize::MAX,
        height <= usize::MAX,
    ensures
        final(dest)@ == uploaded(old(dest)@, *layout, nv12@, width as int, height as int),
        planes@ == seq![
            PlaneLayout { offset: layout.luma_offset as usize, stride: layout.luma_pitch as usize },
            PlaneLayout {
                offset: layout.chroma_offset as usize,
                stride: layout.chroma_pitch as usize,
            },
        ],
{
    let w: usize = width as usize;
    let h: usize = height as usize;
    let nv12_len: usize = nv12.len();
    assert(0 <= w * h && 0 <= w * (h / 2)) by (nonlinear_arith)
        requires
            0 <= w,
            0 <= h,
    ;
    assert(h * w == w * h) by (nonlinear_arith);
    let dest_len: usize = dest.len();
    write_rows(dest, layout.luma_offset as usize, layout.luma_pitch as usize, nv12, 0, w, w, h);
    proof {
        lemma_with_rows_len(
            old(dest)@,
            layout.luma_offset as int,
            layout.luma_pitch as int,
            nv12@,
            0,
            w as int,
            w as int,
            h as nat,
        );
    }
    write_rows(
        dest,
        layout.chroma_offset as usize,
        layout.chroma_pitch as usize,
        nv12,
        w * h,
        w,
        w,
        h / 2,
    );
    let planes: [PlaneLayout; 2] = [
        PlaneLayout { offset: layout.luma_offset as usize, stride: layout.luma_pitch as usize },
        PlaneLayout { offset: layout.chroma_offset as usize, stride: layout.chroma_pitch as usize },
    ];
    assert(planes@ =~= seq![planes@[0], planes@[1]]);
    planes
}

proof fn lemma_with_rows_len(
    dest: Seq<u8>,
    offset: int,
    pitch: int,
    src: Seq<u8>,
    src_offset: int,
    src_stride: int,
    w: int,
    count: nat,
)
    ensures
        with_rows(dest, offset, pitch, src, src_offset, src_stride, w, count).len() == dest.len(),
    decreases count,
{
    if count > 0 {
        lemma_with_rows_len(
            dest,
            offset,
            pitch,
            src,
            src_offset,
            src_stride,
            w,
            (count - 1) as nat,
        );
    }
}

/// The NV12 image of a captured frame for the encoder.
pub fn frame_to_nv12(frame: &CapturedFrame, width: u32, height: u32) -> (result: Result<
    Vec<u8>,
    FluxError,
>)
    requires
        frame.data@.len() > 0 && frame.resolution == (Resolution { width, height })
            ==> conversion_fits(frame@),
    ensures
        match conversion_refusal(
            frame@,
            width,
            height,
            "VA-API SHM path needs CPU pixel data; DMA-BUF import not yet wired"@,
        ) {
            Some(reason) => result matches Err(e) && e@ == (ErrorView::Encode {
                frame: frame.sequence,
                reason,
            }),
            None => result matches Ok(nv12) && nv12@ == nv12_image(frame@),
        },
{
    convert_frame(
        frame,
        width,
        height,
        "VA-API SHM path needs CPU pixel data; DMA-BUF import not yet wired",
    )
}

/// A session with the VA-API encoder.
pub struct VaapiSession {
    width: u32,
    height: u32,
    timestamp: u64,
    tunings: Tunings,
    force_idr: bool,
}

impl VaapiSession {
    /// The size of the frames.
    pub closed spec fn size(self) -> Resolution {
        Resolution { width: self.width, height: self.height }
    }

    /// The number of frames handed to the encoder.
    pub closed spec fn frames(self) -> u64 {
        self.timestamp
    }

    /// The parameters of the encoder.
    pub closed spec fn parameters(self) -> Tunings {
        self.tunings
    }

    /// Whether the next frame is a keyframe.
    pub closed spec fn keyframe_due(self) -> bool {
        self.force_idr
    }

    /// A session whose first frame is a keyframe. Frames without pixels are
    /// refused.
    pub fn new(config: &EncodeConfig) -> (result: Result<Self, FluxError>)
        ensures
            if config.resolution.width == 0 || config.resolution.height == 0 {
                result matches Err(e) && e@ == ErrorView::EncoderInit(
                    "encode resolution must be non-zero"@,
                )
            } else {
                result matches Ok(session) && session.size() == config.resolution && session.frames()
                    == 0 && session.parameters() == initial_tunings(*config) && session.keyframe_due()
            },
    {
        if config.resolution.width == 0 || config.resolution.height == 0 {
            return Err(FluxError::EncoderInit("encode resolution must be non-zero".to_string()));
        }
        Ok(
            Self {
                width: config.resolution.width,
                height: config.resolution.height,
                timestamp: 0,
                tunings: low_latency_tunings(config),
                force_idr: true,
            },
        )
    }

    /// The error of a frame for which no surface is free.
    pub fn no_surface(&self) -> (error: FluxError)
        ensures
            error@ == (ErrorView::Encode {
                frame: self.frames(),
                reason: "no free VA surface in pool (encoder backpressure)"@,
            }),
    {
        FluxError::Encode {
            frame: self.timestamp,
            reason: "no free VA surface in pool (encoder backpressure)".to_string(),
        }
    }

    /// Hands a frame to the encoder: its timestamp, and whether it is to be a
    /// keyframe. A keyframe request is used up.
    pub fn next_frame(&mut self) -> (metadata: (u64, bool))
        requires
            old(self).frames() < u64::MAX,
        ensures
            metadata.0 == old(self).frames(),
            metadata.1 == old(self).keyframe_due(),
            final(self).frames() == old(self).frames() + 1,
            !final(self).keyframe_due(),
            final(self).size() == old(self).size(),
            final(self).parameters() == old(self).parameters(),
    {
        let metadata: (u64, bool) = (self.timestamp, self.force_idr);
        self.force_idr = false;
        self.timestamp = self.timestamp + 1;
        metadata
    }

    /// Notes that a frame was not encoded after all. The keyframe that it was to be
    /// stays due for the next one.
    pub fn frame_failed(&mut self, force_keyframe: bool)
        ensures
            final(self).keyframe_due() == (old(self).keyframe_due() || force_keyframe),
            final(self).frames() == old(self).frames(),
            final(self).size() == old(self).size(),
            final(self).parameters() == old(self).parameters(),
    {
        self.force_idr = self.force_idr || force_keyframe;
    }

    /// The packet of a coded picture.
    pub fn packet(&self, timestamp: u64, bitstream: Vec<u8>) -> (packet: EncodedPacket)
        ensures
            packet@ == (PacketView {
                frame_index: timestamp,
                pts: timestamp,
                is_keyframe: holds_idr(bitstream@, VideoCodec::H264),
                data: bitstream@,
            }),
    {
        let is_keyframe: bool = bitstream_has_idr(bitstream.as_slice());
        EncodedPacket { frame_index: timestamp, pts: timestamp, is_keyframe, data: bitstream }
    }

    /// Makes the next frame a keyframe.
    pub fn request_idr(&mut self)
        ensures
            final(self).keyframe_due(),
            final(self).frames() == old(self).frames(),
            final(self).size() == old(self).size(),
            final(self).parameters() == old(self).parameters(),
    {
        self.force_idr = true;
    }

    /// Changes the bitrate, and gives the parameters to hand to the encoder.
    pub fn set_bitrate(&mut self, bitrate_kbps: u32) -> (tunings: Tunings)
        ensures
            tunings == (Tunings {
                constant_bitrate: (bitrate_kbps * 1000) as u64,
                ..old(self).parameters()
            }),
            final(self).parameters() == tunings,
            final(self).frames() == old(self).frames(),
            final(self).size() == old(self).size(),
            final(self).keyframe_due() == old(self).keyframe_due(),
    {
        self.tunings.constant_bitrate = bits_per_sec(bitrate_kbps);
        self.tunings
    }
}

/// What a driver offers and refuses: H.264 up to 7680 by 4320, if any of its
/// profiles has an entrypoint.
pub proof fn law_drivers_offer_h264(profiles: H264Profiles, config: EncodeConfig)
    ensures
        ({
            let offer = driver_capabilities(profiles);
            let some = profiles.high.enc_slice || profiles.high.enc_slice_lp
                || profiles.main.enc_slice || profiles.main.enc_slice_lp
                || profiles.constrained_baseline.enc_slice
                || profiles.constrained_baseline.enc_slice_lp;
            &&& offer.name == "VA-API"@
            &&& offer.supported_codecs.len() == if some {
                1int
            } else {
                0
            }
            &&& forall|codec: VideoCodec| #[trigger]
                offer.supported_codecs.contains(codec) <==> some && codec == VideoCodec::H264
            &&& !offer.supports_hdr && !offer.supports_yuv444
            &&& offer.max_resolution.width == 7680 && offer.max_resolution.height == 4320
            &&& offer.max_framerate == 240
            &&& config_refusal(offer, config) is None <==> some && config.codec == VideoCodec::H264
                && config.resolution.width <= 7680 && config.resolution.height <= 4320
            &&& config.codec == VideoCodec::H265 ==> config_refusal(offer, config) == Some(
                "VA-API backend currently encodes H.264 only (requested "@ + "H265"@
                    + "); H.265/AV1 land in a later phase"@,
            )
            &&& config.codec == VideoCodec::Av1 ==> config_refusal(offer, config) == Some(
                "VA-API backend currently encodes H.264 only (requested "@ + "Av1"@
                    + "); H.265/AV1 land in a later phase"@,
            )
            &&& config.codec == VideoCodec::H264 && !some ==> config_refusal(offer, config) == Some(
                "VA-API driver does not expose an H.264 encode entrypoint"@,
            )
            &&& config.codec == VideoCodec::H264 && some && !(config.resolution.width <= 7680
                && config.resolution.height <= 4320) ==> config_refusal(offer, config) == Some(
                "resolution "@ + (decimal(config.resolution.width as nat) + "x"@ + decimal(
                    config.resolution.height as nat,
                )) + " exceeds VA-API maximum "@ + (decimal(7680) + "x"@ + decimal(4320)),
            )
        }),
{
    let one = seq![VideoCodec::H264];
    assert(one[0] == VideoCodec::H264);
    assert(one.contains(VideoCodec::H264));
}

/// Low power is chosen where a profile has no entrypoint but that one.
pub proof fn law_low_power_is_the_second_choice(entrypoints: Entrypoints)
    ensures
        encodes(entrypoints) <==> entrypoints.enc_slice || entrypoints.enc_slice_lp,
        low_power_of(entrypoints) == Some(false) <==> entrypoints.enc_slice,
        low_power_of(entrypoints) == Some(true) <==> !entrypoints.enc_slice
            && entrypoints.enc_slice_lp,
        low_power_of(entrypoints) is None <==> !entrypoints.enc_slice && !entrypoints.enc_slice_lp,
{
}

/// The interval of keyframes: 2048 without one, at most 65535, and the wished one
/// otherwise.
pub proof fn law_keyframe_intervals(gop_size: u32)
    ensures
        gop_size == 0 ==> interval_limit(gop_size) == 2048,
        1 <= gop_size <= 65535 ==> interval_limit(gop_size) == gop_size,
        gop_size >= 65535 ==> interval_limit(gop_size) == 65535,
{
}

/// What a session starts with: the bits of a second, a frame rate of one or more,
/// every quality.
pub proof fn law_tunings_follow_the_parameters(config: EncodeConfig)
    ensures
        ({
            let tunings = initial_tunings(config);
            &&& tunings.constant_bitrate == config.bitrate_kbps * 1000
            &&& config.framerate >= 1 ==> tunings.framerate == config.framerate
            &&& config.framerate == 0 ==> tunings.framerate == 1
            &&& tunings.min_quality == 0 && tunings.max_quality == 0xffff_ffff
            &&& SURFACE_POOL_SIZE == 16
        }),
{
}

/// An uploaded image has each of its bytes at its row and column: a luma row every
/// luma pitch, then a chroma row for each two of them, every chroma pitch.
pub proof fn law_uploaded_images_keep_their_places(
    dest: Seq<u8>,
    layout: SurfaceLayout,
    nv12: Seq<u8>,
    w: int,
    h: int,
)
    requires
        0 <= w <= layout.luma_pitch,
        0 <= h,
        w <= layout.chroma_pitch,
        w * h + w * (h / 2) <= nv12.len(),
        layout.luma_offset + layout.luma_pitch * h <= layout.chroma_offset,
        layout.chroma_offset + layout.chroma_pitch * (h / 2) <= dest.len(),
    ensures
        uploaded(dest, layout, nv12, w, h).len() == dest.len(),
        forall|y: int, x: int|
            #![trigger nv12[y * w + x]]
            0 <= y < h && 0 <= x < w ==> uploaded(dest, layout, nv12, w, h)[layout.luma_offset + y
                * layout.luma_pitch + x] == nv12[y * w + x],
        forall|y: int, x: int|
            #![trigger nv12[w * h + y * w + x]]
            0 <= y < h / 2 && 0 <= x < w ==> uploaded(
                dest,
                layout,
                nv12,
                w,
                h,
            )[layout.chroma_offset + y * layout.chroma_pitch + x] == nv12[w * h + y * w + x],
{
    let luma_pitch = layout.luma_pitch as int;
    let chroma_pitch = layout.chroma_pitch as int;
    let luma_at = layout.luma_offset as int;
    let chroma_at = layout.chroma_offset as int;
    assert(h > 0 ==> luma_pitch * (h - 1) + w <= luma_pitch * h) by (nonlinear_arith)
        requires
            w <= luma_pitch,
    ;
    assert(h / 2 > 0 ==> chroma_pitch * (h / 2 - 1) + w <= chroma_pitch * (h / 2))
        by (nonlinear_arith)
        requires
            w <= chroma_pitch,
    ;
    assert(0 <= w * h && 0 <= w * (h / 2) && 0 <= chroma_pitch * (h / 2)) by (nonlinear_arith)
        requires
            0 <= w,
            0 <= h,
            0 <= chroma_pitch,
    ;
    let luma = with_rows(dest, luma_at, luma_pitch, nv12, 0, w, w, h as nat);
    law_rows_keep_their_place(dest, luma_at, luma_pitch, nv12, 0, w, w, h as nat);
    law_rows_keep_their_place(luma, chroma_at, chroma_pitch, nv12, w * h, w, w, (h / 2) as nat);
    let image = uploaded(dest, layout, nv12, w, h);
    assert forall|y: int, x: int|
        #![trigger nv12[y * w + x]]
        0 <= y < h && 0 <= x < w implies image[luma_at + y * luma_pitch + x] == nv12[y * w + x] by {
        let k = luma_at + y * luma_pitch + x;
        assert(0 <= y * luma_pitch && y * luma_pitch + luma_pitch <= luma_pitch * h)
            by (nonlinear_arith)
            requires
                0 <= y < h,
                0 <= luma_pitch,
        ;
        assert(nv12[0 + y * w + x] == nv12[y * w + x]);
        assert(luma[k] == nv12[y * w + x]);
        assert forall|row: int| 0 <= row < h / 2 implies !(chroma_at + #[trigger] (row
            * chroma_pitch) <= k < chroma_at + row * chroma_pitch + w) by {
            assert(0 <= row * chroma_pitch) by (nonlinear_arith)
                requires
                    0 <= row,
                    0 <= chroma_pitch,
            ;
        }
        assert(image[k] == luma[k]);
    }
}

/// An upload writes the luma rows, then the chroma rows, and nothing else.
pub proof fn law_uploads_write_rows_alone(
    dest: Seq<u8>,
    layout: SurfaceLayout,
    nv12: Seq<u8>,
    w: int,
    h: int,
)
    ensures
        uploaded(dest, layout, nv12, w, h) == with_rows(
            with_rows(
                dest,
                layout.luma_offset as int,
                layout.luma_pitch as int,
                nv12,
                0,
                w,
                w,
                h as nat,
            ),
            layout.chroma_offset as int,
            layout.chroma_pitch as int,
            nv12,
            w * h,
            w,
            w,
            (h / 2) as nat,
        ),
        forall|len: int, offset: int, pitch: int, rows: int| #[trigger]
            plane_fits(len, offset, pitch, w, rows) <==> offset + pitch * rows <= len && (rows > 0
                ==> offset + pitch * (rows - 1) + w <= len),
{
}

} // verus!
