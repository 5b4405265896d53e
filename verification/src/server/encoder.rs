//! The choice of an encoder for the stream.

use vstd::prelude::*;

use crate::encode::config::EncodeConfig;
use crate::encode::scale::{fit_within, fitted};
use crate::types::{
    ChromaSampling, DynamicRange, EncoderBackend, RateControlMode, Resolution, VideoCodec,
};

verus! {

/// What the host was built for.
#[derive(Debug, Clone, Copy, PartialEq, Eq, Structural)]
pub struct BuildTarget {
    pub windows: bool,
    pub linux: bool,
    pub encoder_ffmpeg: bool,
    pub encoder_vaapi: bool,
    pub encoder_vulkan: bool,
}

/// A list of one backend, where a condition holds.
pub open spec fn backend_if(condition: bool, backend: EncoderBackend) -> Seq<EncoderBackend> {
    if condition {
        seq![backend]
    } else {
        Seq::empty()
    }
}

/// The backends to try, in order. A forced one is followed by software; else the
/// encoder of the vendor comes first, then Vulkan, then software.
pub open spec fn candidates(forced: Option<EncoderBackend>, build: BuildTarget) -> Seq<
    EncoderBackend,
> {
    match forced {
        Some(EncoderBackend::Software) => seq![EncoderBackend::Software],
        Some(backend) => seq![backend, EncoderBackend::Software],
        None => backend_if(build.windows, EncoderBackend::Amf) + backend_if(
            build.linux && build.encoder_ffmpeg,
            EncoderBackend::FfmpegVaapi,
        ) + backend_if(
            build.linux && build.encoder_vaapi && !build.encoder_ffmpeg,
            EncoderBackend::Vaapi,
        ) + backend_if(build.encoder_vulkan, EncoderBackend::VulkanVideo) + seq![
            EncoderBackend::Software,
        ],
    }
}

/// The backends to try, in order.
pub fn encoder_backend_candidates(forced: Option<EncoderBackend>, build: BuildTarget) -> (list: Vec<
    EncoderBackend,
>)
    ensures
        list@ == candidates(forced, build),
{
    let mut list: Vec<EncoderBackend> = Vec::new();
    if let Some(backend) = forced {
        if backend != EncoderBackend::Software {
            list.push(backend);
        }
        list.push(EncoderBackend::Software);
        assert(list@ =~= candidates(forced, build));
        return list;
    }
    if build.windows {
        list.push(EncoderBackend::Amf);
    }
    if build.linux && build.encoder_ffmpeg {
        list.push(EncoderBackend::FfmpegVaapi);
    }
    if build.linux && build.encoder_vaapi && !build.encoder_ffmpeg {
        list.push(EncoderBackend::Vaapi);
    }
    if build.encoder_vulkan {
        list.push(EncoderBackend::VulkanVideo);
    }
    list.push(EncoderBackend::Software);
    assert(list@ =~= candidates(forced, build));
    list
}

/// Software encoding is always the last resort.
pub proof fn law_software_is_the_last_resort(forced: Option<EncoderBackend>, build: BuildTarget)
    ensures
        candidates(forced, build).len() > 0,
        candidates(forced, build).last() == EncoderBackend::Software,
{
}

/// The parameters of the stream before an encoder is known: H.264 at a variable
/// bitrate, with a keyframe every two seconds.
pub open spec fn stream_config(target_fps: u32, resolution: Resolution) -> EncodeConfig {
    EncodeConfig {
        codec: VideoCodec::H264,
        resolution,
        framerate: target_fps,
        bitrate_kbps: 10_000,
        rate_control: RateControlMode::Vbr,
        dynamic_range: DynamicRange::Sdr,
        chroma_sampling: ChromaSampling::Yuv420,
        gop_size: if target_fps == 0 {
            1
        } else if target_fps * 2 > u32::MAX {
            u32::MAX
        } else {
            (target_fps * 2) as u32
        },
        b_frames: 0,
        max_ref_frames: 1,
    }
}

/// The parameters of the stream before an encoder is known.
pub fn base_config(target_fps: u32, resolution: Resolution) -> (config: EncodeConfig)
    ensures
        config == stream_config(target_fps, resolution),
{
    let doubled: u32 = if target_fps > u32::MAX / 2 {
        u32::MAX
    } else {
        target_fps * 2
    };
    EncodeConfig {
        codec: VideoCodec::H264,
        resolution,
        framerate: target_fps,
        bitrate_kbps: 10_000,
        rate_control: RateControlMode::Vbr,
        dynamic_range: DynamicRange::Sdr,
        chroma_sampling: ChromaSampling::Yuv420,
        gop_size: if doubled < 1 {
            1
        } else {
            doubled
        },
        b_frames: 0,
        max_ref_frames: 1,
    }
}

/// The parameters for an encoder: the resolution is brought into what the encoder
/// can do, as far as it tells.
pub fn fit_config(config: &EncodeConfig, max_resolution: Option<Resolution>) -> (fit: EncodeConfig)
    ensures
        fit == (EncodeConfig {
            resolution: match max_resolution {
                Some(max) => fitted(config.resolution, max),
                None => config.resolution,
            },
            ..*config
        }),
{
    let mut fit: EncodeConfig = *config;
    if let Some(max) = max_resolution {
        fit.resolution = fit_within(config.resolution, max);
    }
    fit
}

/// The search for a backend that opens a session.
#[derive(Debug)]
pub struct BackendSearch {
    candidates: Vec<EncoderBackend>,
    failed: usize,
    opened: bool,
}

impl BackendSearch {
    /// The backends that are tried, in order.
    pub closed spec fn list(self) -> Seq<EncoderBackend> {
        self.candidates@
    }

    /// How many of them failed.
    pub closed spec fn failures(self) -> nat {
        self.failed as nat
    }

    /// Whether one opened a session.
    pub closed spec fn found(self) -> bool {
        self.opened
    }

    /// There are backends to try, and only as many as there are can fail.
    pub closed spec fn wf(self) -> bool {
        &&& 0 < self.candidates@.len()
        &&& self.failed <= self.candidates@.len()
        &&& self.opened ==> self.failed < self.candidates@.len()
    }

    /// The backend that opened a session, or else the last one that was tried;
    /// software where none was.
    pub open spec fn used(self) -> EncoderBackend {
        if self.found() {
            self.list()[self.failures() as int]
        } else if self.failures() == 0 {
            EncoderBackend::Software
        } else {
            self.list()[self.failures() - 1]
        }
    }

    /// A search over the backends of a build.
    pub fn new(forced: Option<EncoderBackend>, build: BuildTarget) -> (search: Self)
        ensures
            search.wf(),
            search.list() == candidates(forced, build),
            search.failures() == 0,
            !search.found(),
    {
        BackendSearch {
            candidates: encoder_backend_candidates(forced, build),
            failed: 0,
            opened: false,
        }
    }

    /// The backend to try next; none once one opened a session or all failed.
    pub fn next(&self) -> (backend: Option<EncoderBackend>)
        requires
            self.wf(),
        ensures
            backend == if !self.found() && self.failures() < self.list().len() {
                Some(self.list()[self.failures() as int])
            } else {
                None
            },
    {
        if !self.opened && self.failed < self.candidates.len() {
            Some(self.candidates[self.failed])
        } else {
            None
        }
    }

    /// The backend that was tried did or did not open a session.
    pub fn tried(&mut self, opened: bool)
        requires
            old(self).wf(),
            !old(self).found(),
            old(self).failures() < old(self).list().len(),
        ensures
            final(self).wf(),
            final(self).list() == old(self).list(),
            final(self).found() == opened,
            final(self).failures() == if opened {
                old(self).failures()
            } else {
                old(self).failures() + 1
            },
    {
        if opened {
            self.opened = true;
        } else {
            let count: usize = self.candidates.len();
            assert(self.failed < count);
            self.failed = self.failed + 1;
        }
    }

    /// The backend that the host reports.
    pub fn backend(&self) -> (backend: EncoderBackend)
        requires
            self.wf(),
        ensures
            backend == self.used(),
    {
        if self.opened {
            self.candidates[self.failed]
        } else if self.failed == 0 {
            EncoderBackend::Software
        } else {
            self.candidates[self.failed - 1]
        }
    }
}

/// A forced backend is the only one that is tried before software.
pub proof fn law_forced_backends_come_first(backend: EncoderBackend, build: BuildTarget)
    ensures
        candidates(Some(backend), build)[0] == backend,
        candidates(Some(backend), build).len() == if backend == EncoderBackend::Software {
            1int
        } else {
            2
        },
{
}

/// Without a forced backend, the vendor's comes first, Vulkan follows, and each is
/// tried just where the build has it.
pub proof fn law_built_backends_are_tried(build: BuildTarget)
    ensures
        ({
            let list = candidates(None, build);
            let amf: int = if build.windows {
                1
            } else {
                0
            };
            let vaapi: int = if build.linux && (build.encoder_ffmpeg || build.encoder_vaapi) {
                1
            } else {
                0
            };
            let vulkan: int = if build.encoder_vulkan {
                1
            } else {
                0
            };
            &&& list.len() == amf + vaapi + vulkan + 1
            &&& build.windows ==> list[0] == EncoderBackend::Amf
            &&& build.linux && build.encoder_ffmpeg ==> list[amf] == EncoderBackend::FfmpegVaapi
            &&& build.linux && build.encoder_vaapi && !build.encoder_ffmpeg ==> list[amf]
                == EncoderBackend::Vaapi
            &&& build.encoder_vulkan ==> list[amf + vaapi] == EncoderBackend::VulkanVideo
            &&& list[amf + vaapi + vulkan] == EncoderBackend::Software
        }),
{
}

/// The stream starts as H.264 in its resolution and at its framerate, with 10000
/// kilobits a second and two seconds from keyframe to keyframe.
pub proof fn law_stream_parameters(target_fps: u32, resolution: Resolution)
    ensures
        ({
            let config = stream_config(target_fps, resolution);
            &&& config.codec == VideoCodec::H264
            &&& config.resolution == resolution
            &&& config.framerate == target_fps
            &&& config.bitrate_kbps == 10_000
            &&& config.rate_control == RateControlMode::Vbr
            &&& config.dynamic_range == DynamicRange::Sdr
            &&& config.chroma_sampling == ChromaSampling::Yuv420
            &&& config.b_frames == 0 && config.max_ref_frames == 1
            &&& target_fps == 0 ==> config.gop_size == 1
            &&& 0 < target_fps < 0x8000_0000 ==> config.gop_size == 2 * target_fps
            &&& target_fps >= 0x8000_0000 ==> config.gop_size == 0xffff_ffff
        }),
{
}

/// The backend that is reported opened the session; where none did, it is the last
/// that failed, or software before the first try.
pub proof fn law_the_used_backend_is_reported(search: BackendSearch)
    ensures
        search.found() ==> search.used() == search.list()[search.failures() as int],
        !search.found() && search.failures() > 0 ==> search.used()
            == search.list()[search.failures() - 1],
        !search.found() && search.failures() == 0 ==> search.used() == EncoderBackend::Software,
{
}

} // verus!
