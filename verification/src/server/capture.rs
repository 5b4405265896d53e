//! The loop from captured frames to encoded packets.
//!
//! The loop itself runs outside: it captures, encodes, waits and sends. What it
//! does next is decided here.

use vstd::prelude::*;

use crate::encode::scale::{downscale_frame, downscale_refusal, downscaled};
use crate::error::FluxError;
use crate::frame::CapturedFrame;
use crate::types::Resolution;

verus! {

/// Lowest quality level.
pub const MIN_QUALITY_LEVEL: u8 = 1;

/// Highest quality level.
pub const MAX_QUALITY_LEVEL: u8 = 10;

/// Highest framerate that is captured.
pub const MAX_CAPTURE_FPS: u32 = 144;

/// Seconds of frames after which figures are logged, and which the verification
/// file holds.
pub const REPORT_SECONDS: u64 = 5;

/// The framerate to capture at.
pub fn capture_fps(max_fps: u32) -> (fps: u32)
    ensures
        fps == if max_fps < 144 {
            max_fps
        } else {
            144
        },
{
    if max_fps < MAX_CAPTURE_FPS {
        max_fps
    } else {
        MAX_CAPTURE_FPS
    }
}

/// A quality level brought into range.
pub open spec fn clamped_level(level: u8) -> u8 {
    if level < MIN_QUALITY_LEVEL {
        MIN_QUALITY_LEVEL
    } else if level > MAX_QUALITY_LEVEL {
        MAX_QUALITY_LEVEL
    } else {
        level
    }
}

fn clamp_level(level: u8) -> (clamped: u8)
    ensures
        clamped == clamped_level(level),
{
    if level < MIN_QUALITY_LEVEL {
        MIN_QUALITY_LEVEL
    } else if level > MAX_QUALITY_LEVEL {
        MAX_QUALITY_LEVEL
    } else {
        level
    }
}

/// What a failed capture calls for.
#[derive(Debug, Clone, Copy, PartialEq, Eq, Structural)]
pub enum CaptureFailure {
    /// Waiting a second and capturing again.
    Retry,
    /// Opening the captured output again, as soon as it is there.
    Reopen,
}

/// What a failed capture calls for.
pub fn capture_failure(error: &FluxError) -> (failure: CaptureFailure)
    ensures
        failure == if error is CaptureSessionLost {
            CaptureFailure::Reopen
        } else {
            CaptureFailure::Retry
        },
{
    match error {
        FluxError::CaptureSessionLost(_) => CaptureFailure::Reopen,
        _ => CaptureFailure::Retry,
    }
}

/// What becomes of a captured frame.
#[derive(Debug, Clone, Copy, PartialEq, Eq, Structural)]
pub enum FrameStep {
    /// It comes too early and is dropped.
    Drop,
    /// An encoder has to be opened for its resolution first.
    Rebuild,
    /// It is encoded.
    Encode,
}

/// What follows the opening of an encoder.
#[derive(Debug, Clone, Copy, PartialEq, Eq, Structural)]
pub struct RebuildStep {
    /// The new encoder starts with a keyframe.
    pub request_idr: bool,
    /// Capture is started again at the size of the encoder.
    pub restart_capture: bool,
}

/// How a restart of the capture went.
#[derive(Debug, Clone, Copy, PartialEq, Eq, Structural)]
pub enum Restart {
    /// Frames now come at the size of the encoder.
    Scaled,
    /// They come at the size of the display, as before.
    Restored,
    /// There is no capture any more.
    Lost,
}

/// What follows a restart of the capture.
#[derive(Debug, Clone, Copy, PartialEq, Eq, Structural)]
pub enum AfterRestart {
    /// The next frame is captured.
    NextFrame,
    /// The frame at hand is scaled and encoded.
    EncodeFrame,
    /// The loop ends.
    Stop,
}

/// What becomes of the verification file when a packet was encoded.
#[derive(Debug, Clone, Copy, PartialEq, Eq, Structural)]
pub enum VerifyStep {
    /// The packet is written to it.
    Write,
    /// It is complete and closed.
    Close,
    /// It is not there any more.
    Nothing,
}

/// What the loop knows.
#[derive(Debug, Clone, Copy, PartialEq, Eq, Structural)]
pub struct CaptureState {
    pub configured_fps: u32,
    pub default_quality_level: u8,
    pub quality_level: u8,
    pub fps_cap: u32,
    /// When the last frame was encoded, in nanoseconds.
    pub last_encoded_at: Option<u64>,
    pub capture_resolution: Resolution,
    pub encode_resolution: Resolution,
    pub has_encoder: bool,
    /// The size that cursor positions refer to.
    pub cursor_source: Resolution,
    /// The size that they are told in.
    pub cursor_target: Resolution,
    pub verify_open: bool,
    pub frame_count: u64,
    pub total_encoded_bytes: u64,
}

/// Whether a frame comes too early behind the last one.
pub open spec fn too_early(last: Option<u64>, now: u64, interval: u64) -> bool {
    match last {
        Some(time) => (if now < time {
            0
        } else {
            now - time
        }) < interval,
        None => false,
    }
}

/// The framerate that a request leads to.
pub open spec fn requested_cap(requested: u8, configured: u32) -> u32 {
    if requested == 0 || requested as u32 > configured {
        configured
    } else {
        requested as u32
    }
}

/// The average bitrate of the stream in kilobits per second, in whole bits per
/// frame and whole kilobits.
pub open spec fn average_kbps(bytes: u64, frames: u64, fps: u32) -> int {
    if frames == 0 {
        0
    } else {
        bytes * 8 / frames as int * fps / 1000
    }
}

/// The decisions of the loop.
#[derive(Debug)]
pub struct CaptureLoop {
    state: CaptureState,
}

impl View for CaptureLoop {
    type V = CaptureState;

    closed spec fn view(&self) -> CaptureState {
        self.state
    }
}

impl CaptureLoop {
    /// Frames are captured, quality levels are in range, and the framerate is
    /// between one and what is configured.
    pub open spec fn wf(self) -> bool {
        &&& 1 <= self@.fps_cap <= self@.configured_fps
        &&& MIN_QUALITY_LEVEL <= self@.quality_level <= MAX_QUALITY_LEVEL
        &&& MIN_QUALITY_LEVEL <= self@.default_quality_level <= MAX_QUALITY_LEVEL
    }

    /// The start of the loop, on a display of the given size.
    pub fn new(target_fps: u32, default_quality_level: u8, native: Resolution, verify_open: bool) -> (looped:
        Self)
        requires
            target_fps > 0,
        ensures
            looped.wf(),
            looped@ == (CaptureState {
                configured_fps: target_fps,
                default_quality_level: clamped_level(default_quality_level),
                quality_level: clamped_level(default_quality_level),
                fps_cap: target_fps,
                last_encoded_at: None,
                capture_resolution: Resolution { width: 0, height: 0 },
                encode_resolution: Resolution { width: 0, height: 0 },
                has_encoder: false,
                cursor_source: native,
                cursor_target: native,
                verify_open,
                frame_count: 0,
                total_encoded_bytes: 0,
            }),
    {
        let level: u8 = clamp_level(default_quality_level);
        CaptureLoop {
            state: CaptureState {
                configured_fps: target_fps,
                default_quality_level: level,
                quality_level: level,
                fps_cap: target_fps,
                last_encoded_at: None,
                capture_resolution: Resolution::new(0, 0),
                encode_resolution: Resolution::new(0, 0),
                has_encoder: false,
                cursor_source: native,
                cursor_target: native,
                verify_open,
                frame_count: 0,
                total_encoded_bytes: 0,
            },
        }
    }

    /// What the loop knows.
    pub fn state(&self) -> (state: CaptureState)
        ensures
            state == self@,
    {
        self.state
    }

    /// Whether the encoder is asked for a keyframe, when one was requested.
    pub fn wants_idr(&self, requested: bool) -> (idr: bool)
        ensures
            idr == (requested && self@.has_encoder),
    {
        requested && self.state.has_encoder
    }

    /// The bitrate that the encoder is set to, when some were requested: the
    /// latest one.
    pub fn bitrate_change(&self, requested: &Vec<u32>) -> (bitrate: Option<u32>)
        ensures
            bitrate == if self@.has_encoder && requested@.len() > 0 {
                Some(requested@.last())
            } else {
                None
            },
    {
        if self.state.has_encoder && requested.len() > 0 {
            Some(requested[requested.len() - 1])
        } else {
            None
        }
    }

    /// Takes in a request for a quality level and a framerate. Zero asks for the
    /// default of each; a level out of range is passed over with the framerate
    /// that came with it. Tells whether the encoder has to be retuned.
    pub fn apply_quality(&mut self, level: u8, requested_fps: u8) -> (retune: bool)
        requires
            old(self).wf(),
        ensures
            final(self).wf(),
            if level > MAX_QUALITY_LEVEL {
                !retune && final(self)@ == old(self)@
            } else {
                &&& retune == old(self)@.has_encoder
                &&& final(self)@ == (CaptureState {
                    quality_level: if level == 0 {
                        old(self)@.default_quality_level
                    } else {
                        level
                    },
                    fps_cap: requested_cap(requested_fps, old(self)@.configured_fps),
                    ..old(self)@
                })
            },
    {
        if level > MAX_QUALITY_LEVEL {
            return false;
        }
        self.state.quality_level = if level == 0 {
            self.state.default_quality_level
        } else {
            level
        };
        self.state.fps_cap = if requested_fps == 0 || requested_fps as u32
            > self.state.configured_fps {
            self.state.configured_fps
        } else {
            requested_fps as u32
        };
        self.state.has_encoder
    }

    /// Takes in that a frame was captured. `interval` is the time that a frame
    /// takes at the present framerate.
    pub fn frame_captured(&mut self, now: u64, interval: u64, resolution: Resolution) -> (step: FrameStep)
        requires
            old(self).wf(),
            old(self)@.frame_count < u64::MAX,
        ensures
            final(self).wf(),
            if too_early(old(self)@.last_encoded_at, now, interval) {
                &&& step == FrameStep::Drop
                &&& final(self)@ == (CaptureState {
                    frame_count: (old(self)@.frame_count + 1) as u64,
                    ..old(self)@
                })
            } else {
                &&& step == if old(self)@.capture_resolution != resolution {
                    FrameStep::Rebuild
                } else {
                    FrameStep::Encode
                }
                &&& final(self)@ == (CaptureState {
                    frame_count: (old(self)@.frame_count + 1) as u64,
                    last_encoded_at: Some(now),
                    ..old(self)@
                })
            },
    {
        self.state.frame_count = self.state.frame_count + 1;
        if let Some(last) = self.state.last_encoded_at {
            let elapsed: u64 = if now < last {
                0
            } else {
                now - last
            };
            if elapsed < interval {
                return FrameStep::Drop;
            }
        }
        self.state.last_encoded_at = Some(now);
        if self.state.capture_resolution != resolution {
            FrameStep::Rebuild
        } else {
            FrameStep::Encode
        }
    }

    /// Takes in that an encoder was opened for frames of a size, at a size of its
    /// own, or that none could be.
    pub fn encoder_built(&mut self, captured: Resolution, opened: Option<Resolution>) -> (step: RebuildStep)
        requires
            old(self).wf(),
        ensures
            final(self).wf(),
            final(self)@ == (CaptureState {
                capture_resolution: captured,
                encode_resolution: match opened {
                    Some(size) => size,
                    None => captured,
                },
                has_encoder: opened is Some,
                cursor_source: captured,
                cursor_target: match opened {
                    Some(size) => size,
                    None => captured,
                },
                ..old(self)@
            }),
            step.request_idr == (opened is Some),
            step.restart_capture == (opened matches Some(size) && size != captured),
    {
        self.state.capture_resolution = captured;
        match opened {
            Some(size) => {
                self.state.has_encoder = true;
                self.state.encode_resolution = size;
            },
            None => {
                self.state.has_encoder = false;
                self.state.encode_resolution = captured;
            },
        }
        self.state.cursor_source = captured;
        self.state.cursor_target = self.state.encode_resolution;
        RebuildStep {
            request_idr: self.state.has_encoder,
            restart_capture: self.state.has_encoder && self.state.encode_resolution
                != self.state.capture_resolution,
        }
    }

    /// Takes in how a restart of the capture went. `native` is the size of the
    /// display.
    pub fn capture_restarted(&mut self, outcome: Restart, native: Resolution) -> (next: AfterRestart)
        requires
            old(self).wf(),
        ensures
            final(self).wf(),
            match outcome {
                Restart::Scaled => next == AfterRestart::NextFrame && final(self)@ == (CaptureState {
                    capture_resolution: old(self)@.encode_resolution,
                    cursor_source: old(self)@.encode_resolution,
                    cursor_target: old(self)@.encode_resolution,
                    ..old(self)@
                }),
                Restart::Restored => next == AfterRestart::EncodeFrame && final(self)@ == (
                CaptureState {
                    cursor_source: native,
                    cursor_target: old(self)@.encode_resolution,
                    ..old(self)@
                }),
                Restart::Lost => next == AfterRestart::Stop && final(self)@ == old(self)@,
            },
    {
        match outcome {
            Restart::Scaled => {
                self.state.capture_resolution = self.state.encode_resolution;
                self.state.cursor_source = self.state.encode_resolution;
                self.state.cursor_target = self.state.encode_resolution;
                AfterRestart::NextFrame
            },
            Restart::Restored => {
                self.state.cursor_source = native;
                self.state.cursor_target = self.state.encode_resolution;
                AfterRestart::EncodeFrame
            },
            Restart::Lost => AfterRestart::Stop,
        }
    }

    /// The frame that the encoder gets: the captured one, brought down to the size
    /// of the encoder where it has another. A frame that cannot be brought down is
    /// not encoded.
    pub fn prepare_frame(&self, frame: CapturedFrame) -> (result: Result<CapturedFrame, FluxError>)
        requires
            frame.resolution != self@.encode_resolution && downscale_refusal(
                frame@,
                self@.encode_resolution,
            ) is None ==> frame.resolution.width >= 2 && frame.resolution.height >= 2,
        ensures
            match downscaled(frame@, self@.encode_resolution) {
                Ok(expected) => result matches Ok(prepared) && prepared@ == expected
                    && prepared.resolution == self@.encode_resolution,
                Err(error) => result matches Err(e) && e@ == error,
            },
    {
        if frame.resolution != self.state.encode_resolution {
            let result: Result<CapturedFrame, FluxError> = downscale_frame(
                &frame,
                self.state.encode_resolution,
            );
            assert(result matches Ok(prepared) ==> prepared@.resolution
                == self@.encode_resolution);
            result
        } else {
            Ok(frame)
        }
    }

    /// Takes in that a packet was encoded.
    pub fn packet_encoded(&mut self, length: usize) -> (step: VerifyStep)
        requires
            old(self).wf(),
            old(self)@.total_encoded_bytes + length <= u64::MAX,
        ensures
            final(self).wf(),
            step == if !old(self)@.verify_open {
                VerifyStep::Nothing
            } else if old(self)@.frame_count <= old(self)@.configured_fps * REPORT_SECONDS {
                VerifyStep::Write
            } else {
                VerifyStep::Close
            },
            final(self)@ == (CaptureState {
                total_encoded_bytes: (old(self)@.total_encoded_bytes + length) as u64,
                verify_open: step == VerifyStep::Write,
                ..old(self)@
            }),
    {
        self.state.total_encoded_bytes = self.state.total_encoded_bytes + length as u64;
        if !self.state.verify_open {
            VerifyStep::Nothing
        } else if self.state.frame_count <= self.state.configured_fps as u64 * REPORT_SECONDS {
            VerifyStep::Write
        } else {
            self.state.verify_open = false;
            VerifyStep::Close
        }
    }

    /// The average bitrate in kilobits per second, when it is to be logged: every
    /// five seconds of frames.
    pub fn report(&self) -> (kbps: Option<u128>)
        requires
            self.wf(),
        ensures
            match kbps {
                Some(kbps) => self@.frame_count as int % (self@.configured_fps * REPORT_SECONDS)
                    == 0 && kbps == average_kbps(
                    self@.total_encoded_bytes,
                    self@.frame_count,
                    self@.configured_fps,
                ),
                None => self@.frame_count as int % (self@.configured_fps * REPORT_SECONDS) != 0,
            },
    {
        let period: u64 = self.state.configured_fps as u64 * REPORT_SECONDS;
        if self.state.frame_count % period != 0 {
            return None;
        }
        if self.state.frame_count == 0 {
            return Some(0);
        }
        let per_frame: u128 = self.state.total_encoded_bytes as u128 * 8
            / self.state.frame_count as u128;
        let fps: u128 = self.state.configured_fps as u128;
        assert(0 <= per_frame * fps <= 0x8_0000_0000_0000_0000u128 * 0x1_0000_0000u128)
            by (nonlinear_arith)
            requires
                per_frame <= 0x8_0000_0000_0000_0000u128,
                fps <= 0x1_0000_0000u128,
        ;
        Some(per_frame * fps / 1000)
    }
}

/// The capture time of a frame in microseconds since the loop started, from
/// nanoseconds. A frame from before is told as the start.
pub fn timestamp_micros(timestamp: u64, start: u64) -> (micros: u64)
    ensures
        micros == if timestamp < start {
            0
        } else {
            (timestamp - start) / 1000
        },
{
    if timestamp < start {
        0
    } else {
        (timestamp - start) / 1000
    }
}

/// Two frames that are encoded one after the other are as far apart as the
/// framerate asks.
pub proof fn law_frames_are_paced(last: u64, now: u64, interval: u64)
    requires
        !too_early(Some(last), now, interval),
        interval > 0,
    ensures
        now - last >= interval,
{
}

/// Quality levels go from one to ten, and figures are logged for five seconds.
pub proof fn law_levels_are_clamped(level: u8)
    ensures
        1 <= clamped_level(level) <= 10,
        1 <= level <= 10 ==> clamped_level(level) == level,
        level == 0 ==> clamped_level(level) == 1,
        level > 10 ==> clamped_level(level) == 10,
        MIN_QUALITY_LEVEL == 1,
        MAX_QUALITY_LEVEL == 10,
        MAX_CAPTURE_FPS == 144,
        REPORT_SECONDS == 5,
{
}

/// A frame is too early just where another was encoded less than an interval ago.
pub proof fn law_early_frames_are_told(last: u64, now: u64, interval: u64)
    ensures
        !too_early(None, now, interval),
        last <= now ==> (too_early(Some(last), now, interval) <==> now - last < interval),
        now < last ==> (too_early(Some(last), now, interval) <==> interval > 0),
{
}

/// A framerate that is asked for is kept up to the configured one, which zero asks
/// for as well.
pub proof fn law_framerates_are_capped(requested: u8, configured: u32)
    ensures
        requested == 0 ==> requested_cap(requested, configured) == configured,
        0 < requested <= configured ==> requested_cap(requested, configured) == requested,
        requested > configured ==> requested_cap(requested, configured) == configured,
{
}

/// The loop is sound where its framerate is between one and the configured one and
/// its levels are between one and ten.
pub proof fn law_sound_loops(looped: CaptureLoop)
    ensures
        looped.wf() <==> 1 <= looped@.fps_cap && looped@.fps_cap <= looped@.configured_fps && 1
            <= looped@.quality_level <= 10 && 1 <= looped@.default_quality_level <= 10,
{
}

/// The bitrate is the whole bits of a frame on average, as many times as there are
/// frames in a second, in whole kilobits.
pub proof fn law_bitrates_are_averages(bytes: u64, frames: u64, fps: u32, per_frame: int)
    requires
        frames > 0,
        per_frame * frames <= 8 * bytes < (per_frame + 1) * frames,
    ensures
        average_kbps(bytes, frames, fps) * 1000 <= per_frame * fps < (average_kbps(
            bytes,
            frames,
            fps,
        ) + 1) * 1000,
        average_kbps(bytes, 0, fps) == 0,
{
    let n = frames as int;
    let bits = bytes * 8;
    assert(bits / n == per_frame) by (nonlinear_arith)
        requires
            n > 0,
            per_frame * n <= bits < (per_frame + 1) * n,
    ;
}

} // verus!
