//! The FFmpeg encoders of a build without the libav libraries. None of them can be
//! made, so that asking for one is an error and another backend is taken.

use vstd::prelude::*;

use crate::encode::backend::BasicSession;
use crate::encode::config::{EncodeConfig, EncoderCapabilities};
use crate::error::{ErrorView, FluxError};

verus! {

/// The FFmpeg VA-API encoder, where it is not built in.
pub struct FfmpegVaapiEncoder {
    _private: (),
}

impl FfmpegVaapiEncoder {
    /// No such encoder can be made.
    pub fn new() -> (result: Result<Self, FluxError>)
        ensures
            result matches Err(e) && e@ == ErrorView::EncoderInit(
                "FFmpeg VA-API backend not compiled in (enable the `encoder-ffmpeg` feature)"@,
            ),
    {
        Err(
            FluxError::EncoderInit(
                "FFmpeg VA-API backend not compiled in (enable the `encoder-ffmpeg` feature)".to_string(),
            ),
        )
    }

    /// The name of the backend.
    pub fn name(&self) -> (name: &'static str)
        ensures
            name@ == "ffmpeg-vaapi"@,
    {
        "ffmpeg-vaapi"
    }

    /// There is nothing to tell of what it can do.
    pub fn capabilities(&self) -> (result: Result<EncoderCapabilities, FluxError>)
        ensures
            result matches Err(e) && e@ == ErrorView::EncoderInit(
                "FFmpeg VA-API backend not compiled in"@,
            ),
    {
        Err(FluxError::EncoderInit("FFmpeg VA-API backend not compiled in".to_string()))
    }

    /// No configuration is accepted.
    pub fn validate_config(&self, _config: &EncodeConfig) -> (result: Result<(), FluxError>)
        ensures
            result matches Err(e) && e@ == ErrorView::EncoderInit(
                "FFmpeg VA-API backend not compiled in"@,
            ),
    {
        Err(FluxError::EncoderInit("FFmpeg VA-API backend not compiled in".to_string()))
    }

    /// No session is opened.
    pub fn create_session(&self, _config: EncodeConfig) -> (result: Result<BasicSession, FluxError>)
        ensures
            result matches Err(e) && e@ == ErrorView::EncoderInit(
                "FFmpeg VA-API backend not compiled in"@,
            ),
    {
        Err(FluxError::EncoderInit("FFmpeg VA-API backend not compiled in".to_string()))
    }
}

/// The FFmpeg Vulkan encoder, where it is not built in.
pub struct FfmpegVulkanEncoder {
    _private: (),
}

impl FfmpegVulkanEncoder {
    /// No such encoder can be made.
    pub fn new() -> (result: Result<Self, FluxError>)
        ensures
            result matches Err(e) && e@ == ErrorView::EncoderInit(
                "FFmpeg Vulkan backend not compiled in (enable the `encoder-ffmpeg` feature)"@,
            ),
    {
        Err(
            FluxError::EncoderInit(
                "FFmpeg Vulkan backend not compiled in (enable the `encoder-ffmpeg` feature)".to_string(),
            ),
        )
    }

    /// The name of the backend.
    pub fn name(&self) -> (name: &'static str)
        ensures
            name@ == "ffmpeg-vulkan"@,
    {
        "ffmpeg-vulkan"
    }

    /// There is nothing to tell of what it can do.
    pub fn capabilities(&self) -> (result: Result<EncoderCapabilities, FluxError>)
        ensures
            result matches Err(e) && e@ == ErrorView::EncoderInit(
                "FFmpeg Vulkan backend not compiled in"@,
            ),
    {
        Err(FluxError::EncoderInit("FFmpeg Vulkan backend not compiled in".to_string()))
    }

    /// No configuration is accepted.
    pub fn validate_config(&self, _config: &EncodeConfig) -> (result: Result<(), FluxError>)
        ensures
            result matches Err(e) && e@ == ErrorView::EncoderInit(
                "FFmpeg Vulkan backend not compiled in"@,
            ),
    {
        Err(FluxError::EncoderInit("FFmpeg Vulkan backend not compiled in".to_string()))
    }

    /// No session is opened.
    pub fn create_session(&self, _config: EncodeConfig) -> (result: Result<BasicSession, FluxError>)
        ensures
            result matches Err(e) && e@ == ErrorView::EncoderInit(
                "FFmpeg Vulkan backend not compiled in"@,
            ),
    {
        Err(FluxError::EncoderInit("FFmpeg Vulkan backend not compiled in".to_string()))
    }
}

/// The FFmpeg software encoder, where it is not built in.
pub struct FfmpegSoftwareEncoder {
    _private: (),
}

impl FfmpegSoftwareEncoder {
    /// No such encoder can be made.
    pub fn new() -> (result: Result<Self, FluxError>)
        ensures
            result matches Err(e) && e@ == ErrorView::EncoderInit(
                "FFmpeg software backend not compiled in (enable the `encoder-ffmpeg` feature)"@,
            ),
    {
        Err(
            FluxError::EncoderInit(
                "FFmpeg software backend not compiled in (enable the `encoder-ffmpeg` feature)".to_string(),
            ),
        )
    }

    /// The name of the backend.
    pub fn name(&self) -> (name: &'static str)
        ensures
            name@ == "ffmpeg-software"@,
    {
        "ffmpeg-software"
    }

    /// There is nothing to tell of what it can do.
    pub fn capabilities(&self) -> (result: Result<EncoderCapabilities, FluxError>)
        ensures
            result matches Err(e) && e@ == ErrorView::EncoderInit(
                "FFmpeg software backend not compiled in"@,
            ),
    {
        Err(FluxError::EncoderInit("FFmpeg software backend not compiled in".to_string()))
    }

    /// No configuration is accepted.
    pub fn validate_config(&self, _config: &EncodeConfig) -> (result: Result<(), FluxError>)
        ensures
            result matches Err(e) && e@ == ErrorView::EncoderInit(
                "FFmpeg software backend not compiled in"@,
            ),
    {
        Err(FluxError::EncoderInit("FFmpeg software backend not compiled in".to_string()))
    }

    /// No session is opened.
    pub fn create_session(&self, _config: EncodeConfig) -> (result: Result<BasicSession, FluxError>)
        ensures
            result matches Err(e) && e@ == ErrorView::EncoderInit(
                "FFmpeg software backend not compiled in"@,
            ),
    {
        Err(FluxError::EncoderInit("FFmpeg software backend not compiled in".to_string()))
    }
}

} // verus!
