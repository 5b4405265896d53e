//! Plain values that the parts of the host share.

use vstd::prelude::*;

use crate::text::{decimal, push_decimal};

verus! {

/// Width and height in pixels.
#[derive(Debug, Clone, Copy, PartialEq, Eq, Structural)]
pub struct Resolution {
    pub width: u32,
    pub height: u32,
}

/// A rectangle in desktop coordinates.
#[derive(Debug, Clone, Copy, PartialEq, Eq, Structural)]
pub struct DesktopRect {
    pub left: i32,
    pub top: i32,
    pub width: u32,
    pub height: u32,
}

/// Layout of pixel data.
#[derive(Debug, Clone, Copy, PartialEq, Eq, Structural)]
pub enum PixelFormat {
    Bgra8,
    Rgba8,
    Nv12,
    P010,
    I420,
}

/// Video codecs.
#[derive(Debug, Clone, Copy, PartialEq, Eq, Structural)]
pub enum VideoCodec {
    H264,
    H265,
    Av1,
}

/// Audio codecs.
#[derive(Debug, Clone, Copy, PartialEq, Eq, Structural)]
pub enum AudioCodec {
    Opus,
}

/// Chroma subsampling.
#[derive(Debug, Clone, Copy, PartialEq, Eq, Structural)]
pub enum ChromaSampling {
    Yuv420,
    Yuv444,
}

/// Dynamic range.
#[derive(Debug, Clone, Copy, PartialEq, Eq, Structural)]
pub enum DynamicRange {
    Sdr,
    Hdr10,
}

/// Rate control: constant bitrate, variable bitrate, constant quantizer.
#[derive(Debug, Clone, Copy, PartialEq, Eq, Structural)]
pub enum RateControlMode {
    Cbr,
    Vbr,
    Cqp,
}

/// Encoder implementations.
#[derive(Debug, Clone, Copy, PartialEq, Eq, Structural)]
pub enum EncoderBackend {
    Nvenc,
    Amf,
    Vaapi,
    FfmpegVaapi,
    VulkanVideo,
    Software,
}

/// The text of a resolution: width, an `x`, height.
pub open spec fn resolution_text(resolution: Resolution) -> Seq<char> {
    decimal(resolution.width as nat) + "x"@ + decimal(resolution.height as nat)
}

/// Appends the text of a resolution.
pub fn push_resolution(out: &mut String, resolution: Resolution)
    ensures
        final(out)@ == old(out)@ + resolution_text(resolution),
{
    push_decimal(out, resolution.width as u64);
    out.append("x");
    push_decimal(out, resolution.height as u64);
    assert(out@ =~= old(out)@ + resolution_text(resolution));
}

impl Resolution {
    /// A resolution of the given size.
    pub fn new(width: u32, height: u32) -> (resolution: Self)
        ensures
            resolution == (Resolution { width, height }),
    {
        Self { width, height }
    }
}

/// The name of a pixel format.
pub open spec fn pixel_format_text(format: PixelFormat) -> Seq<char> {
    match format {
        PixelFormat::Bgra8 => "Bgra8"@,
        PixelFormat::Rgba8 => "Rgba8"@,
        PixelFormat::Nv12 => "Nv12"@,
        PixelFormat::P010 => "P010"@,
        PixelFormat::I420 => "I420"@,
    }
}

impl PixelFormat {
    /// The name of the format.
    pub fn name(&self) -> (name: &'static str)
        ensures
            name@ == pixel_format_text(*self),
    {
        match self {
            PixelFormat::Bgra8 => "Bgra8",
            PixelFormat::Rgba8 => "Rgba8",
            PixelFormat::Nv12 => "Nv12",
            PixelFormat::P010 => "P010",
            PixelFormat::I420 => "I420",
        }
    }
}

/// The name of a codec.
pub open spec fn codec_text(codec: VideoCodec) -> Seq<char> {
    match codec {
        VideoCodec::H264 => "H264"@,
        VideoCodec::H265 => "H265"@,
        VideoCodec::Av1 => "Av1"@,
    }
}

impl VideoCodec {
    /// The name of the codec.
    pub fn name(&self) -> (name: &'static str)
        ensures
            name@ == codec_text(*self),
    {
        match self {
            VideoCodec::H264 => "H264",
            VideoCodec::H265 => "H265",
            VideoCodec::Av1 => "Av1",
        }
    }
}

/// The marketing name of a codec.
pub open spec fn codec_label(codec: VideoCodec) -> Seq<char> {
    match codec {
        VideoCodec::H264 => "H.264"@,
        VideoCodec::H265 => "H.265"@,
        VideoCodec::Av1 => "AV1"@,
    }
}

impl VideoCodec {
    /// The marketing name of the codec.
    pub fn label(&self) -> (label: &'static str)
        ensures
            label@ == codec_label(*self),
    {
        match self {
            VideoCodec::H264 => "H.264",
            VideoCodec::H265 => "H.265",
            VideoCodec::Av1 => "AV1",
        }
    }
}

/// The name of an encoder backend.
pub open spec fn backend_text(backend: EncoderBackend) -> Seq<char> {
    match backend {
        EncoderBackend::Nvenc => "Nvenc"@,
        EncoderBackend::Amf => "Amf"@,
        EncoderBackend::Vaapi => "Vaapi"@,
        EncoderBackend::FfmpegVaapi => "FfmpegVaapi"@,
        EncoderBackend::VulkanVideo => "VulkanVideo"@,
        EncoderBackend::Software => "Software"@,
    }
}

impl EncoderBackend {
    /// The name of the backend.
    pub fn name(&self) -> (name: &'static str)
        ensures
            name@ == backend_text(*self),
    {
        match self {
            EncoderBackend::Nvenc => "Nvenc",
            EncoderBackend::Amf => "Amf",
            EncoderBackend::Vaapi => "Vaapi",
            EncoderBackend::FfmpegVaapi => "FfmpegVaapi",
            EncoderBackend::VulkanVideo => "VulkanVideo",
            EncoderBackend::Software => "Software",
        }
    }
}

/// The texts of values.
pub proof fn law_values_have_their_texts(resolution: Resolution)
    ensures
        resolution_text(resolution) == decimal(resolution.width as nat) + "x"@ + decimal(
            resolution.height as nat,
        ),
        pixel_format_text(PixelFormat::Bgra8) == "Bgra8"@,
        pixel_format_text(PixelFormat::Rgba8) == "Rgba8"@,
        pixel_format_text(PixelFormat::Nv12) == "Nv12"@,
        pixel_format_text(PixelFormat::P010) == "P010"@,
        pixel_format_text(PixelFormat::I420) == "I420"@,
        codec_text(VideoCodec::H264) == "H264"@,
        codec_text(VideoCodec::H265) == "H265"@,
        codec_text(VideoCodec::Av1) == "Av1"@,
        codec_label(VideoCodec::H264) == "H.264"@,
        codec_label(VideoCodec::H265) == "H.265"@,
        codec_label(VideoCodec::Av1) == "AV1"@,
        backend_text(EncoderBackend::Nvenc) == "Nvenc"@,
        backend_text(EncoderBackend::Amf) == "Amf"@,
        backend_text(EncoderBackend::Vaapi) == "Vaapi"@,
        backend_text(EncoderBackend::FfmpegVaapi) == "FfmpegVaapi"@,
        backend_text(EncoderBackend::VulkanVideo) == "VulkanVideo"@,
        backend_text(EncoderBackend::Software) == "Software"@,
{
}

} // verus!
