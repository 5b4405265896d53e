//! Colour conversion on the way to an encoder.

use vstd::prelude::*;

use crate::error::FluxError;
use crate::types::{ChromaSampling, DynamicRange, PixelFormat};

verus! {

/// What to convert from and to.
#[derive(Debug, Clone, Copy, PartialEq, Eq, Structural)]
pub struct ColorConversionConfig {
    pub input_format: PixelFormat,
    pub output_chroma: ChromaSampling,
    pub output_range: DynamicRange,
    pub width: u32,
    pub height: u32,
}

/// Formats that colours are converted to.
#[derive(Debug, Clone, Copy, PartialEq, Eq, Structural)]
pub enum OutputYuvFormat {
    Nv12,
    P010,
    Yuv444,
    Yuv444P10,
}

/// The format for a subsampling and a range.
pub open spec fn output_format_for(chroma: ChromaSampling, range: DynamicRange) -> OutputYuvFormat {
    match chroma {
        ChromaSampling::Yuv420 => match range {
            DynamicRange::Sdr => OutputYuvFormat::Nv12,
            DynamicRange::Hdr10 => OutputYuvFormat::P010,
        },
        ChromaSampling::Yuv444 => match range {
            DynamicRange::Sdr => OutputYuvFormat::Yuv444,
            DynamicRange::Hdr10 => OutputYuvFormat::Yuv444P10,
        },
    }
}

impl OutputYuvFormat {
    /// The format for a subsampling and a range.
    pub fn from_settings(chroma: ChromaSampling, range: DynamicRange) -> (format: Self)
        ensures
            format == output_format_for(chroma, range),
    {
        match (chroma, range) {
            (ChromaSampling::Yuv420, DynamicRange::Sdr) => Self::Nv12,
            (ChromaSampling::Yuv420, DynamicRange::Hdr10) => Self::P010,
            (ChromaSampling::Yuv444, DynamicRange::Sdr) => Self::Yuv444,
            (ChromaSampling::Yuv444, DynamicRange::Hdr10) => Self::Yuv444P10,
        }
    }
}

/// A colour converter on graphics memory.
pub struct GpuColorConverter {
    config: ColorConversionConfig,
    output_format: OutputYuvFormat,
}

impl GpuColorConverter {
    /// What the converter converts from and to.
    pub closed spec fn settings(self) -> ColorConversionConfig {
        self.config
    }

    /// The format that comes out.
    pub closed spec fn output(self) -> OutputYuvFormat {
        self.output_format
    }

    /// A converter for the given settings.
    pub fn new(config: ColorConversionConfig) -> (result: Result<Self, FluxError>)
        ensures
            result matches Ok(converter) && converter.settings() == config && converter.output()
                == output_format_for(config.output_chroma, config.output_range),
    {
        Ok(
            Self {
                config,
                output_format: OutputYuvFormat::from_settings(
                    config.output_chroma,
                    config.output_range,
                ),
            },
        )
    }

    /// The format that comes out.
    pub fn output_format(&self) -> (format: OutputYuvFormat)
        ensures
            format == self.output(),
    {
        self.output_format
    }

    /// Converts an image. No shader is bound yet, so the handle that comes back is
    /// the null one.
    pub fn convert(&mut self, _input_handle: u64) -> (result: Result<u64, FluxError>)
        ensures
            result matches Ok(handle) && handle == 0,
            *final(self) == *old(self),
    {
        Ok(0)
    }
}

/// Ten bits come out for HDR10 and eight otherwise, and the chroma is as wide and
/// high as the luma for 4:4:4 alone.
pub proof fn law_output_formats()
    ensures
        output_format_for(ChromaSampling::Yuv420, DynamicRange::Sdr) == OutputYuvFormat::Nv12,
        output_format_for(ChromaSampling::Yuv420, DynamicRange::Hdr10) == OutputYuvFormat::P010,
        output_format_for(ChromaSampling::Yuv444, DynamicRange::Sdr) == OutputYuvFormat::Yuv444,
        output_format_for(ChromaSampling::Yuv444, DynamicRange::Hdr10)
            == OutputYuvFormat::Yuv444P10,
{
}

} // verus!
