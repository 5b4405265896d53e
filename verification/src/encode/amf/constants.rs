//! Property names and values of the AMF encoder components.

use vstd::prelude::*;

verus! {

/// Component of the H.264 encoder.
pub const AMF_VIDEO_ENCODER_VCE_AVC: &'static str = "AMFVideoEncoderVCE_AVC";

/// Component of the HEVC encoder.
pub const AMF_VIDEO_ENCODER_HEVC: &'static str = "AMFVideoEncoder_HEVC";

/// Component of the AV1 encoder.
pub const AMF_VIDEO_ENCODER_AV1: &'static str = "AMFVideoEncoder_AV1";

/// H.264 property: usage mode.
pub const H264_USAGE: &'static str = "Usage";

/// H.264 property: frame size.
pub const H264_FRAMESIZE: &'static str = "FrameSize";

/// H.264 property: frame rate.
pub const H264_FRAMERATE: &'static str = "FrameRate";

/// H.264 property: profile.
pub const H264_PROFILE: &'static str = "Profile";

/// H.264 property: rate control method.
pub const H264_RATE_CONTROL_METHOD: &'static str = "RateControlMethod";

/// H.264 property: target bitrate in bits per second.
pub const H264_TARGET_BITRATE: &'static str = "TargetBitrate";

/// H.264 property: peak bitrate in bits per second.
pub const H264_PEAK_BITRATE: &'static str = "PeakBitrate";

/// H.264 property: VBV buffer size in bits.
pub const H264_VBV_BUFFER_SIZE: &'static str = "VBVBufferSize";

/// H.264 property: filler data switch.
pub const H264_FILLER_DATA: &'static str = "FillerDataEnable";

/// H.264 property: IDR period in frames, zero for none.
pub const H264_IDR_PERIOD: &'static str = "IDRPeriod";

/// H.264 property: B-picture pattern.
pub const H264_B_PIC_PATTERN: &'static str = "BPicturesPattern";

/// H.264 property: header insertion mode.
pub const H264_HEADER_INSERTION_MODE: &'static str = "HeaderInsertionMode";

/// H.264 property: HRD enforcement switch.
pub const H264_ENFORCE_HRD: &'static str = "EnforceHRD";

/// H.264 property: picture type forced on a frame.
pub const H264_FORCE_PICTURE_TYPE: &'static str = "ForcePictureType";

/// H.264 property: parameter set insertion on a frame.
pub const H264_INSERT_SPS: &'static str = "InsertSPS";

/// H.264 property: picture parameter set insertion on a frame.
pub const H264_INSERT_PPS: &'static str = "InsertPPS";

/// HEVC property: usage mode.
pub const HEVC_USAGE: &'static str = "HevcUsage";

/// HEVC property: frame size.
pub const HEVC_FRAMESIZE: &'static str = "HevcFrameSize";

/// HEVC property: frame rate.
pub const HEVC_FRAMERATE: &'static str = "HevcFrameRate";

/// HEVC property: profile.
pub const HEVC_PROFILE: &'static str = "HevcProfile";

/// HEVC property: tier.
pub const HEVC_TIER: &'static str = "HevcTier";

/// HEVC property: rate control method.
pub const HEVC_RATE_CONTROL_METHOD: &'static str = "HevcRateControlMethod";

/// HEVC property: target bitrate in bits per second.
pub const HEVC_TARGET_BITRATE: &'static str = "HevcTargetBitrate";

/// HEVC property: peak bitrate in bits per second.
pub const HEVC_PEAK_BITRATE: &'static str = "HevcPeakBitrate";

/// HEVC property: VBV buffer size in bits.
pub const HEVC_VBV_BUFFER_SIZE: &'static str = "HevcVBVBufferSize";

/// HEVC property: filler data switch.
pub const HEVC_FILLER_DATA: &'static str = "HevcFillerDataEnable";

/// HEVC property: group of pictures size.
pub const HEVC_GOP_SIZE: &'static str = "HevcGOPSize";

/// HEVC property: number of reference frames.
pub const HEVC_MAX_NUM_REFRAMES: &'static str = "HevcMaxNumRefFrames";

/// HEVC property: HRD enforcement switch.
pub const HEVC_ENFORCE_HRD: &'static str = "HevcEnforceHRD";

/// HEVC property: picture type forced on a frame.
pub const HEVC_FORCE_PICTURE_TYPE: &'static str = "HevcForcePictureType";

/// AV1 property: usage mode.
pub const AV1_USAGE: &'static str = "Av1Usage";

/// AV1 property: frame size.
pub const AV1_FRAMESIZE: &'static str = "Av1FrameSize";

/// AV1 property: frame rate.
pub const AV1_FRAMERATE: &'static str = "Av1FrameRate";

/// AV1 property: profile.
pub const AV1_PROFILE: &'static str = "Av1Profile";

/// AV1 property: rate control method.
pub const AV1_RATE_CONTROL_METHOD: &'static str = "Av1RateControlMethod";

/// AV1 property: target bitrate in bits per second.
pub const AV1_TARGET_BITRATE: &'static str = "Av1TargetBitrate";

/// AV1 property: peak bitrate in bits per second.
pub const AV1_PEAK_BITRATE: &'static str = "Av1PeakBitrate";

/// AV1 property: VBV buffer size in bits.
pub const AV1_VBV_BUFFER_SIZE: &'static str = "Av1VBVBufferSize";

/// AV1 property: filler data switch.
pub const AV1_FILLER_DATA: &'static str = "Av1FillerDataEnable";

/// AV1 property: HRD enforcement switch.
pub const AV1_ENFORCE_HRD: &'static str = "Av1EnforceHRD";

/// AV1 property: picture type forced on a frame.
pub const AV1_FORCE_PICTURE_TYPE: &'static str = "Av1ForcePictureType";

/// H.264 property: type of an encoded picture.
pub const H264_OUTPUT_DATA_TYPE: &'static str = "OutputDataType";

/// HEVC property: type of an encoded picture.
pub const HEVC_OUTPUT_DATA_TYPE: &'static str = "OutputDataType";

/// H.264 value: low-latency usage.
pub const H264_USAGE_LOW_LATENCY: i64 = 2;

/// HEVC value: ultra-low-latency usage.
pub const HEVC_USAGE_ULTRA_LOW_LATENCY: i64 = 1;

/// AV1 value: ultra-low-latency usage.
pub const AV1_USAGE_ULTRA_LOW_LATENCY: i64 = 2;

/// H.264 value: constant quantizer.
pub const H264_RC_CQP: i64 = 0;

/// H.264 value: constant bitrate.
pub const H264_RC_CBR: i64 = 1;

/// H.264 value: latency-constrained variable bitrate.
pub const H264_RC_VBR_LATENCY: i64 = 3;

/// HEVC value: constant quantizer.
pub const HEVC_RC_CQP: i64 = 0;

/// HEVC value: latency-constrained variable bitrate.
pub const HEVC_RC_VBR_LATENCY: i64 = 1;

/// HEVC value: constant bitrate.
pub const HEVC_RC_CBR: i64 = 3;

/// AV1 value: constant quantizer.
pub const AV1_RC_CQP: i64 = 0;

/// AV1 value: latency-constrained variable bitrate.
pub const AV1_RC_VBR_LATENCY: i64 = 1;

/// AV1 value: constant bitrate.
pub const AV1_RC_CBR: i64 = 3;

/// H.264 value: high profile.
pub const H264_PROFILE_HIGH: i64 = 100;

/// HEVC value: main profile.
pub const HEVC_PROFILE_MAIN: i64 = 1;

/// HEVC value: main 10 profile.
pub const HEVC_PROFILE_MAIN_10: i64 = 2;

/// HEVC value: high tier.
pub const HEVC_TIER_HIGH: i64 = 1;

/// AV1 value: main profile.
pub const AV1_PROFILE_MAIN: i64 = 1;

/// Forced picture type: IDR.
pub const PICTURE_TYPE_IDR: i64 = 2;

/// Encoded picture type: IDR.
pub const OUTPUT_DATA_TYPE_IDR: i64 = 0;

/// Header insertion: with every IDR picture.
pub const HEADER_INSERTION_IDR: i64 = 2;

/// The values of the properties.
pub proof fn law_property_values()
    ensures
        H264_USAGE_LOW_LATENCY == 2,
        HEVC_USAGE_ULTRA_LOW_LATENCY == 1,
        AV1_USAGE_ULTRA_LOW_LATENCY == 2,
        H264_RC_CQP == 0,
        H264_RC_CBR == 1,
        H264_RC_VBR_LATENCY == 3,
        HEVC_RC_CQP == 0,
        HEVC_RC_VBR_LATENCY == 1,
        HEVC_RC_CBR == 3,
        AV1_RC_CQP == 0,
        AV1_RC_VBR_LATENCY == 1,
        AV1_RC_CBR == 3,
        H264_PROFILE_HIGH == 100,
        HEVC_PROFILE_MAIN == 1,
        HEVC_PROFILE_MAIN_10 == 2,
        HEVC_TIER_HIGH == 1,
        AV1_PROFILE_MAIN == 1,
        PICTURE_TYPE_IDR == 2,
        OUTPUT_DATA_TYPE_IDR == 0,
        HEADER_INSERTION_IDR == 2,
{
}

} // verus!
