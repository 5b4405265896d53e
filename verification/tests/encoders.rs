//! Encoder backends.

use flux::encode::amf::ffi::{
    AMF_SURFACE_BGRA, AMF_SURFACE_NV12, AMF_SURFACE_P010, AMF_SURFACE_RGBA,
};
use flux::encode::amf::surface_format_name;
use flux::encode::backend::to_core_encode_caps;
use flux::encode::config::EncodeConfig;
use flux::encode::ffmpeg::{
    effective_gop, encoder_name, low_latency_options, source_pixel_format, surface_sw_format,
    validate, vk_low_latency_options, HwApi, Pixel,
};
use flux::encode::ffmpeg_absent::{
    FfmpegSoftwareEncoder, FfmpegVaapiEncoder, FfmpegVulkanEncoder,
};
use flux::encode::h264::{
    build_picture_info, build_reference_lists, build_slice_header, build_sps, mb_count, pick_level,
    FrameState, Level, PictureType, SliceType, NO_REFERENCE_PICTURE,
};
use flux::encode::import::{classify_frame, GpuFrameImport, ImportPath};
use flux::encode::nal::bitstream_has_idr;
use flux::encode::vaapi::{gop_limit, low_latency_tunings};
use flux::error::FluxError;
use flux::frame::{CapturedFrame, DmaBufHandle, DmaBufPlane, GpuFrameHandle};
use flux::types::{
    DynamicRange, EncoderBackend, PixelFormat, RateControlMode, Resolution, VideoCodec,
};

#[test]
fn test_surface_format_name() {
    assert_eq!(surface_format_name(AMF_SURFACE_NV12), "NV12");
    assert_eq!(surface_format_name(AMF_SURFACE_P010), "P010");
    assert_eq!(surface_format_name(AMF_SURFACE_BGRA), "BGRA");
    assert_eq!(surface_format_name(AMF_SURFACE_RGBA), "RGBA");
    assert_eq!(surface_format_name(9999), "unknown");
}

fn cfg(codec: VideoCodec) -> EncodeConfig {
    EncodeConfig { codec, ..EncodeConfig::default() }
}

#[test]
fn encoder_name_maps_codecs() {
    assert_eq!(encoder_name(VideoCodec::H264), Some("h264_vaapi"));
    assert_eq!(encoder_name(VideoCodec::H265), Some("hevc_vaapi"));
    assert_eq!(encoder_name(VideoCodec::Av1), None);
}

#[test]
fn hw_api_maps_encoder_names_per_codec() {
    assert_eq!(HwApi::Vaapi.encoder_name(VideoCodec::H264), Some("h264_vaapi"));
    assert_eq!(HwApi::Vaapi.encoder_name(VideoCodec::H265), Some("hevc_vaapi"));
    assert_eq!(HwApi::Vulkan.encoder_name(VideoCodec::H264), Some("h264_vulkan"));
    assert_eq!(HwApi::Vulkan.encoder_name(VideoCodec::H265), Some("hevc_vulkan"));
    assert_eq!(HwApi::Vaapi.encoder_name(VideoCodec::Av1), None);
    assert_eq!(HwApi::Vulkan.encoder_name(VideoCodec::Av1), None);
}

#[test]
fn hw_api_maps_surface_pixel_format() {
    assert_eq!(HwApi::Vaapi.hw_pix_fmt(), Pixel::Vaapi);
    assert_eq!(HwApi::Vulkan.hw_pix_fmt(), Pixel::Vulkan);
}

#[test]
fn vulkan_low_latency_options_set_async_depth() {
    let opts = vk_low_latency_options(&cfg(VideoCodec::H264));
    assert!(opts.contains(&("async_depth", "1".to_string())));
}

#[test]
fn source_format_only_accepts_packed_rgb() {
    assert_eq!(source_pixel_format(PixelFormat::Bgra8), Some(Pixel::Bgra));
    assert_eq!(source_pixel_format(PixelFormat::Rgba8), Some(Pixel::Rgba));
    assert_eq!(source_pixel_format(PixelFormat::Nv12), None);
    assert_eq!(source_pixel_format(PixelFormat::I420), None);
    assert_eq!(source_pixel_format(PixelFormat::P010), None);
}

#[test]
fn surface_format_tracks_dynamic_range() {
    assert_eq!(surface_sw_format(DynamicRange::Sdr), Pixel::Nv12);
    assert_eq!(surface_sw_format(DynamicRange::Hdr10), Pixel::P010Le);
}

#[test]
fn infinite_gop_maps_to_large_finite_value() {
    assert_eq!(effective_gop(0), i32::MAX as u32);
    assert_eq!(effective_gop(60), 60);
}

#[test]
fn low_latency_options_select_rate_control_and_async_depth() {
    let mut c = cfg(VideoCodec::H265);
    c.rate_control = RateControlMode::Cbr;
    let opts = low_latency_options(&c);
    assert!(opts.contains(&("rc_mode", "CBR".to_string())));
    assert!(opts.contains(&("async_depth", "1".to_string())));

    c.rate_control = RateControlMode::Vbr;
    assert!(low_latency_options(&c).contains(&("rc_mode", "VBR".to_string())));
}

#[test]
fn validate_rejects_av1() {
    let err = validate(&cfg(VideoCodec::Av1));
    assert!(err.is_err());
}

#[test]
fn validate_accepts_h264_and_h265() {
    assert!(validate(&cfg(VideoCodec::H264)).is_ok());
    assert!(validate(&cfg(VideoCodec::H265)).is_ok());
}

#[test]
fn validate_requires_hevc_for_hdr10() {
    let mut c = cfg(VideoCodec::H264);
    c.dynamic_range = DynamicRange::Hdr10;
    assert!(validate(&c).is_err());

    let mut c = cfg(VideoCodec::H265);
    c.dynamic_range = DynamicRange::Hdr10;
    assert!(validate(&c).is_ok());
}

fn vaapi_cfg() -> EncodeConfig {
    EncodeConfig {
        codec: VideoCodec::H264,
        bitrate_kbps: 8_000,
        framerate: 60,
        gop_size: 0,
        ..Default::default()
    }
}

#[test]
fn tunings_use_cbr_bits_per_second() {
    let t = low_latency_tunings(&vaapi_cfg());
    assert_eq!(t.framerate, 60);
    assert_eq!(t.constant_bitrate, 8_000_000);
}

#[test]
fn framerate_never_zero() {
    let mut c = vaapi_cfg();
    c.framerate = 0;
    assert_eq!(low_latency_tunings(&c).framerate, 1);
}

#[test]
fn gop_limit_maps_infinite_and_finite() {
    assert_eq!(gop_limit(0), 2048);
    assert_eq!(gop_limit(120), 120);
    assert_eq!(gop_limit(u32::MAX), u16::MAX);
}

#[test]
fn detects_idr_nal_with_three_and_four_byte_start_codes() {
    // 4-byte start code, NAL type 5 (IDR): header byte 0x65.
    assert!(bitstream_has_idr(&[0, 0, 0, 1, 0x65, 0xab]));
    // 3-byte start code, NAL type 5.
    assert!(bitstream_has_idr(&[0, 0, 1, 0x65]));
    // Non-IDR slice (type 1, header 0x41) and SPS (type 7) only.
    assert!(!bitstream_has_idr(&[0, 0, 0, 1, 0x67, 0, 0, 0, 1, 0x41]));
}

#[test]
fn mb_count_rounds_up() {
    assert_eq!(mb_count(1920), 120);
    assert_eq!(mb_count(1080), 68); // 1080 is not MB-aligned
    assert_eq!(mb_count(1), 1);
}

#[test]
fn sps_crops_non_aligned_height() {
    let sps = build_sps(1920, 1080, 60);
    assert_eq!(sps.pic_width_in_mbs_minus1, 119);
    assert_eq!(sps.pic_height_in_map_units_minus1, 67);
    assert_eq!(sps.frame_crop_right_offset, 0);
    // 68 MBs = 1088 rows; 8 padding rows = 4 crop units (4:2:0).
    assert_eq!(sps.frame_crop_bottom_offset, 4);
    assert!(sps.frame_cropping_flag);
    assert!(sps.frame_mbs_only_flag);
}

#[test]
fn sps_no_crop_when_aligned() {
    let sps = build_sps(1280, 720, 30);
    assert_eq!(sps.frame_crop_right_offset, 0);
    assert_eq!(sps.frame_crop_bottom_offset, 0);
    assert!(!sps.frame_cropping_flag);
}

#[test]
fn level_scales_with_resolution_and_framerate() {
    assert_eq!(pick_level(1280, 720, 30), Level::L3_1);
    assert_eq!(pick_level(1920, 1080, 60), Level::L4_2);
    assert_eq!(pick_level(3840, 2160, 60), Level::L5_2);
    assert_eq!(pick_level(7680, 4320, 60), Level::L6_1);
}

#[test]
fn idr_picture_info_sets_idr_flag_and_no_refs() {
    let state = FrameState { is_idr: true, frame_num: 0, pic_order_cnt: 0, idr_pic_id: 3 };
    let info = build_picture_info(&state, None);
    assert!(info.idr_pic_flag);
    assert!(info.is_reference);
    assert_eq!(info.idr_pic_id, 3);
    assert!(info.ref_lists.is_none());
    assert_eq!(info.primary_pic_type, PictureType::Idr);
}

#[test]
fn p_picture_links_reference_list() {
    let lists = build_reference_lists(1);
    assert_eq!(lists.ref_pic_list0[0], 1);
    assert_eq!(lists.ref_pic_list0[1], NO_REFERENCE_PICTURE);
    assert!(lists.ref_pic_list1.iter().all(|&r| r == NO_REFERENCE_PICTURE));

    let state = FrameState { is_idr: false, frame_num: 5, pic_order_cnt: 10, idr_pic_id: 0 };
    let info = build_picture_info(&state, Some(lists));
    assert!(!info.idr_pic_flag);
    assert_eq!(info.frame_num, 5);
    assert_eq!(info.pic_order_cnt, 10);
    let linked = info.ref_lists.unwrap();
    assert_eq!(linked.ref_pic_list0, lists.ref_pic_list0);
    assert_eq!(linked.ref_pic_list1, lists.ref_pic_list1);
}

#[test]
fn slice_types_match_picture_kind() {
    assert_eq!(build_slice_header(true, 0).slice_type, SliceType::I);
    assert_eq!(build_slice_header(false, 2).slice_qp_delta, 2);
    assert_eq!(build_slice_header(false, 0).slice_type, SliceType::P);
}

fn base_frame() -> CapturedFrame {
    CapturedFrame {
        sequence: 1,
        timestamp: 0,
        format: PixelFormat::Bgra8,
        resolution: Resolution::new(16, 16),
        stride: 64,
        data: Vec::new(),
        gpu_handle: None,
    }
}

fn dmabuf(planes: Vec<DmaBufPlane>) -> Option<GpuFrameHandle> {
    Some(GpuFrameHandle::DmaBuf(DmaBufHandle {
        planes,
        modifier: 0,
        fourcc: 0,
        width: 16,
        height: 16,
    }))
}

#[test]
fn classify_dmabuf_frame() {
    let mut f = base_frame();
    f.gpu_handle = dmabuf(vec![DmaBufPlane { fd: 3, offset: 0, stride: 64 }]);
    assert_eq!(classify_frame(&f).unwrap(), ImportPath::DmaBuf);
}

#[test]
fn classify_cpu_frame() {
    let mut f = base_frame();
    f.data = vec![0u8; 1024];
    assert_eq!(classify_frame(&f).unwrap(), ImportPath::CpuUpload);
}

#[test]
fn classify_empty_frame_errors() {
    assert!(classify_frame(&base_frame()).is_err());
}

#[test]
fn classify_planeless_dmabuf_with_pixels_uploads_them() {
    let mut f = base_frame();
    f.gpu_handle = dmabuf(Vec::new());
    f.data = vec![0u8; 1024];
    assert_eq!(classify_frame(&f).unwrap(), ImportPath::CpuUpload);
}

#[test]
fn classify_planeless_dmabuf_errors() {
    let mut f = base_frame();
    f.gpu_handle = dmabuf(Vec::new());
    assert!(classify_frame(&f).is_err());
}

/// A trivial importer used to see that `import` dispatches on the path.
struct CountingImport {
    dmabuf: u32,
    cpu: u32,
}

impl GpuFrameImport for CountingImport {
    type Surface = ImportPath;

    fn import_dmabuf(&mut self, _h: &DmaBufHandle) -> Result<ImportPath, FluxError> {
        self.dmabuf += 1;
        Ok(ImportPath::DmaBuf)
    }

    fn upload_cpu(&mut self, _f: &CapturedFrame) -> Result<ImportPath, FluxError> {
        self.cpu += 1;
        Ok(ImportPath::CpuUpload)
    }
}

#[test]
fn import_dispatches_on_path() {
    let mut imp = CountingImport { dmabuf: 0, cpu: 0 };
    let mut cpu = base_frame();
    cpu.data = vec![0u8; 8];
    assert_eq!(imp.import(&cpu).unwrap(), ImportPath::CpuUpload);

    let mut dma = base_frame();
    dma.gpu_handle = dmabuf(vec![DmaBufPlane { fd: 3, offset: 0, stride: 64 }]);
    assert_eq!(imp.import(&dma).unwrap(), ImportPath::DmaBuf);
    assert_eq!((imp.dmabuf, imp.cpu), (1, 1));
}

#[test]
fn maps_drivable_codecs_onto_core_caps() {
    let caps = to_core_encode_caps("Mesa Gallium", &vec![VideoCodec::H264], false);
    assert_eq!(caps.backend, Some(EncoderBackend::Vaapi));
    assert_eq!(caps.driver.as_deref(), Some("Mesa Gallium"));
    assert!(caps.h264);
    assert!(!caps.h265);
    assert!(!caps.av1);
    assert!(!caps.hdr10);
}

#[test]
fn empty_driver_string_maps_to_none() {
    let caps = to_core_encode_caps("", &vec![], false);
    assert!(caps.driver.is_none());
    assert!(!caps.h264);
}

#[test]
fn ffmpeg_is_absent_without_its_libraries() {
    let text = |error: FluxError| match error {
        FluxError::EncoderInit(text) => text,
        other => panic!("{:?}", other),
    };
    assert_eq!(
        text(FfmpegVaapiEncoder::new().err().unwrap()),
        "FFmpeg VA-API backend not compiled in (enable the `encoder-ffmpeg` feature)"
    );
    assert_eq!(
        text(FfmpegVulkanEncoder::new().err().unwrap()),
        "FFmpeg Vulkan backend not compiled in (enable the `encoder-ffmpeg` feature)"
    );
    assert_eq!(
        text(FfmpegSoftwareEncoder::new().err().unwrap()),
        "FFmpeg software backend not compiled in (enable the `encoder-ffmpeg` feature)"
    );
}
