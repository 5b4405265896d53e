//! Encode sessions: what each frame asks of the encoder.

use flux::encode::amf::constants::{
    H264_FORCE_PICTURE_TYPE, H264_INSERT_PPS, H264_INSERT_SPS, H264_PEAK_BITRATE,
    H264_TARGET_BITRATE,
};
use flux::encode::amf::ffi::{
    amf_get_build, amf_get_major, amf_get_minor, amf_get_subminor, amf_make_full_version,
    check_amf, to_wide, AMFRate, AMFSize, AMFVariantStruct, AMF_INPUT_FULL, AMF_OK,
};
use flux::encode::amf::{AmfEncoder, AmfSession, AmfValue, SubmitStep, SurfaceSource};
use flux::encode::backend::{
    create_encoder, default_backend, BasicSession, HostOs, NvencEncoder, SoftwareEncoder,
};
use flux::encode::color::OutputYuvFormat;
use flux::encode::config::EncodeConfig;
use flux::encode::ffmpeg::{
    copy_packed_rgb, plan_session, sw_encoder_name, vaapi_device_candidates, Accel,
    FfmpegSession, FfmpegSoftwareEncoder, FfmpegVaapiEncoder, Pixel, SoftwareEncoders,
};
use flux::encode::nal::contains_idr_nalu;
use flux::encode::vaapi::{
    pick_h264_low_power, upload_nv12, Entrypoints, H264Profiles, SurfaceLayout, VaapiSession,
};
use flux::encode::vulkan::{
    align_up, find_memory_type, find_queue_families, select_device, DeviceCandidate, H264Caps,
    QueueFamily, VulkanVideoEncoder, VulkanVideoSession, REQUIRED_API_VERSION,
};
use flux::error::FluxError;
use flux::frame::{CapturedFrame, GpuFrameHandle};
use flux::types::{
    ChromaSampling, DynamicRange, EncoderBackend, PixelFormat, RateControlMode, Resolution,
    VideoCodec,
};

fn config(codec: VideoCodec) -> EncodeConfig {
    EncodeConfig {
        codec,
        resolution: Resolution::new(4, 4),
        framerate: 60,
        bitrate_kbps: 8_000,
        ..EncodeConfig::default()
    }
}

fn frame(sequence: u64) -> CapturedFrame {
    CapturedFrame {
        sequence,
        timestamp: 0,
        format: PixelFormat::Bgra8,
        resolution: Resolution::new(4, 4),
        stride: 16,
        data: vec![0; 64],
        gpu_handle: None,
    }
}

#[test]
fn amf_first_frame_is_a_keyframe_and_the_next_is_not() {
    let mut session = AmfSession::new(config(VideoCodec::H264));
    let first = session.begin_frame(&frame(1)).unwrap();
    assert!(first.is_idr);
    assert_eq!(first.pts, 10_000);
    let names: Vec<&str> = first.properties.iter().map(|p| p.name).collect();
    assert_eq!(names, vec![H264_INSERT_SPS, H264_INSERT_PPS, H264_FORCE_PICTURE_TYPE]);

    let second = session.begin_frame(&frame(2)).unwrap();
    assert!(!second.is_idr);
    assert!(second.properties.is_empty());
    assert_eq!(second.pts, 20_000);

    session.request_idr();
    assert!(session.begin_frame(&frame(3)).unwrap().is_idr);
}

#[test]
fn amf_opens_a_shared_texture_once() {
    let mut session = AmfSession::new(config(VideoCodec::H265));
    let mut shared = frame(1);
    shared.gpu_handle = Some(GpuFrameHandle::DxgiSharedTexture(42));
    let first = session.begin_frame(&shared).unwrap();
    assert_eq!(first.source, SurfaceSource::SharedTexture { handle: 42, open: true });
    session.texture_opened(42);
    let second = session.begin_frame(&shared).unwrap();
    assert_eq!(second.source, SurfaceSource::SharedTexture { handle: 42, open: false });
}

#[test]
fn amf_refuses_frames_without_pixels() {
    let mut session = AmfSession::new(config(VideoCodec::H264));
    let mut empty = frame(1);
    empty.data.clear();
    match session.begin_frame(&empty) {
        Err(FluxError::Encode { frame, reason }) => {
            assert_eq!(frame, 1);
            assert_eq!(reason, "Frame has no data and no GPU handle");
        }
        _ => panic!("accepted"),
    }
    // The keyframe that was due comes with the next frame that is encoded.
    assert!(session.begin_frame(&frame(2)).unwrap().is_idr);
    assert!(!session.begin_frame(&frame(3)).unwrap().is_idr);
    session.request_idr();
    assert!(session.begin_frame(&empty).is_err());
    assert!(session.begin_frame(&frame(4)).unwrap().is_idr);
    session.frame_failed(true);
    assert!(session.begin_frame(&frame(5)).unwrap().is_idr);
    assert!(!session.begin_frame(&frame(6)).unwrap().is_idr);
}

#[test]
fn amf_gives_a_full_queue_one_more_try() {
    let session = AmfSession::new(config(VideoCodec::H264));
    assert!(matches!(session.after_submit(AMF_OK, false), SubmitStep::Accepted));
    assert!(matches!(session.after_submit(AMF_INPUT_FULL, false), SubmitStep::DrainAndRetry));
    match session.after_submit(AMF_INPUT_FULL, true) {
        SubmitStep::Failed(FluxError::Encode { reason, .. }) => {
            assert_eq!(reason, format!("AMF SubmitInput failed: {}", AMF_INPUT_FULL))
        }
        _ => panic!("not refused"),
    }
}

#[test]
fn amf_packets_tell_keyframes_by_type_or_by_content() {
    let session = AmfSession::new(config(VideoCodec::H264));
    assert!(session.packet(vec![0, 0, 1, 0x65], None).is_keyframe);
    assert!(!session.packet(vec![0, 0, 1, 0x41], None).is_keyframe);
    assert!(session.packet(vec![9], Some(0)).is_keyframe);
    assert!(!session.packet(vec![9], Some(2)).is_keyframe);
}

#[test]
fn amf_bitrate_changes_target_and_peak() {
    let session = AmfSession::new(config(VideoCodec::H264));
    let properties = session.bitrate_change(4_000);
    assert_eq!(properties[0].name, H264_TARGET_BITRATE);
    assert_eq!(properties[0].value, AmfValue::Int(4_000_000));
    assert_eq!(properties[1].name, H264_PEAK_BITRATE);
    assert_eq!(properties[1].value, AmfValue::Int(6_000_000));
}

#[test]
fn amf_plan_names_the_component_and_the_surfaces() {
    let plan = flux::encode::amf::plan_session(&config(VideoCodec::H264));
    assert_eq!((plan.width, plan.height), (4, 4));
    let mut hdr = config(VideoCodec::H265);
    hdr.dynamic_range = DynamicRange::Hdr10;
    let hdr_plan = flux::encode::amf::plan_session(&hdr);
    assert_ne!(plan.surface_format, hdr_plan.surface_format);
    assert_ne!(plan.component, hdr_plan.component);
}

#[test]
fn amf_versions_and_variants_round_trip() {
    let version = amf_make_full_version(1, 4, 30, 5);
    assert!(version < amf_make_full_version(1, 4, 31, 0));
    assert!(version > amf_make_full_version(1, 3, 99, 99));
    assert_eq!(amf_get_major(version), 1);
    assert_eq!(amf_get_minor(version), 4);
    assert_eq!(amf_get_subminor(version), 30);
    assert_eq!(amf_get_build(version), 5);
    assert_eq!(AMFVariantStruct::from_int64(-7).as_int64(), -7);
    assert!(AMFVariantStruct::from_bool(true).as_bool());
    assert!(!AMFVariantStruct::from_bool(false).as_bool());
    let size = AMFVariantStruct::from_size(AMFSize::new(2, 3));
    assert_eq!(size.as_int64(), 2 + (3i64 << 32));
    let rate = AMFVariantStruct::from_rate(AMFRate::new(60, 1));
    assert_eq!(rate.as_int64(), 60 + (1i64 << 32));
}

#[test]
fn amf_names_are_wide_and_end_with_zero() {
    assert_eq!(to_wide("Hi"), vec![0x48, 0x69, 0]);
    assert_eq!(to_wide("\u{1F600}"), vec![0xD83D, 0xDE00, 0]);
}

#[test]
fn amf_results_become_errors() {
    assert!(check_amf(AMF_OK, "Init").is_ok());
    match check_amf(-3, "Init") {
        Err(FluxError::EncoderInit(text)) => assert_eq!(text, "AMF Init failed with code -3"),
        other => panic!("{:?}", other),
    }
}

#[test]
fn amf_features_follow_the_runtime() {
    let old = AmfEncoder::new(amf_make_full_version(1, 4, 20, 0));
    let new = AmfEncoder::new(amf_make_full_version(1, 4, 33, 0));
    assert!(!old.supports_av1());
    assert!(new.supports_av1());
    assert!(new.capabilities().unwrap().supported_codecs.contains(&VideoCodec::Av1));
    assert!(old.validate_config(&config(VideoCodec::Av1)).is_err());
}

fn caps() -> H264Caps {
    H264Caps {
        max_coded_extent: Resolution::new(4096, 4096),
        min_bitstream_size_align: 256,
        max_dpb_slots: 16,
        max_active_refs: 4,
        supports_cbr: true,
        supports_vbr: true,
        supports_disabled: true,
        min_qp: 0,
        max_qp: 51,
        cabac: true,
    }
}

#[test]
fn vulkan_idr_frames_carry_the_parameter_sets() {
    let mut session = VulkanVideoSession::new(caps(), config(VideoCodec::H264), vec![7, 8]);
    let (nv12, plan) = session.begin_frame(&frame(5)).unwrap();
    assert_eq!(nv12.len(), 24);
    assert!(plan.state.is_idr);
    assert!(plan.prepare_slots);
    assert!(plan.rate_control.unwrap().reset);
    assert!(plan.reference.is_none());
    let packet = session.finish_frame(plan.state, 5, &[0, 1, 2, 3], 1, 2);
    assert_eq!(packet.data, vec![7, 8, 1, 2]);
    assert!(packet.is_keyframe);
    assert_eq!((packet.frame_index, packet.pts), (1, 5));

    let (_, plan) = session.begin_frame(&frame(6)).unwrap();
    assert!(!plan.state.is_idr);
    assert_eq!(plan.state.frame_num, 1);
    assert_eq!(plan.state.pic_order_cnt, 2);
    assert_eq!((plan.setup_slot, plan.ref_slot), (1, 0));
    assert!(plan.rate_control.is_none());
    assert_eq!(plan.reference.unwrap().frame_num, 0);
    let packet = session.finish_frame(plan.state, 6, &[4, 5], 0, 2);
    assert_eq!(packet.data, vec![4, 5]);
    assert!(!packet.is_keyframe);

    session.request_idr();
    session.set_bitrate(1_000);
    let (_, plan) = session.begin_frame(&frame(7)).unwrap();
    assert!(plan.state.is_idr);
    assert_eq!(plan.state.frame_num, 0);
    assert_eq!(plan.state.idr_pic_id, 1);
    assert_eq!(plan.rate_control.unwrap().average_bitrate, 1_000_000);
}

#[test]
fn vulkan_groups_of_pictures_start_over() {
    let mut grouped = config(VideoCodec::H264);
    grouped.gop_size = 3;
    let mut session = VulkanVideoSession::new(caps(), grouped, Vec::new());
    let mut keyframes = Vec::new();
    for n in 0..7 {
        let (_, plan) = session.begin_frame(&frame(n)).unwrap();
        keyframes.push(plan.state.is_idr);
        session.finish_frame(plan.state, n, &[], 0, 0);
    }
    assert_eq!(keyframes, vec![true, false, false, true, false, false, true]);
}

#[test]
fn vulkan_requests_outlast_failed_frames() {
    let mut session = VulkanVideoSession::new(caps(), config(VideoCodec::H264), vec![9]);
    let (_, plan) = session.begin_frame(&frame(1)).unwrap();
    session.finish_frame(plan.state, 1, &[], 0, 0);
    session.request_idr();
    let mut empty = frame(2);
    empty.data.clear();
    assert!(session.begin_frame(&empty).is_err());
    // The driver fails this one.
    assert!(session.begin_frame(&frame(3)).unwrap().1.state.is_idr);
    let (_, plan) = session.begin_frame(&frame(4)).unwrap();
    let packet = session.finish_frame(plan.state, 4, &[1], 0, 1);
    assert!(packet.is_keyframe);
    assert_eq!((packet.frame_index, packet.pts, packet.data), (2, 4, vec![9, 1]));
    assert!(!session.begin_frame(&frame(5)).unwrap().1.state.is_idr);
}

#[test]
fn vulkan_refuses_what_the_device_cannot_do() {
    let encoder = VulkanVideoEncoder::new(caps(), "card".to_string());
    assert_eq!(encoder.device_name(), "card");
    assert!(encoder.validate_config(&config(VideoCodec::H264)).is_ok());
    assert!(encoder.validate_config(&config(VideoCodec::H265)).is_err());
    let mut large = config(VideoCodec::H264);
    large.resolution = Resolution::new(5120, 2160);
    match encoder.validate_config(&large) {
        Err(FluxError::EncoderInit(text)) => {
            assert_eq!(text, "resolution 5120x2160 exceeds Vulkan Video maximum 4096x4096")
        }
        other => panic!("{:?}", other),
    }
    let mut quantized = config(VideoCodec::H264);
    quantized.rate_control = RateControlMode::Cqp;
    let limited = H264Caps { supports_disabled: false, ..caps() };
    assert!(VulkanVideoEncoder::new(limited, String::new()).validate_config(&quantized).is_err());
    let shallow = H264Caps { max_dpb_slots: 1, ..caps() };
    assert!(VulkanVideoEncoder::new(shallow, String::new())
        .validate_config(&config(VideoCodec::H264))
        .is_err());
}

#[test]
fn vulkan_picks_families_devices_and_memory() {
    let graphics = QueueFamily { video_encode: false, encodes_h264: false, copies: true };
    let video = QueueFamily { video_encode: true, encodes_h264: true, copies: true };
    assert_eq!(find_queue_families(&vec![graphics, video]), Some((1, 0)));
    assert_eq!(find_queue_families(&vec![video]), Some((0, 0)));
    assert_eq!(find_queue_families(&vec![graphics]), None);

    let device = |api_version, families| DeviceCandidate {
        api_version,
        has_extensions: true,
        families,
        has_h264_caps: true,
    };
    let devices = vec![
        device(REQUIRED_API_VERSION - 1, vec![video]),
        device(REQUIRED_API_VERSION, vec![graphics]),
        device(REQUIRED_API_VERSION, vec![video]),
    ];
    assert_eq!(select_device(&devices).unwrap(), 2);
    assert!(select_device(&Vec::new()).is_err());

    assert_eq!(find_memory_type(&vec![1, 6, 7], 0b110, 2), Some(1));
    assert_eq!(find_memory_type(&vec![1, 6, 7], 0b100, 2), Some(2));
    assert_eq!(find_memory_type(&vec![1, 6, 7], 0b001, 2), None);
    assert_eq!(align_up(1, 256), 256);
    assert_eq!(align_up(512, 256), 512);
}

#[test]
fn vaapi_session_stamps_frames() {
    let mut session = VaapiSession::new(&config(VideoCodec::H264)).unwrap();
    assert_eq!(session.next_frame(), (0, true));
    assert_eq!(session.next_frame(), (1, false));
    session.request_idr();
    assert_eq!(session.next_frame(), (2, true));
    session.frame_failed(true);
    assert_eq!(session.next_frame(), (3, true));
    session.frame_failed(false);
    assert_eq!(session.next_frame(), (4, false));
    assert_eq!(session.set_bitrate(5_000).constant_bitrate, 5_000_000);
    let packet = session.packet(2, vec![0, 0, 0, 1, 0x65]);
    assert!(packet.is_keyframe);
    assert_eq!((packet.frame_index, packet.pts), (2, 2));
    let mut empty = config(VideoCodec::H264);
    empty.resolution = Resolution::new(0, 4);
    assert!(VaapiSession::new(&empty).is_err());
}

#[test]
fn vaapi_low_power_is_used_where_it_is_all_there_is() {
    let none = Entrypoints { enc_slice: false, enc_slice_lp: false };
    let full = Entrypoints { enc_slice: true, enc_slice_lp: true };
    let low = Entrypoints { enc_slice: false, enc_slice_lp: true };
    let profiles =
        |main| H264Profiles { high: none, main, constrained_baseline: none };
    assert!(!pick_h264_low_power(&profiles(full)).unwrap());
    assert!(pick_h264_low_power(&profiles(low)).unwrap());
    assert!(pick_h264_low_power(&profiles(none)).is_err());
}

#[test]
fn vaapi_upload_follows_the_pitches() {
    let layout =
        SurfaceLayout { luma_offset: 1, luma_pitch: 4, chroma_offset: 9, chroma_pitch: 3 };
    let mut memory = [0u8; 12];
    let planes = upload_nv12(&mut memory, &layout, 2, 2, &[1, 2, 3, 4, 5, 6]);
    assert_eq!(memory, [0, 1, 2, 0, 0, 3, 4, 0, 0, 5, 6, 0]);
    assert_eq!((planes[0].offset, planes[0].stride), (1, 4));
    assert_eq!((planes[1].offset, planes[1].stride), (9, 3));
}

#[test]
fn ffmpeg_session_stamps_and_refuses() {
    let mut session = FfmpegSession::new(&config(VideoCodec::H264));
    assert_eq!(session.accept(&frame(1)).unwrap(), Pixel::Bgra);
    assert!(session.needs_converter(Pixel::Bgra));
    session.converter_made(Pixel::Bgra);
    assert!(!session.needs_converter(Pixel::Bgra));
    assert_eq!(session.stamp(), (0, true));
    assert_eq!(session.stamp(), (1, false));
    session.frame_failed(true);
    assert_eq!(session.stamp(), (2, true));
    assert_eq!(session.bitrate_change(7), (7_000, 7_000));
    assert_eq!(session.packet(None, false, vec![1]).pts, 3);

    let mut planar = frame(1);
    planar.format = PixelFormat::Nv12;
    assert!(session.accept(&planar).is_err());
    let mut other = frame(1);
    other.resolution = Resolution::new(8, 8);
    match session.accept(&other) {
        Err(FluxError::Encode { reason, .. }) => {
            assert_eq!(reason, "frame resolution 8x8 does not match encoder 4x4")
        }
        _ => panic!("accepted"),
    }
    let mut empty = frame(1);
    empty.data.clear();
    assert!(session.accept(&empty).is_err());
}

#[test]
fn ffmpeg_plans_follow_the_interface() {
    let available = SoftwareEncoders { x264: false, openh264: true, x265: false };
    let plan = plan_session(&config(VideoCodec::H264), Accel::Software, &available).unwrap();
    assert_eq!(plan.encoder, "libopenh264");
    assert_eq!(plan.pix_fmt, Pixel::Yuv420p);
    assert_eq!(plan.bit_rate, 8_000_000);
    assert!(plan_session(&config(VideoCodec::H265), Accel::Software, &available).is_err());
    assert_eq!(sw_encoder_name(VideoCodec::Av1, &available), None);
    assert!(FfmpegSoftwareEncoder::new(&available).is_ok());
    let none = SoftwareEncoders { x264: false, openh264: false, x265: false };
    assert!(FfmpegSoftwareEncoder::new(&none).is_err());
    assert!(FfmpegVaapiEncoder::new(false, false).is_err());
    let encoder = FfmpegVaapiEncoder::new(true, false).unwrap();
    assert!(encoder.validate_config(&config(VideoCodec::H264)).is_ok());
    assert!(encoder.validate_config(&config(VideoCodec::H265)).is_err());
}

#[test]
fn ffmpeg_devices_are_tried_in_order() {
    let mut exists = [false; 8];
    exists[1] = true;
    assert_eq!(
        vaapi_device_candidates(Some("/dev/x".to_string()), &exists),
        vec![Some("/dev/x".to_string()), Some("/dev/dri/renderD129".to_string()), None]
    );
    assert_eq!(vaapi_device_candidates(Some(String::new()), &[false; 8]), vec![None]);
}

#[test]
fn ffmpeg_copies_rows_between_strides() {
    let mut dst = vec![0u8; 40];
    let mut small = frame(1);
    small.resolution = Resolution::new(1, 2);
    small.stride = 8;
    small.data = (0..16).collect();
    copy_packed_rgb(&mut dst, 20, &small).unwrap();
    assert_eq!(&dst[..4], &[0, 1, 2, 3]);
    assert_eq!(&dst[20..24], &[8, 9, 10, 11]);
    small.data.truncate(9);
    assert!(copy_packed_rgb(&mut dst, 20, &small).is_err());
}

#[test]
fn backends_exist_by_operating_system() {
    assert_eq!(default_backend(), EncoderBackend::VulkanVideo);
    assert_eq!(create_encoder(None, HostOs::Linux).unwrap(), EncoderBackend::VulkanVideo);
    assert!(create_encoder(Some(EncoderBackend::Amf), HostOs::Linux).is_err());
    assert!(create_encoder(Some(EncoderBackend::Amf), HostOs::Windows).is_ok());
    assert!(matches!(
        create_encoder(Some(EncoderBackend::Vaapi), HostOs::Windows),
        Err(FluxError::NoEncoderBackend)
    ));
}

#[test]
fn basic_sessions_mark_requested_keyframes() {
    let mut session = BasicSession::new(config(VideoCodec::H264));
    let first = session.encode(&frame(1)).unwrap();
    session.request_idr();
    let second = session.encode(&frame(2)).unwrap();
    assert!(second.iter().all(|p| p.is_keyframe));
    assert_eq!(first.len(), second.len());
    assert!(session.flush().unwrap().is_empty());
    assert!(session.set_bitrate(1).is_ok());
    assert_eq!(NvencEncoder::new().unwrap().name(), "NVENC");
    assert_eq!(SoftwareEncoder::new().unwrap().name(), "Software (CPU)");
}

#[test]
fn yuv_formats_follow_the_settings() {
    assert_eq!(
        OutputYuvFormat::from_settings(ChromaSampling::Yuv420, DynamicRange::Sdr),
        OutputYuvFormat::Nv12
    );
    assert_eq!(
        OutputYuvFormat::from_settings(ChromaSampling::Yuv420, DynamicRange::Hdr10),
        OutputYuvFormat::P010
    );
}

#[test]
fn hevc_keyframes_have_their_own_types() {
    assert!(contains_idr_nalu(&[0, 0, 1, 19 << 1], VideoCodec::H265));
    assert!(contains_idr_nalu(&[0, 0, 1, 20 << 1], VideoCodec::H265));
    assert!(!contains_idr_nalu(&[0, 0, 1, 21 << 1], VideoCodec::H265));
    assert!(!contains_idr_nalu(&[0, 0, 1, 0x65], VideoCodec::Av1));
    // A keyframe behind another unit is found as well.
    assert!(contains_idr_nalu(&[0, 0, 1, 0x67, 0, 0, 1, 0x65], VideoCodec::H264));
}
